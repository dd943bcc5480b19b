use abi_marshal::addr::{parse_address, render_address};
use abi_marshal::decode::decode;
use abi_marshal::encode::encode;
use abi_marshal::policy::encode_dropping_booleans;
use abi_marshal::types::{DecodeError, DynValue, EncodeError, EncodeErrorKind, Token, Uint256};

fn uint(n: u64) -> Token {
    Token::Uint(Uint256 { low: n as u128, high: 0 })
}

#[test]
fn plain_string_round_trips() {
    let values = vec![DynValue::Text(String::from("hello world"))];
    let tokens = encode(&values).unwrap();
    assert_eq!(tokens.len(), 1);
    match &tokens[0] {
        Token::Str(s) => assert_eq!(s, "hello world"),
        other => panic!("expected a string token, got {:?}", other),
    }
    let back = decode(&tokens).unwrap();
    assert_eq!(back.len(), 1);
    match &back[0] {
        DynValue::Text(s) => assert_eq!(s, "hello world"),
        other => panic!("expected text, got {:?}", other),
    }
}

#[test]
fn address_round_trips_lowercased() {
    let addr = "0xAbCdEf0123456789aBcDeF0123456789AbCdEf01";
    let values = vec![DynValue::Text(String::from(addr))];
    let tokens = encode(&values).unwrap();
    match &tokens[0] {
        Token::Address(b) => {
            assert_eq!(b.len(), 20);
            assert_eq!(b[0], 0xab);
            assert_eq!(b[1], 0xcd);
            assert_eq!(b[19], 0x01);
        },
        other => panic!("expected an address token, got {:?}", other),
    }
    let back = decode(&tokens).unwrap();
    match &back[0] {
        DynValue::Text(s) => assert_eq!(s, &addr.to_lowercase()),
        other => panic!("expected text, got {:?}", other),
    }
}

#[test]
fn nonnegative_integer_round_trips() {
    for n in [0i64, 1, 42, i64::MAX] {
        let values = vec![DynValue::Int(n)];
        let tokens = encode(&values).unwrap();
        match &tokens[0] {
            Token::Uint(w) => {
                assert_eq!(w.low, n as u128);
                assert_eq!(w.high, 0);
            },
            other => panic!("expected an unsigned token, got {:?}", other),
        }
        let back = decode(&tokens).unwrap();
        match &back[0] {
            DynValue::Int(m) => assert_eq!(*m, n),
            other => panic!("expected an integer, got {:?}", other),
        }
    }
}

#[test]
fn negative_integer_fails_encode() {
    let values = vec![DynValue::Int(-1)];
    let err = encode(&values).unwrap_err();
    assert_eq!(
        err,
        EncodeError { kind: EncodeErrorKind::UnsupportedSignedValue, position: 0 }
    );
}

#[test]
fn bad_hex_after_prefix_fails_encode() {
    let bad = "0xZZZZZZZZZZZZZZZZZZZZZZZZZZZZZZZZZZZZZZZZ";
    let err = encode(&vec![DynValue::Text(String::from(bad))]).unwrap_err();
    assert_eq!(err, EncodeError { kind: EncodeErrorKind::MalformedAddress, position: 0 });
}

#[test]
fn wrong_width_after_prefix_fails_encode() {
    let err = encode(&vec![DynValue::Text(String::from("0x1234"))]).unwrap_err();
    assert_eq!(err, EncodeError { kind: EncodeErrorKind::MalformedAddress, position: 0 });
}

#[test]
fn error_position_names_the_offending_element() {
    let values = vec![DynValue::Int(7), DynValue::Bool(true), DynValue::Int(-3)];
    let err = encode(&values).unwrap_err();
    assert_eq!(
        err,
        EncodeError { kind: EncodeErrorKind::UnsupportedSignedValue, position: 2 }
    );
}

#[test]
fn nested_failure_reports_toplevel_position() {
    let inner = vec![DynValue::Text(String::from("ok")), DynValue::Int(-9)];
    let values = vec![DynValue::Int(1), DynValue::List(inner)];
    let err = encode(&values).unwrap_err();
    assert_eq!(
        err,
        EncodeError { kind: EncodeErrorKind::UnsupportedSignedValue, position: 1 }
    );
}

#[test]
fn float_has_no_mapping() {
    let bits = 1.5f64.to_bits();
    let err = encode(&vec![DynValue::FloatBits(bits)]).unwrap_err();
    assert_eq!(err, EncodeError { kind: EncodeErrorKind::UnsupportedValueType, position: 0 });
}

#[test]
fn byte_values_have_no_mapping() {
    let err = encode(&vec![DynValue::Bytes(vec![1, 2, 3])]).unwrap_err();
    assert_eq!(err, EncodeError { kind: EncodeErrorKind::UnsupportedValueType, position: 0 });
}

#[test]
fn nested_sequences_keep_shape() {
    let addr = "0xAbCdEf0123456789aBcDeF0123456789AbCdEf01";
    let values = vec![
        DynValue::Int(1),
        DynValue::List(vec![
            DynValue::Text(String::from("a")),
            DynValue::Bool(true),
        ]),
        DynValue::Text(String::from(addr)),
    ];
    let tokens = encode(&values).unwrap();
    assert_eq!(tokens.len(), 3);
    match &tokens[1] {
        Token::Array(inner) => {
            assert_eq!(inner.len(), 2);
            assert!(matches!(inner[0], Token::Str(_)));
            assert!(matches!(inner[1], Token::Bool(true)));
        },
        other => panic!("expected an array token, got {:?}", other),
    }
    let back = decode(&tokens).unwrap();
    assert_eq!(back.len(), 3);
    assert!(matches!(back[0], DynValue::Int(1)));
    match &back[1] {
        DynValue::List(inner) => {
            assert_eq!(inner.len(), 2);
            match &inner[0] {
                DynValue::Text(s) => assert_eq!(s, "a"),
                other => panic!("expected text, got {:?}", other),
            }
            assert!(matches!(inner[1], DynValue::Bool(true)));
        },
        other => panic!("expected a list, got {:?}", other),
    }
    match &back[2] {
        DynValue::Text(s) => assert_eq!(s, &addr.to_lowercase()),
        other => panic!("expected text, got {:?}", other),
    }
}

#[test]
fn oversized_unsigned_token_fails_decode() {
    let too_big = vec![Token::Uint(Uint256 { low: i64::MAX as u128 + 1, high: 0 })];
    assert!(matches!(decode(&too_big), Err(DecodeError::IntegerOverflow)));
    let high_word = vec![Token::Uint(Uint256 { low: 0, high: 1 })];
    assert!(matches!(decode(&high_word), Err(DecodeError::IntegerOverflow)));
}

#[test]
fn decode_failure_is_atomic() {
    let tokens = vec![uint(1), Token::Uint(Uint256 { low: 0, high: 7 }), uint(2)];
    assert!(matches!(decode(&tokens), Err(DecodeError::IntegerOverflow)));
}

#[test]
fn empty_sequences_map_to_empty() {
    let no_values: Vec<DynValue> = Vec::new();
    let tokens = encode(&no_values).unwrap();
    assert_eq!(tokens.len(), 0);
    let no_tokens: Vec<Token> = Vec::new();
    let back = decode(&no_tokens).unwrap();
    assert_eq!(back.len(), 0);
}

#[test]
fn signed_tokens_narrow_as_twos_complement() {
    // The all-ones word is -1.
    let minus_one = Token::Int(Uint256 { low: u128::MAX, high: u128::MAX });
    let back = decode(&vec![minus_one]).unwrap();
    assert!(matches!(back[0], DynValue::Int(-1)));

    // The most negative host integer.
    let min_word = Token::Int(Uint256 {
        low: u128::MAX - (i64::MIN as i128).unsigned_abs() + 1,
        high: u128::MAX,
    });
    let back = decode(&vec![min_word]).unwrap();
    assert!(matches!(back[0], DynValue::Int(i64::MIN)));

    // One below the most negative host integer overflows.
    let too_low = Token::Int(Uint256 {
        low: u128::MAX - (i64::MIN as i128).unsigned_abs(),
        high: u128::MAX,
    });
    assert!(matches!(decode(&vec![too_low]), Err(DecodeError::IntegerOverflow)));

    // 2^255, the most negative 256-bit word, overflows.
    let most_negative = Token::Int(Uint256 { low: 0, high: 1u128 << 127 });
    assert!(matches!(decode(&vec![most_negative]), Err(DecodeError::IntegerOverflow)));

    // A small positive signed word decodes like an unsigned one.
    let five = Token::Int(Uint256 { low: 5, high: 0 });
    let back = decode(&vec![five]).unwrap();
    assert!(matches!(back[0], DynValue::Int(5)));
}

#[test]
fn byte_tokens_decode_to_byte_values() {
    let tokens = vec![
        Token::Bytes(vec![1, 2, 3]),
        Token::FixedBytes(vec![9, 8]),
    ];
    let back = decode(&tokens).unwrap();
    match &back[0] {
        DynValue::Bytes(b) => assert_eq!(b, &vec![1, 2, 3]),
        other => panic!("expected bytes, got {:?}", other),
    }
    match &back[1] {
        DynValue::Bytes(b) => assert_eq!(b, &vec![9, 8]),
        other => panic!("expected bytes, got {:?}", other),
    }
}

#[test]
fn fixed_arrays_decode_like_arrays() {
    let tokens = vec![Token::FixedArray(vec![uint(1), uint(2)])];
    let back = decode(&tokens).unwrap();
    match &back[0] {
        DynValue::List(inner) => {
            assert_eq!(inner.len(), 2);
            assert!(matches!(inner[0], DynValue::Int(1)));
            assert!(matches!(inner[1], DynValue::Int(2)));
        },
        other => panic!("expected a list, got {:?}", other),
    }
}

#[test]
fn address_token_renders_as_lowercase_hex() {
    let mut bytes = vec![0u8; 20];
    bytes[0] = 0xde;
    bytes[1] = 0xad;
    bytes[19] = 0x0f;
    let back = decode(&vec![Token::Address(bytes)]).unwrap();
    match &back[0] {
        DynValue::Text(s) => {
            assert_eq!(s, "0xdead00000000000000000000000000000000000f");
        },
        other => panic!("expected text, got {:?}", other),
    }
}

#[test]
fn string_tokens_pass_through_even_with_prefix() {
    // Only address tokens are rendered; a string token keeps its text.
    let tokens = vec![Token::Str(String::from("0xNotAnAddress"))];
    let back = decode(&tokens).unwrap();
    match &back[0] {
        DynValue::Text(s) => assert_eq!(s, "0xNotAnAddress"),
        other => panic!("expected text, got {:?}", other),
    }
}

#[test]
fn short_address_token_still_renders() {
    // A hand-built address token of unusual width renders hex for the
    // bytes it has.
    let back = decode(&vec![Token::Address(vec![0x0a, 0xff])]).unwrap();
    match &back[0] {
        DynValue::Text(s) => assert_eq!(s, "0x0aff"),
        other => panic!("expected text, got {:?}", other),
    }
}

#[test]
fn parse_and_render_address_agree() {
    let addr = "0x0123456789abcdefABCDEF0123456789abcdef01";
    let bytes = parse_address(addr).unwrap();
    assert_eq!(bytes.len(), 20);
    let rendered = render_address(&bytes);
    assert_eq!(rendered, addr.to_lowercase());
    assert!(parse_address("0x123").is_none());
    assert!(parse_address("1x0123456789abcdefABCDEF0123456789abcdef01").is_none());
    assert!(parse_address("0x0123456789abcdefABCDEF0123456789abcdefg1").is_none());
}

#[test]
fn dropping_booleans_is_an_explicit_policy() {
    let values = vec![
        DynValue::Bool(true),
        DynValue::Int(1),
        DynValue::List(vec![DynValue::Bool(false), DynValue::Int(2)]),
    ];
    let tokens = encode_dropping_booleans(&values).unwrap();
    assert_eq!(tokens.len(), 2);
    match &tokens[0] {
        Token::Uint(w) => assert_eq!(w.low, 1),
        other => panic!("expected an unsigned token, got {:?}", other),
    }
    match &tokens[1] {
        Token::Array(inner) => {
            assert_eq!(inner.len(), 1);
            assert!(matches!(&inner[0], Token::Uint(w) if w.low == 2));
        },
        other => panic!("expected an array token, got {:?}", other),
    }
    // The plain encoder keeps booleans: one token per value.
    let kept = encode(&values).unwrap();
    assert_eq!(kept.len(), 3);
    assert!(matches!(kept[0], Token::Bool(true)));
}

#[test]
fn uppercase_prefix_is_not_an_address() {
    // Only the exact prefix `0x` marks an address; `0X` stays a string.
    let text = "0XAbCdEf0123456789aBcDeF0123456789AbCdEf01";
    let tokens = encode(&vec![DynValue::Text(String::from(text))]).unwrap();
    match &tokens[0] {
        Token::Str(s) => assert_eq!(s, text),
        other => panic!("expected a string token, got {:?}", other),
    }
}

#[test]
fn bare_prefix_fails_encode() {
    let err = encode(&vec![DynValue::Text(String::from("0x"))]).unwrap_err();
    assert_eq!(err, EncodeError { kind: EncodeErrorKind::MalformedAddress, position: 0 });
}

#[test]
fn unicode_string_passes_through() {
    let text = "héllo wörld ≠ ascii";
    let tokens = encode(&vec![DynValue::Text(String::from(text))]).unwrap();
    let back = decode(&tokens).unwrap();
    match &back[0] {
        DynValue::Text(s) => assert_eq!(s, text),
        other => panic!("expected text, got {:?}", other),
    }
}
