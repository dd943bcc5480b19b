//! The encoder: classify each dynamic value and build the token list for
//! an outgoing call.

use vstd::prelude::*;
use vstd::string::StrSliceExecFns;

use crate::addr::{addr_bytes, has_addr_prefix, is_addr_string, parse_address};
use crate::types::{
    dyn_seq_view, dyn_view, lemma_dyn_seq_view, lemma_token_seq_view, token_seq_view, token_view,
    DynVal, DynValue, EncodeError, EncodeErrorKind, Token, TokenV, Uint256,
};

verus! {

/// How one dynamic value is classified and encoded. First match wins:
/// an address-prefixed string must parse as an address, any other string
/// is a string token, a non-negative integer widens to an unsigned word,
/// a boolean maps to a boolean token, a list encodes element-wise into a
/// variable-size array, and anything else has no token mapping.
pub open spec fn encode_value_spec(v: DynVal) -> Result<TokenV, EncodeErrorKind>
    decreases v,
{
    match v {
        DynVal::Text(s) => if has_addr_prefix(s) {
            if is_addr_string(s) {
                Ok(TokenV::Address(addr_bytes(s)))
            } else {
                Err(EncodeErrorKind::MalformedAddress)
            }
        } else {
            Ok(TokenV::Str(s))
        },
        DynVal::Int(n) => if n < 0 {
            Err(EncodeErrorKind::UnsupportedSignedValue)
        } else {
            Ok(TokenV::Uint(n))
        },
        DynVal::Bool(b) => Ok(TokenV::Bool(b)),
        DynVal::List(l) => match encode_seq_spec(l, 0) {
            Ok(ts) => Ok(TokenV::Array(ts)),
            Err(e) => Err(e.0),
        },
        DynVal::FloatBits(_) => Err(EncodeErrorKind::UnsupportedValueType),
        DynVal::Bytes(_) => Err(EncodeErrorKind::UnsupportedValueType),
    }
}

/// Element-wise encoding of `vs` from index `i` on: the tokens of all
/// elements, or the first failure with the index it happened at.
pub open spec fn encode_seq_spec(vs: Seq<DynVal>, i: int) -> Result<
    Seq<TokenV>,
    (EncodeErrorKind, int),
>
    decreases vs, vs.len() - i,
{
    if i < 0 || i >= vs.len() {
        Ok(Seq::empty())
    } else {
        match encode_value_spec(vs[i]) {
            Err(k) => Err((k, i)),
            Ok(t) => match encode_seq_spec(vs, i + 1) {
                Err(e) => Err(e),
                Ok(rest) => Ok(seq![t] + rest),
            },
        }
    }
}

/// Encoding a whole sequence splits at any index whose prefix encodes
/// cleanly: the result is that prefix's tokens followed by whatever the
/// suffix yields.
pub proof fn lemma_encode_seq_split(vs: Seq<DynVal>, i: int)
    requires
        0 <= i <= vs.len(),
        forall|k: int| 0 <= k < i ==> encode_value_spec(#[trigger] vs[k]) is Ok,
    ensures
        encode_seq_spec(vs, 0) == match encode_seq_spec(vs, i) {
            Ok(rest) => Ok::<Seq<TokenV>, (EncodeErrorKind, int)>(
                Seq::new(i as nat, |k: int| encode_value_spec(vs[k])->Ok_0) + rest,
            ),
            Err(e) => Err::<Seq<TokenV>, (EncodeErrorKind, int)>(e),
        },
    decreases i,
{
    if i == 0 {
        match encode_seq_spec(vs, 0) {
            Ok(rest) => {
                assert(Seq::new(0, |k: int| encode_value_spec(vs[k])->Ok_0) + rest =~= rest);
            },
            Err(_) => {},
        }
    } else {
        lemma_encode_seq_split(vs, i - 1);
        let t = encode_value_spec(vs[i - 1])->Ok_0;
        match encode_seq_spec(vs, i) {
            Ok(rest) => {
                assert(Seq::new((i - 1) as nat, |k: int| encode_value_spec(vs[k])->Ok_0) + (seq![t]
                    + rest) =~= Seq::new(i as nat, |k: int| encode_value_spec(vs[k])->Ok_0) + rest);
            },
            Err(_) => {},
        }
    }
}

/// Every dynamic value maps to exactly one token: a successful encode
/// of the elements from index `i` on yields one token per element, with
/// nothing dropped and nothing duplicated.
pub proof fn lemma_encode_one_token_per_value(vs: Seq<DynVal>, i: int)
    requires
        0 <= i <= vs.len(),
        encode_seq_spec(vs, i) is Ok,
    ensures
        (encode_seq_spec(vs, i)->Ok_0).len() == vs.len() - i,
    decreases vs.len() - i,
{
    if i < vs.len() {
        lemma_encode_one_token_per_value(vs, i + 1);
    }
}

/// Encode one dynamic value into one token.
pub fn encode_value(v: &DynValue) -> (r: Result<Token, EncodeErrorKind>)
    ensures
        match r {
            Ok(t) => encode_value_spec(dyn_view(*v)) == Ok::<TokenV, EncodeErrorKind>(
                token_view(t),
            ),
            Err(k) => encode_value_spec(dyn_view(*v)) == Err::<TokenV, EncodeErrorKind>(k),
        },
    decreases *v,
{
    match v {
        DynValue::Text(s) => {
            let n = s.as_str().unicode_len();
            let prefixed = n >= 2 && s.as_str().get_char(0) == '0' && s.as_str().get_char(1)
                == 'x';
            assert(prefixed == has_addr_prefix(s@));
            if prefixed {
                match parse_address(s.as_str()) {
                    Some(bytes) => Ok(Token::Address(bytes)),
                    None => Err(EncodeErrorKind::MalformedAddress),
                }
            } else {
                Ok(Token::Str(s.clone()))
            }
        },
        DynValue::Int(n) => {
            if *n < 0 {
                Err(EncodeErrorKind::UnsupportedSignedValue)
            } else {
                Ok(Token::Uint(Uint256 { low: *n as u128, high: 0 }))
            }
        },
        DynValue::Bool(b) => Ok(Token::Bool(*b)),
        DynValue::FloatBits(_) => Err(EncodeErrorKind::UnsupportedValueType),
        DynValue::Bytes(_) => Err(EncodeErrorKind::UnsupportedValueType),
        DynValue::List(items) => {
            match encode_list(items) {
                Ok(ts) => Ok(Token::Array(ts)),
                Err((k, _)) => Err(k),
            }
        },
    }
}

/// Encode each element of `values`; on failure, report the index of the
/// offending top-level element.
pub(crate) fn encode_list(values: &Vec<DynValue>) -> (r: Result<
    Vec<Token>,
    (EncodeErrorKind, usize),
>)
    ensures
        match r {
            Ok(ts) => encode_seq_spec(dyn_seq_view(values@, 0), 0) == Ok::<
                Seq<TokenV>,
                (EncodeErrorKind, int),
            >(token_seq_view(ts@, 0)),
            Err(e) => encode_seq_spec(dyn_seq_view(values@, 0), 0) == Err::<
                Seq<TokenV>,
                (EncodeErrorKind, int),
            >((e.0, e.1 as int)),
        },
    decreases values@,
{
    let ghost l = dyn_seq_view(values@, 0);
    proof {
        lemma_dyn_seq_view(values@, 0);
    }
    let mut out: Vec<Token> = Vec::new();
    let mut i: usize = 0;
    while i < values.len()
        invariant
            0 <= i <= values@.len(),
            l == dyn_seq_view(values@, 0),
            l.len() == values@.len(),
            forall|k: int| 0 <= k < l.len() ==> l[k] == dyn_view(values@[k]),
            out@.len() == i,
            forall|k: int| 0 <= k < i ==> encode_value_spec(#[trigger] l[k]) is Ok,
            forall|k: int|
                0 <= k < i ==> token_view(#[trigger] out@[k]) == encode_value_spec(l[k])->Ok_0,
        decreases values@.len() - i,
    {
        match encode_value(&values[i]) {
            Ok(t) => {
                out.push(t);
            },
            Err(k) => {
                proof {
                    lemma_encode_seq_split(l, i as int);
                    assert(encode_seq_spec(l, i as int) == Err::<
                        Seq<TokenV>,
                        (EncodeErrorKind, int),
                    >((k, i as int)));
                }
                return Err((k, i));
            },
        }
        i = i + 1;
    }
    proof {
        lemma_encode_seq_split(l, l.len() as int);
        lemma_token_seq_view(out@, 0);
        assert(encode_seq_spec(l, l.len() as int) == Ok::<Seq<TokenV>, (EncodeErrorKind, int)>(
            Seq::empty(),
        ));
        assert(Seq::new(l.len(), |k: int| encode_value_spec(l[k])->Ok_0) + Seq::empty()
            =~= token_seq_view(out@, 0));
    }
    Ok(out)
}

/// Encode an ordered sequence of dynamic values into the token list for
/// an outgoing call. Every element maps to exactly one token, in order;
/// the first element with no valid mapping fails the whole encode, and
/// the error names it.
pub fn encode(values: &Vec<DynValue>) -> (r: Result<Vec<Token>, EncodeError>)
    ensures
        match r {
            Ok(ts) => encode_seq_spec(dyn_seq_view(values@, 0), 0) == Ok::<
                Seq<TokenV>,
                (EncodeErrorKind, int),
            >(token_seq_view(ts@, 0)),
            Err(e) => encode_seq_spec(dyn_seq_view(values@, 0), 0) == Err::<
                Seq<TokenV>,
                (EncodeErrorKind, int),
            >((e.kind, e.position as int)),
        },
{
    match encode_list(values) {
        Ok(ts) => Ok(ts),
        Err((k, p)) => Err(EncodeError { kind: k, position: p }),
    }
}

} // verus!
