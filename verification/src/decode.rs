//! The decoder: turn the token list of a call's results back into
//! dynamic values for the host.

use vstd::prelude::*;

use crate::addr::{addr_display, render_address};
use crate::types::{
    copy_bytes, dyn_seq_view, dyn_view, lemma_dyn_seq_view, lemma_token_seq_view, token_seq_view,
    token_view, u256_val, DecodeError, DynVal, DynValue, Token, TokenV,
};

verus! {

/// How one token maps back to a dynamic value. Integer tokens narrow to
/// the host's native signed width and fail with `IntegerOverflow` where
/// they do not fit; a signed token is read as a two's-complement 256-bit
/// word. Addresses render as `0x`-prefixed lowercase hex. Byte tokens,
/// fixed or variable, become byte sequences. Arrays, fixed or variable,
/// decode element-wise; the first failing element fails the whole token.
pub open spec fn decode_token_spec(t: TokenV) -> Result<DynVal, DecodeError>
    decreases t,
{
    match t {
        TokenV::Uint(n) => if n <= i64::MAX as int {
            Ok(DynVal::Int(n))
        } else {
            Err(DecodeError::IntegerOverflow)
        },
        TokenV::Int(n) => {
            let signed = if n < 0x8000000000000000000000000000000000000000000000000000000000000000int {
                n
            } else {
                n - 0x10000000000000000000000000000000000000000000000000000000000000000int
            };
            if i64::MIN as int <= signed && signed <= i64::MAX as int {
                Ok(DynVal::Int(signed))
            } else {
                Err(DecodeError::IntegerOverflow)
            }
        },
        TokenV::Bool(b) => Ok(DynVal::Bool(b)),
        TokenV::Str(s) => Ok(DynVal::Text(s)),
        TokenV::Bytes(b) => Ok(DynVal::Bytes(b)),
        TokenV::FixedBytes(b) => Ok(DynVal::Bytes(b)),
        TokenV::Address(b) => Ok(DynVal::Text(addr_display(b))),
        TokenV::Array(ts) => match decode_seq_spec(ts, 0) {
            Ok(vs) => Ok(DynVal::List(vs)),
            Err(e) => Err(e),
        },
        TokenV::FixedArray(ts) => match decode_seq_spec(ts, 0) {
            Ok(vs) => Ok(DynVal::List(vs)),
            Err(e) => Err(e),
        },
    }
}

/// Element-wise decoding of `ts` from index `i` on: the values of all
/// elements, or the first failure. A failure anywhere aborts the whole
/// sequence: no partial result exists.
pub open spec fn decode_seq_spec(ts: Seq<TokenV>, i: int) -> Result<Seq<DynVal>, DecodeError>
    decreases ts, ts.len() - i,
{
    if i < 0 || i >= ts.len() {
        Ok(Seq::empty())
    } else {
        match decode_token_spec(ts[i]) {
            Err(e) => Err(e),
            Ok(v) => match decode_seq_spec(ts, i + 1) {
                Err(e) => Err(e),
                Ok(rest) => Ok(seq![v] + rest),
            },
        }
    }
}

/// Decoding from an index depends only on the elements from that index
/// on.
pub proof fn lemma_decode_seq_shift(s1: Seq<TokenV>, i1: int, s2: Seq<TokenV>, i2: int)
    requires
        0 <= i1 <= s1.len(),
        0 <= i2 <= s2.len(),
        s1.skip(i1) == s2.skip(i2),
    ensures
        decode_seq_spec(s1, i1) == decode_seq_spec(s2, i2),
    decreases s1.len() - i1,
{
    assert(s1.skip(i1).len() == s1.len() - i1);
    assert(s2.skip(i2).len() == s2.len() - i2);
    if i1 < s1.len() {
        assert(i2 < s2.len());
        assert(s1[i1] == s1.skip(i1)[0]);
        assert(s2[i2] == s2.skip(i2)[0]);
        assert(s1.skip(i1 + 1) =~= s2.skip(i2 + 1)) by {
            assert forall|k: int| 0 <= k < s1.len() - i1 - 1 implies #[trigger] s1.skip(i1 + 1)[k]
                == s2.skip(i2 + 1)[k] by {
                assert(s1.skip(i1 + 1)[k] == s1.skip(i1)[k + 1]);
                assert(s2.skip(i2 + 1)[k] == s2.skip(i2)[k + 1]);
            }
        }
        lemma_decode_seq_shift(s1, i1 + 1, s2, i2 + 1);
    }
}

/// Decoding a whole sequence splits at any index whose prefix decodes
/// cleanly: the result is that prefix's values followed by whatever the
/// suffix yields.
pub proof fn lemma_decode_seq_split(ts: Seq<TokenV>, i: int)
    requires
        0 <= i <= ts.len(),
        forall|k: int| 0 <= k < i ==> decode_token_spec(#[trigger] ts[k]) is Ok,
    ensures
        decode_seq_spec(ts, 0) == match decode_seq_spec(ts, i) {
            Ok(rest) => Ok::<Seq<DynVal>, DecodeError>(
                Seq::new(i as nat, |k: int| decode_token_spec(ts[k])->Ok_0) + rest,
            ),
            Err(e) => Err::<Seq<DynVal>, DecodeError>(e),
        },
    decreases i,
{
    if i == 0 {
        match decode_seq_spec(ts, 0) {
            Ok(rest) => {
                assert(Seq::new(0, |k: int| decode_token_spec(ts[k])->Ok_0) + rest =~= rest);
            },
            Err(_) => {},
        }
    } else {
        lemma_decode_seq_split(ts, i - 1);
        let v = decode_token_spec(ts[i - 1])->Ok_0;
        match decode_seq_spec(ts, i) {
            Ok(rest) => {
                assert(Seq::new((i - 1) as nat, |k: int| decode_token_spec(ts[k])->Ok_0) + (seq![v]
                    + rest) =~= Seq::new(i as nat, |k: int| decode_token_spec(ts[k])->Ok_0) + rest);
            },
            Err(_) => {},
        }
    }
}

/// Every token maps to exactly one dynamic value: a successful decode
/// of the elements from index `i` on yields one value per token.
pub proof fn lemma_decode_one_value_per_token(ts: Seq<TokenV>, i: int)
    requires
        0 <= i <= ts.len(),
        decode_seq_spec(ts, i) is Ok,
    ensures
        (decode_seq_spec(ts, i)->Ok_0).len() == ts.len() - i,
    decreases ts.len() - i,
{
    if i < ts.len() {
        lemma_decode_one_value_per_token(ts, i + 1);
    }
}

/// A failing element anywhere fails the whole decode, and the only way
/// a decode fails is `IntegerOverflow`.
pub proof fn lemma_decode_err_propagates(ts: Seq<TokenV>, j: int, i: int)
    requires
        0 <= j <= i < ts.len(),
        decode_token_spec(ts[i]) is Err,
    ensures
        decode_seq_spec(ts, j) == Err::<Seq<DynVal>, DecodeError>(DecodeError::IntegerOverflow),
    decreases i - j,
{
    let e = decode_token_spec(ts[i])->Err_0;
    assert(e == DecodeError::IntegerOverflow);
    if j < i {
        match decode_token_spec(ts[j]) {
            Err(e2) => {
                assert(e2 == DecodeError::IntegerOverflow);
            },
            Ok(_) => {
                lemma_decode_err_propagates(ts, j + 1, i);
            },
        }
    }
}

/// An unsigned integer token whose value exceeds the host's native
/// width fails the whole decode with `IntegerOverflow`: it is never
/// silently truncated into a result.
pub proof fn lemma_oversized_uint_fails(ts: Seq<TokenV>, i: int)
    requires
        0 <= i < ts.len(),
        ts[i] matches TokenV::Uint(n) && n > i64::MAX as int,
    ensures
        decode_seq_spec(ts, 0) == Err::<Seq<DynVal>, DecodeError>(DecodeError::IntegerOverflow),
{
    lemma_decode_err_propagates(ts, 0, i);
}

/// Narrow an unsigned 256-bit word to the host width.
fn narrow_uint(low: u128, high: u128) -> (r: Result<i64, DecodeError>)
    ensures
        match r {
            Ok(n) => decode_token_spec(TokenV::Uint(u256_val(crate::types::Uint256 { low, high })))
                == Ok::<DynVal, DecodeError>(DynVal::Int(n as int)),
            Err(e) => decode_token_spec(
                TokenV::Uint(u256_val(crate::types::Uint256 { low, high })),
            ) == Err::<DynVal, DecodeError>(e),
        },
{
    if high == 0 && low <= i64::MAX as u128 {
        Ok(low as i64)
    } else {
        Err(DecodeError::IntegerOverflow)
    }
}

/// Narrow a signed (two's-complement) 256-bit word to the host width.
fn narrow_int(low: u128, high: u128) -> (r: Result<i64, DecodeError>)
    ensures
        match r {
            Ok(n) => decode_token_spec(TokenV::Int(u256_val(crate::types::Uint256 { low, high })))
                == Ok::<DynVal, DecodeError>(DynVal::Int(n as int)),
            Err(e) => decode_token_spec(TokenV::Int(u256_val(crate::types::Uint256 { low, high })))
                == Err::<DynVal, DecodeError>(e),
        },
{
    if high < 0x80000000000000000000000000000000u128 {
        // Non-negative word.
        if high == 0 && low <= i64::MAX as u128 {
            Ok(low as i64)
        } else {
            Err(DecodeError::IntegerOverflow)
        }
    } else {
        // Negative word: its value is the raw word minus 2^256.
        if high == u128::MAX && low >= 0xffffffffffffffff8000000000000000u128 {
            let m: u128 = (u128::MAX - low) + 1;
            if m == 0x8000000000000000u128 {
                Ok(i64::MIN)
            } else {
                Ok(-(m as i64))
            }
        } else {
            Err(DecodeError::IntegerOverflow)
        }
    }
}

/// Decode one token into one dynamic value.
pub fn decode_token(t: &Token) -> (r: Result<DynValue, DecodeError>)
    ensures
        match r {
            Ok(v) => decode_token_spec(token_view(*t)) == Ok::<DynVal, DecodeError>(dyn_view(v)),
            Err(e) => decode_token_spec(token_view(*t)) == Err::<DynVal, DecodeError>(e),
        },
    decreases *t,
{
    match t {
        Token::Uint(w) => {
            match narrow_uint(w.low, w.high) {
                Ok(n) => Ok(DynValue::Int(n)),
                Err(e) => Err(e),
            }
        },
        Token::Int(w) => {
            match narrow_int(w.low, w.high) {
                Ok(n) => Ok(DynValue::Int(n)),
                Err(e) => Err(e),
            }
        },
        Token::Bool(b) => Ok(DynValue::Bool(*b)),
        Token::Str(s) => Ok(DynValue::Text(s.clone())),
        Token::Bytes(b) => Ok(DynValue::Bytes(copy_bytes(b))),
        Token::FixedBytes(b) => Ok(DynValue::Bytes(copy_bytes(b))),
        Token::Address(b) => Ok(DynValue::Text(render_address(b))),
        Token::Array(items) => {
            match decode_list(items) {
                Ok(vs) => Ok(DynValue::List(vs)),
                Err(e) => Err(e),
            }
        },
        Token::FixedArray(items) => {
            match decode_list(items) {
                Ok(vs) => Ok(DynValue::List(vs)),
                Err(e) => Err(e),
            }
        },
    }
}

/// Decode each element of `tokens` in order; any failure aborts the
/// whole decode.
pub(crate) fn decode_list(tokens: &Vec<Token>) -> (r: Result<Vec<DynValue>, DecodeError>)
    ensures
        match r {
            Ok(vs) => decode_seq_spec(token_seq_view(tokens@, 0), 0) == Ok::<
                Seq<DynVal>,
                DecodeError,
            >(dyn_seq_view(vs@, 0)),
            Err(e) => decode_seq_spec(token_seq_view(tokens@, 0), 0) == Err::<
                Seq<DynVal>,
                DecodeError,
            >(e),
        },
    decreases tokens@,
{
    let ghost l = token_seq_view(tokens@, 0);
    proof {
        lemma_token_seq_view(tokens@, 0);
    }
    let mut out: Vec<DynValue> = Vec::new();
    let mut i: usize = 0;
    while i < tokens.len()
        invariant
            0 <= i <= tokens@.len(),
            l == token_seq_view(tokens@, 0),
            l.len() == tokens@.len(),
            forall|k: int| 0 <= k < l.len() ==> l[k] == token_view(tokens@[k]),
            out@.len() == i,
            forall|k: int| 0 <= k < i ==> decode_token_spec(#[trigger] l[k]) is Ok,
            forall|k: int|
                0 <= k < i ==> dyn_view(#[trigger] out@[k]) == decode_token_spec(l[k])->Ok_0,
        decreases tokens@.len() - i,
    {
        match decode_token(&tokens[i]) {
            Ok(v) => {
                out.push(v);
            },
            Err(e) => {
                proof {
                    lemma_decode_seq_split(l, i as int);
                    assert(decode_seq_spec(l, i as int) == Err::<Seq<DynVal>, DecodeError>(e));
                }
                return Err(e);
            },
        }
        i = i + 1;
    }
    proof {
        lemma_decode_seq_split(l, l.len() as int);
        lemma_dyn_seq_view(out@, 0);
        assert(decode_seq_spec(l, l.len() as int) == Ok::<Seq<DynVal>, DecodeError>(Seq::empty()));
        assert(Seq::new(l.len(), |k: int| decode_token_spec(l[k])->Ok_0) + Seq::empty()
            =~= dyn_seq_view(out@, 0));
    }
    Ok(out)
}

/// Decode an ordered token list, typically a call's results, into the
/// dynamic values the host consumes. Decoding fails fast and atomically:
/// a failure on any element fails the whole list.
pub fn decode(tokens: &Vec<Token>) -> (r: Result<Vec<DynValue>, DecodeError>)
    ensures
        match r {
            Ok(vs) => decode_seq_spec(token_seq_view(tokens@, 0), 0) == Ok::<
                Seq<DynVal>,
                DecodeError,
            >(dyn_seq_view(vs@, 0)),
            Err(e) => decode_seq_spec(token_seq_view(tokens@, 0), 0) == Err::<
                Seq<DynVal>,
                DecodeError,
            >(e),
        },
{
    decode_list(tokens)
}

} // verus!
