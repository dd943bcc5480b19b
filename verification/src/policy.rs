//! An explicit, named encoding policy: dropping boolean tokens.
//!
//! Some hosts expect boolean parameters to be absent from the outgoing
//! token list. `encode_dropping_booleans` makes that an explicit choice
//! with an exact meaning, instead of a side effect of encoding: it
//! encodes like `encode` and then removes every boolean token, at every
//! nesting level, keeping all other tokens in order.

use vstd::prelude::*;

use crate::encode::{encode_list, encode_seq_spec};
use crate::types::{
    copy_bytes, dyn_seq_view, lemma_token_seq_view, token_seq_view, token_view, DynValue,
    EncodeError, EncodeErrorKind, Token, TokenV,
};

verus! {

/// What the policy does to one token: a boolean disappears, an array is
/// filtered recursively, anything else stays as it is.
pub open spec fn strip_token_spec(t: TokenV) -> Option<TokenV>
    decreases t,
{
    match t {
        TokenV::Bool(_) => None,
        TokenV::Array(ts) => Some(TokenV::Array(strip_seq_spec(ts, 0))),
        TokenV::FixedArray(ts) => Some(TokenV::FixedArray(strip_seq_spec(ts, 0))),
        _ => Some(t),
    }
}

/// The policy applied to the elements of `ts` from index `i` on: the
/// surviving tokens, in their original order.
pub open spec fn strip_seq_spec(ts: Seq<TokenV>, i: int) -> Seq<TokenV>
    decreases ts, ts.len() - i,
{
    if i < 0 || i >= ts.len() {
        Seq::empty()
    } else {
        match strip_token_spec(ts[i]) {
            None => strip_seq_spec(ts, i + 1),
            Some(t) => seq![t] + strip_seq_spec(ts, i + 1),
        }
    }
}

/// Apply the policy to one token.
fn strip_token(t: &Token) -> (r: Option<Token>)
    ensures
        match r {
            Some(t2) => strip_token_spec(token_view(*t)) == Some(token_view(t2)),
            None => strip_token_spec(token_view(*t)) is None,
        },
    decreases *t,
{
    match t {
        Token::Bool(_) => None,
        Token::Uint(w) => Some(Token::Uint(*w)),
        Token::Int(w) => Some(Token::Int(*w)),
        Token::FixedBytes(b) => Some(Token::FixedBytes(copy_bytes(b))),
        Token::Bytes(b) => Some(Token::Bytes(copy_bytes(b))),
        Token::Address(b) => Some(Token::Address(copy_bytes(b))),
        Token::Str(s) => Some(Token::Str(s.clone())),
        Token::Array(items) => Some(Token::Array(strip_list(items))),
        Token::FixedArray(items) => Some(Token::FixedArray(strip_list(items))),
    }
}

/// Apply the policy to each element of `tokens`.
fn strip_list(tokens: &Vec<Token>) -> (r: Vec<Token>)
    ensures
        token_seq_view(r@, 0) == strip_seq_spec(token_seq_view(tokens@, 0), 0),
    decreases tokens@,
{
    let ghost l = token_seq_view(tokens@, 0);
    proof {
        lemma_token_seq_view(tokens@, 0);
    }
    let mut out: Vec<Token> = Vec::new();
    let mut i: usize = 0;
    while i < tokens.len()
        invariant
            0 <= i <= tokens@.len(),
            l == token_seq_view(tokens@, 0),
            l.len() == tokens@.len(),
            forall|k: int| 0 <= k < l.len() ==> l[k] == token_view(tokens@[k]),
            token_seq_view(out@, 0) + strip_seq_spec(l, i as int) =~= strip_seq_spec(l, 0),
        decreases tokens@.len() - i,
    {
        let ghost old_out = out@;
        match strip_token(&tokens[i]) {
            Some(t) => {
                out.push(t);
                proof {
                    lemma_token_seq_view(old_out.push(t), 0);
                    lemma_token_seq_view(old_out, 0);
                    assert(token_seq_view(out@, 0) =~= token_seq_view(old_out, 0) + seq![
                        token_view(t),
                    ]);
                }
            },
            None => {},
        }
        i = i + 1;
    }
    proof {
        assert(strip_seq_spec(l, l.len() as int) =~= Seq::<TokenV>::empty());
        assert(token_seq_view(out@, 0) =~= token_seq_view(out@, 0) + strip_seq_spec(
            l,
            l.len() as int,
        ));
    }
    out
}

/// Encode `values` exactly as `encode` does, then remove every boolean
/// token from the result, at every nesting level, keeping all other
/// tokens in their order. Errors are those of `encode`.
pub fn encode_dropping_booleans(values: &Vec<DynValue>) -> (r: Result<Vec<Token>, EncodeError>)
    ensures
        match r {
            Ok(ts) => encode_seq_spec(dyn_seq_view(values@, 0), 0) is Ok && token_seq_view(ts@, 0)
                == strip_seq_spec(encode_seq_spec(dyn_seq_view(values@, 0), 0)->Ok_0, 0),
            Err(e) => encode_seq_spec(dyn_seq_view(values@, 0), 0) == Err::<
                Seq<TokenV>,
                (EncodeErrorKind, int),
            >((e.kind, e.position as int)),
        },
{
    match encode_list(values) {
        Ok(ts) => Ok(strip_list(&ts)),
        Err((k, p)) => Err(EncodeError { kind: k, position: p }),
    }
}

} // verus!
