//! Round-trip laws: what decoding gives back after a successful encode.

use vstd::prelude::*;

use crate::addr::{
    has_addr_prefix, is_addr_string, lemma_addr_string_round_trip, lower_addr,
};
use crate::decode::{decode_seq_spec, decode_token_spec, lemma_decode_seq_shift};
use crate::encode::{encode_seq_spec, encode_value_spec};
use crate::types::{
    dyn_seq_view, dyn_view, lemma_dyn_seq_view, DecodeError, DynVal, DynValue, TokenV,
};

verus! {

/// A dynamic value that the host can actually represent: every integer
/// in it fits the host's native signed width.
pub open spec fn dyn_wf(v: DynVal) -> bool
    decreases v,
{
    match v {
        DynVal::Int(n) => i64::MIN as int <= n <= i64::MAX as int,
        DynVal::List(l) => dyn_seq_wf(l, 0),
        _ => true,
    }
}

/// Well-formedness of the elements of `l` from index `i` on.
pub open spec fn dyn_seq_wf(l: Seq<DynVal>, i: int) -> bool
    decreases l, l.len() - i,
{
    if i < 0 || i >= l.len() {
        true
    } else {
        dyn_wf(l[i]) && dyn_seq_wf(l, i + 1)
    }
}

/// Every value the host actually hands in is well formed in the model:
/// its integers are host integers.
pub proof fn lemma_dyn_view_wf(v: DynValue)
    ensures
        dyn_wf(dyn_view(v)),
    decreases v,
{
    match v {
        DynValue::List(items) => {
            lemma_dyn_seq_view(items@, 0);
            assert forall|k: int| 0 <= k < dyn_seq_view(items@, 0).len() implies dyn_wf(
                #[trigger] dyn_seq_view(items@, 0)[k],
            ) by {
                lemma_dyn_view_wf(items@[k]);
            }
            lemma_dyn_seq_wf(dyn_seq_view(items@, 0), 0);
        },
        _ => {},
    }
}

/// What survives a round trip unchanged and what is canonicalised:
/// address-shaped strings come back lowercased; everything else comes
/// back as it went in, element for element, shape for shape.
pub open spec fn normalize_value(v: DynVal) -> DynVal
    decreases v,
{
    match v {
        DynVal::Text(s) => if has_addr_prefix(s) {
            DynVal::Text(lower_addr(s))
        } else {
            DynVal::Text(s)
        },
        DynVal::List(l) => DynVal::List(normalize_seq(l, 0)),
        _ => v,
    }
}

/// Normalisation of the elements of `l` from index `i` on.
pub open spec fn normalize_seq(l: Seq<DynVal>, i: int) -> Seq<DynVal>
    decreases l, l.len() - i,
{
    if i < 0 || i >= l.len() {
        Seq::empty()
    } else {
        seq![normalize_value(l[i])] + normalize_seq(l, i + 1)
    }
}

/// Normalisation keeps length and maps element-wise.
pub proof fn lemma_normalize_seq(l: Seq<DynVal>, i: int)
    requires
        0 <= i <= l.len(),
    ensures
        normalize_seq(l, i).len() == l.len() - i,
        forall|k: int|
            0 <= k < l.len() - i ==> normalize_seq(l, i)[k] == normalize_value(l[i + k]),
    decreases l.len() - i,
{
    if i < l.len() {
        lemma_normalize_seq(l, i + 1);
    }
}

/// Well-formedness of a sequence holds element-wise.
pub proof fn lemma_dyn_seq_wf(l: Seq<DynVal>, i: int)
    requires
        0 <= i <= l.len(),
    ensures
        dyn_seq_wf(l, i) <==> (forall|k: int| i <= k < l.len() ==> dyn_wf(#[trigger] l[k])),
    decreases l.len() - i,
{
    if i < l.len() {
        lemma_dyn_seq_wf(l, i + 1);
    }
}

/// Round trip of one well-formed value: decoding the token it encodes
/// to succeeds and gives the value back, normalised.
pub proof fn lemma_round_trip_value(v: DynVal)
    requires
        dyn_wf(v),
        encode_value_spec(v) is Ok,
    ensures
        decode_token_spec(encode_value_spec(v)->Ok_0) == Ok::<DynVal, DecodeError>(
            normalize_value(v),
        ),
    decreases v,
{
    match v {
        DynVal::Text(s) => {
            if has_addr_prefix(s) {
                lemma_addr_string_round_trip(s);
            }
        },
        DynVal::Int(_) => {},
        DynVal::Bool(_) => {},
        DynVal::List(l) => {
            lemma_round_trip_seq(l, 0);
        },
        DynVal::FloatBits(_) => {},
        DynVal::Bytes(_) => {},
    }
}

/// Round trip of a sequence suffix: decoding the tokens of `l[i..]`
/// succeeds and gives the normalised elements back, in order.
pub proof fn lemma_round_trip_seq(l: Seq<DynVal>, i: int)
    requires
        0 <= i <= l.len(),
        dyn_seq_wf(l, i),
        encode_seq_spec(l, i) is Ok,
    ensures
        decode_seq_spec(encode_seq_spec(l, i)->Ok_0, 0) == Ok::<Seq<DynVal>, DecodeError>(
            normalize_seq(l, i),
        ),
    decreases l, l.len() - i,
{
    if i >= l.len() {
        assert(encode_seq_spec(l, i)->Ok_0 =~= Seq::<TokenV>::empty());
        assert(normalize_seq(l, i) =~= Seq::<DynVal>::empty());
    } else {
        let t = encode_value_spec(l[i])->Ok_0;
        let rest = encode_seq_spec(l, i + 1)->Ok_0;
        let ts = encode_seq_spec(l, i)->Ok_0;
        assert(ts == seq![t] + rest);
        lemma_round_trip_value(l[i]);
        lemma_round_trip_seq(l, i + 1);
        assert(ts[0] == t);
        assert(ts.skip(1) =~= rest.skip(0));
        lemma_decode_seq_shift(ts, 1, rest, 0);
        assert(decode_seq_spec(ts, 0) == Ok::<Seq<DynVal>, DecodeError>(
            seq![normalize_value(l[i])] + normalize_seq(l, i + 1),
        ));
    }
}

/// The round-trip law. For every well-formed sequence of dynamic values
/// that encodes successfully, decoding the encoded token list succeeds
/// and returns the input, element for element and in order, with the
/// same nesting shape and element count: only address-shaped strings
/// change, coming back lowercased.
pub proof fn lemma_encode_decode(vs: Seq<DynVal>)
    requires
        dyn_seq_wf(vs, 0),
        encode_seq_spec(vs, 0) is Ok,
    ensures
        decode_seq_spec(encode_seq_spec(vs, 0)->Ok_0, 0) == Ok::<Seq<DynVal>, DecodeError>(
            normalize_seq(vs, 0),
        ),
        normalize_seq(vs, 0).len() == vs.len(),
{
    lemma_round_trip_seq(vs, 0);
    lemma_normalize_seq(vs, 0);
}

/// Round trip of a single string that is not address-prefixed: it comes
/// back exactly as it went in.
pub proof fn lemma_string_round_trip(s: Seq<char>)
    requires
        !has_addr_prefix(s),
    ensures
        encode_seq_spec(seq![DynVal::Text(s)], 0) is Ok,
        decode_seq_spec(encode_seq_spec(seq![DynVal::Text(s)], 0)->Ok_0, 0) == Ok::<
            Seq<DynVal>,
            DecodeError,
        >(seq![DynVal::Text(s)]),
{
    let vs = seq![DynVal::Text(s)];
    reveal_with_fuel(dyn_seq_wf, 3);
    reveal_with_fuel(encode_seq_spec, 3);
    lemma_encode_decode(vs);
    lemma_normalize_seq(vs, 0);
    assert(normalize_seq(vs, 0) =~= seq![DynVal::Text(s)]);
}

/// Round trip of a single address-shaped string: it comes back as the
/// same address, lowercased.
pub proof fn lemma_address_round_trip(s: Seq<char>)
    requires
        is_addr_string(s),
    ensures
        encode_seq_spec(seq![DynVal::Text(s)], 0) is Ok,
        decode_seq_spec(encode_seq_spec(seq![DynVal::Text(s)], 0)->Ok_0, 0) == Ok::<
            Seq<DynVal>,
            DecodeError,
        >(seq![DynVal::Text(lower_addr(s))]),
{
    let vs = seq![DynVal::Text(s)];
    reveal_with_fuel(dyn_seq_wf, 3);
    reveal_with_fuel(encode_seq_spec, 3);
    lemma_encode_decode(vs);
    lemma_normalize_seq(vs, 0);
    assert(normalize_seq(vs, 0) =~= seq![DynVal::Text(lower_addr(s))]);
}

/// Round trip of a single non-negative host integer: it comes back
/// unchanged.
pub proof fn lemma_int_round_trip(n: i64)
    requires
        n >= 0,
    ensures
        encode_seq_spec(seq![DynVal::Int(n as int)], 0) is Ok,
        decode_seq_spec(encode_seq_spec(seq![DynVal::Int(n as int)], 0)->Ok_0, 0) == Ok::<
            Seq<DynVal>,
            DecodeError,
        >(seq![DynVal::Int(n as int)]),
{
    let vs = seq![DynVal::Int(n as int)];
    reveal_with_fuel(dyn_seq_wf, 3);
    reveal_with_fuel(encode_seq_spec, 3);
    lemma_encode_decode(vs);
    lemma_normalize_seq(vs, 0);
    assert(normalize_seq(vs, 0) =~= seq![DynVal::Int(n as int)]);
}

} // verus!
