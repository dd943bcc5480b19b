//! The two value domains of the marshaller and their mathematical models.

use vstd::prelude::*;

verus! {

/// A dynamically typed value as supplied or consumed by the host runtime.
/// Values may nest arbitrarily through `List`.
#[derive(Debug)]
pub enum DynValue {
    /// A host integer, in the host's native signed width.
    Int(i64),
    /// A host floating-point number, carried opaquely as its raw bit
    /// pattern. It has no token mapping: the encoder rejects it.
    FloatBits(u64),
    Bool(bool),
    Text(String),
    Bytes(Vec<u8>),
    /// An ordered sequence of nested values.
    List(Vec<DynValue>),
}

/// A 256-bit unsigned word, the ABI's standard integer width, as two
/// 128-bit halves. Its numeric value is `u256_val`.
#[derive(Debug, Clone, Copy, PartialEq, Eq, Structural)]
pub struct Uint256 {
    pub low: u128,
    pub high: u128,
}

/// The numeric value of a 256-bit word.
pub open spec fn u256_val(w: Uint256) -> int {
    w.low + w.high * 0x100000000000000000000000000000000
}

/// A strongly typed ABI token: the closed variant set that the transport
/// collaborator accepts and returns.
#[derive(Debug)]
pub enum Token {
    /// An unsigned 256-bit integer.
    Uint(Uint256),
    /// A signed 256-bit integer, carried as its raw two's-complement word.
    Int(Uint256),
    Bool(bool),
    /// A fixed-length byte sequence.
    FixedBytes(Vec<u8>),
    /// A variable-length byte sequence.
    Bytes(Vec<u8>),
    /// A fixed-width account identifier: 20 bytes when well formed.
    Address(Vec<u8>),
    Str(String),
    FixedArray(Vec<Token>),
    Array(Vec<Token>),
}

/// The mathematical model of a `DynValue`.
pub ghost enum DynVal {
    Int(int),
    FloatBits(u64),
    Bool(bool),
    Text(Seq<char>),
    Bytes(Seq<u8>),
    List(Seq<DynVal>),
}

/// The mathematical model of a `Token`. Integer tokens are modelled by
/// the numeric value of their 256-bit word.
pub ghost enum TokenV {
    Uint(int),
    Int(int),
    Bool(bool),
    FixedBytes(Seq<u8>),
    Bytes(Seq<u8>),
    Address(Seq<u8>),
    Str(Seq<char>),
    FixedArray(Seq<TokenV>),
    Array(Seq<TokenV>),
}

/// The model of a dynamic value.
pub open spec fn dyn_view(v: DynValue) -> DynVal
    decreases v,
{
    match v {
        DynValue::Int(n) => DynVal::Int(n as int),
        DynValue::FloatBits(b) => DynVal::FloatBits(b),
        DynValue::Bool(b) => DynVal::Bool(b),
        DynValue::Text(s) => DynVal::Text(s@),
        DynValue::Bytes(b) => DynVal::Bytes(b@),
        DynValue::List(items) => DynVal::List(dyn_seq_view(items@, 0)),
    }
}

/// The models of the elements of `s` from index `i` on.
pub open spec fn dyn_seq_view(s: Seq<DynValue>, i: int) -> Seq<DynVal>
    decreases s, s.len() - i,
{
    if i < 0 || i >= s.len() {
        Seq::empty()
    } else {
        seq![dyn_view(s[i])] + dyn_seq_view(s, i + 1)
    }
}

/// The model of a token.
pub open spec fn token_view(t: Token) -> TokenV
    decreases t,
{
    match t {
        Token::Uint(w) => TokenV::Uint(u256_val(w)),
        Token::Int(w) => TokenV::Int(u256_val(w)),
        Token::Bool(b) => TokenV::Bool(b),
        Token::FixedBytes(b) => TokenV::FixedBytes(b@),
        Token::Bytes(b) => TokenV::Bytes(b@),
        Token::Address(b) => TokenV::Address(b@),
        Token::Str(s) => TokenV::Str(s@),
        Token::FixedArray(items) => TokenV::FixedArray(token_seq_view(items@, 0)),
        Token::Array(items) => TokenV::Array(token_seq_view(items@, 0)),
    }
}

/// The models of the elements of `s` from index `i` on.
pub open spec fn token_seq_view(s: Seq<Token>, i: int) -> Seq<TokenV>
    decreases s, s.len() - i,
{
    if i < 0 || i >= s.len() {
        Seq::empty()
    } else {
        seq![token_view(s[i])] + token_seq_view(s, i + 1)
    }
}

/// A sequence view is the element-wise map of the value view.
pub proof fn lemma_dyn_seq_view(s: Seq<DynValue>, i: int)
    requires
        0 <= i <= s.len(),
    ensures
        dyn_seq_view(s, i).len() == s.len() - i,
        forall|k: int| 0 <= k < s.len() - i ==> dyn_seq_view(s, i)[k] == dyn_view(s[i + k]),
    decreases s.len() - i,
{
    if i < s.len() {
        lemma_dyn_seq_view(s, i + 1);
    }
}

/// A sequence view is the element-wise map of the token view.
pub proof fn lemma_token_seq_view(s: Seq<Token>, i: int)
    requires
        0 <= i <= s.len(),
    ensures
        token_seq_view(s, i).len() == s.len() - i,
        forall|k: int| 0 <= k < s.len() - i ==> token_seq_view(s, i)[k] == token_view(s[i + k]),
    decreases s.len() - i,
{
    if i < s.len() {
        lemma_token_seq_view(s, i + 1);
    }
}

/// A fresh copy of a byte vector.
pub fn copy_bytes(b: &Vec<u8>) -> (r: Vec<u8>)
    ensures
        r@ == b@,
{
    let mut out: Vec<u8> = Vec::new();
    let mut i: usize = 0;
    while i < b.len()
        invariant
            0 <= i <= b@.len(),
            out@ == b@.take(i as int),
        decreases b@.len() - i,
    {
        out.push(b[i]);
        proof {
            assert(out@ =~= b@.take(i + 1));
        }
        i = i + 1;
    }
    proof {
        assert(b@.take(b@.len() as int) =~= b@);
    }
    out
}

/// What can go wrong while classifying one dynamic value for encoding.
#[derive(Debug, Clone, Copy, PartialEq, Eq, Structural)]
pub enum EncodeErrorKind {
    /// A string with the address prefix whose remainder is not hex of the
    /// expected width.
    MalformedAddress,
    /// A negative integer, which the unsigned-only policy cannot encode.
    UnsupportedSignedValue,
    /// A dynamic value shape with no defined token mapping.
    UnsupportedValueType,
}

/// An encoding failure, carrying the index of the offending element in
/// the original top-level sequence.
#[derive(Debug, Clone, Copy, PartialEq, Eq, Structural)]
pub struct EncodeError {
    pub kind: EncodeErrorKind,
    pub position: usize,
}

/// What can go wrong while decoding a token list.
#[derive(Debug, Clone, Copy, PartialEq, Eq, Structural)]
pub enum DecodeError {
    /// An integer token whose value does not fit the host's native width.
    IntegerOverflow,
}

} // verus!
