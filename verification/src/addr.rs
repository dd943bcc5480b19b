//! Address strings: parsing `0x`-prefixed hex into the 20-byte identifier
//! and rendering it back as lowercase hex.

use vstd::prelude::*;
use vstd::string::StrSliceExecFns;
use vstd::string::StringExecFns;

verus! {

/// `c` is an ASCII hex digit.
pub open spec fn is_hex_digit(c: char) -> bool {
    (48 <= c as u32 && c as u32 <= 57) || (97 <= c as u32 && c as u32 <= 102) || (65 <= c as u32
        && c as u32 <= 70)
}

/// The numeric value of a hex digit.
pub open spec fn hex_digit_val(c: char) -> int
    recommends
        is_hex_digit(c),
{
    if 48 <= c as u32 && c as u32 <= 57 {
        c as u32 - 48
    } else if 97 <= c as u32 && c as u32 <= 102 {
        c as u32 - 87
    } else {
        c as u32 - 55
    }
}

/// The lowercase hex digit with value `n`.
pub open spec fn hex_char_of(n: int) -> char
    recommends
        0 <= n < 16,
{
    if 0 <= n < 10 {
        ((48 + n) as u8) as char
    } else if 10 <= n < 16 {
        ((87 + n) as u8) as char
    } else {
        '0'
    }
}

/// `s` begins with the address prefix `0x`.
pub open spec fn has_addr_prefix(s: Seq<char>) -> bool {
    s.len() >= 2 && s[0] == '0' && s[1] == 'x'
}

/// `s` is a well-formed address string: `0x` followed by exactly 40 hex
/// digits.
pub open spec fn is_addr_string(s: Seq<char>) -> bool {
    &&& s.len() == 42
    &&& s[0] == '0'
    &&& s[1] == 'x'
    &&& forall|i: int| 2 <= i < 42 ==> is_hex_digit(#[trigger] s[i])
}

/// The 20 bytes denoted by a well-formed address string.
pub open spec fn addr_bytes(s: Seq<char>) -> Seq<u8>
    recommends
        is_addr_string(s),
{
    Seq::new(20, |i: int| (hex_digit_val(s[2 + 2 * i]) * 16 + hex_digit_val(s[3 + 2 * i])) as u8)
}

/// The canonical rendering of address bytes: `0x` followed by two
/// lowercase hex digits per byte.
pub open spec fn addr_display(b: Seq<u8>) -> Seq<char> {
    seq!['0', 'x'] + Seq::new(
        (2 * b.len()) as nat,
        |i: int|
            if i % 2 == 0 {
                hex_char_of((b[i / 2] as int) / 16)
            } else {
                hex_char_of((b[i / 2] as int) % 16)
            },
    )
}

/// Uppercase hex digits lowered; every other character unchanged.
pub open spec fn lower_hex_char(c: char) -> char {
    if 65 <= c as u32 && c as u32 <= 70 {
        ((c as u32 + 32) as u8) as char
    } else {
        c
    }
}

/// `s` with its uppercase hex digits lowered.
pub open spec fn lower_addr(s: Seq<char>) -> Seq<char> {
    Seq::new(s.len(), |i: int| lower_hex_char(s[i]))
}

/// Reading back the digit written for `n` yields `n`, and that digit is
/// already lowercase.
pub proof fn lemma_hex_char_of_val(n: int)
    requires
        0 <= n < 16,
    ensures
        is_hex_digit(hex_char_of(n)),
        hex_digit_val(hex_char_of(n)) == n,
        lower_hex_char(hex_char_of(n)) == hex_char_of(n),
{
}

/// Writing the value of a hex digit yields that digit, lowercased.
pub proof fn lemma_hex_val_char(c: char)
    requires
        is_hex_digit(c),
    ensures
        0 <= hex_digit_val(c) < 16,
        hex_char_of(hex_digit_val(c)) == lower_hex_char(c),
{
}

/// Rendering 20 bytes yields a well-formed address string that parses
/// back to the same bytes.
pub proof fn lemma_addr_bytes_round_trip(b: Seq<u8>)
    requires
        b.len() == 20,
    ensures
        is_addr_string(addr_display(b)),
        addr_bytes(addr_display(b)) == b,
{
    let s = addr_display(b);
    assert forall|i: int| 2 <= i < 42 implies is_hex_digit(#[trigger] s[i]) by {
        let j = i - 2;
        if j % 2 == 0 {
            lemma_hex_char_of_val((b[j / 2] as int) / 16);
        } else {
            lemma_hex_char_of_val((b[j / 2] as int) % 16);
        }
    }
    assert forall|i: int| 0 <= i < 20 implies addr_bytes(s)[i] == b[i] by {
        let v = b[i] as int;
        assert(s[2 + 2 * i] == hex_char_of(v / 16));
        assert(s[3 + 2 * i] == hex_char_of(v % 16));
        lemma_hex_char_of_val(v / 16);
        lemma_hex_char_of_val(v % 16);
        assert((v / 16) * 16 + v % 16 == v) by (nonlinear_arith)
            requires
                0 <= v < 256,
        ;
    }
    assert(addr_bytes(s) =~= b);
}

/// Parsing a well-formed address string and rendering the bytes again
/// yields the same string with its hex digits lowercased.
pub proof fn lemma_addr_string_round_trip(s: Seq<char>)
    requires
        is_addr_string(s),
    ensures
        addr_display(addr_bytes(s)) == lower_addr(s),
{
    let b = addr_bytes(s);
    let r = addr_display(b);
    assert forall|i: int| 0 <= i < 42 implies r[i] == lower_addr(s)[i] by {
        if i == 0 {
            assert(lower_hex_char('0') == '0');
        } else if i == 1 {
            assert(lower_hex_char('x') == 'x');
        } else {
            let j = i - 2;
            let hi = hex_digit_val(s[2 + 2 * (j / 2)]);
            let lo = hex_digit_val(s[3 + 2 * (j / 2)]);
            lemma_hex_val_char(s[2 + 2 * (j / 2)]);
            lemma_hex_val_char(s[3 + 2 * (j / 2)]);
            assert(b[j / 2] as int == hi * 16 + lo);
            assert((hi * 16 + lo) / 16 == hi && (hi * 16 + lo) % 16 == lo) by (nonlinear_arith)
                requires
                    0 <= hi < 16,
                    0 <= lo < 16,
            ;
            if j % 2 == 0 {
                assert(2 + 2 * (j / 2) == i);
            } else {
                assert(3 + 2 * (j / 2) == i);
            }
        }
    }
    assert(r =~= lower_addr(s));
}

/// The value of `c` as a hex digit, or `None` where it is not one.
pub fn hex_val(c: char) -> (r: Option<u8>)
    ensures
        r is Some <==> is_hex_digit(c),
        r is Some ==> r->0 as int == hex_digit_val(c),
{
    let v = c as u32;
    if 48 <= v && v <= 57 {
        Some((v - 48) as u8)
    } else if 97 <= v && v <= 102 {
        Some((v - 87) as u8)
    } else if 65 <= v && v <= 70 {
        Some((v - 55) as u8)
    } else {
        None
    }
}

/// Parse an address string into its 20 bytes; `None` exactly where the
/// string is not a well-formed address string.
pub fn parse_address(s: &str) -> (r: Option<Vec<u8>>)
    ensures
        r is Some <==> is_addr_string(s@),
        r is Some ==> r->0@ == addr_bytes(s@),
{
    let n = s.unicode_len();
    if n != 42 {
        return None;
    }
    if s.get_char(0) != '0' || s.get_char(1) != 'x' {
        return None;
    }
    let mut out: Vec<u8> = Vec::new();
    let mut k: usize = 0;
    while k < 20
        invariant
            s@.len() == 42,
            s@[0] == '0',
            s@[1] == 'x',
            0 <= k <= 20,
            out@.len() == k,
            forall|j: int| 2 <= j < 2 + 2 * k ==> is_hex_digit(#[trigger] s@[j]),
            forall|j: int|
                0 <= j < k ==> #[trigger] out@[j] as int == hex_digit_val(s@[2 + 2 * j]) * 16
                    + hex_digit_val(s@[3 + 2 * j]),
        decreases 20 - k,
    {
        let c1 = s.get_char(2 + 2 * k);
        let c2 = s.get_char(3 + 2 * k);
        let v1 = match hex_val(c1) {
            Some(v) => v,
            None => {
                return None;
            },
        };
        let v2 = match hex_val(c2) {
            Some(v) => v,
            None => {
                return None;
            },
        };
        out.push(v1 * 16 + v2);
        k = k + 1;
    }
    proof {
        assert(out@ =~= addr_bytes(s@));
    }
    Some(out)
}

/// The lowercase hex digit with value `n`, as a one-character string.
fn hex_digit_str(n: u8) -> (r: &'static str)
    requires
        n < 16,
    ensures
        r@ =~= seq![hex_char_of(n as int)],
{
    proof {
        reveal_strlit("0");
        reveal_strlit("1");
        reveal_strlit("2");
        reveal_strlit("3");
        reveal_strlit("4");
        reveal_strlit("5");
        reveal_strlit("6");
        reveal_strlit("7");
        reveal_strlit("8");
        reveal_strlit("9");
        reveal_strlit("a");
        reveal_strlit("b");
        reveal_strlit("c");
        reveal_strlit("d");
        reveal_strlit("e");
        reveal_strlit("f");
    }
    match n {
        0 => "0",
        1 => "1",
        2 => "2",
        3 => "3",
        4 => "4",
        5 => "5",
        6 => "6",
        7 => "7",
        8 => "8",
        9 => "9",
        10 => "a",
        11 => "b",
        12 => "c",
        13 => "d",
        14 => "e",
        _ => "f",
    }
}

/// Render bytes as a `0x`-prefixed lowercase hex string.
pub fn render_address(b: &Vec<u8>) -> (r: String)
    ensures
        r@ == addr_display(b@),
{
    let mut out = String::from_str("0x");
    proof {
        reveal_strlit("0x");
        assert(out@ =~= seq!['0', 'x']);
    }
    let mut i: usize = 0;
    while i < b.len()
        invariant
            0 <= i <= b@.len(),
            out@ =~= addr_display(b@).take(2 + 2 * i),
        decreases b@.len() - i,
    {
        let hi = b[i] / 16;
        let lo = b[i] % 16;
        out.append(hex_digit_str(hi));
        out.append(hex_digit_str(lo));
        proof {
            let d = addr_display(b@);
            assert(d[2 + 2 * i] == hex_char_of(hi as int));
            assert(d[2 + 2 * i + 1] == hex_char_of(lo as int));
            assert(out@ =~= d.take(2 + 2 * (i + 1)));
        }
        i = i + 1;
    }
    proof {
        assert(addr_display(b@).take(2 + 2 * b@.len() as int) =~= addr_display(b@));
    }
    out
}

} // verus!
