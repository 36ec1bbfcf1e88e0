//! Encoding of the latest-index value and the decimal rendering of indices.
//!
//! A checkpoint index is stored as a JSON integer, which on the wire is its
//! plain decimal digit string. `dec_chars` and `dec_bytes` give that digit
//! string mathematically, as characters (for object keys) and as bytes (for
//! the stored object); the wrappers at the bottom tie the JSON codec to
//! `dec_bytes`.

use vstd::prelude::*;

verus! {

/// The decimal digit character for `d` (meaningful for `0 <= d < 10`).
pub open spec fn digit_char(d: int) -> char
    recommends
        0 <= d < 10,
{
    if d == 0 {
        '0'
    } else if d == 1 {
        '1'
    } else if d == 2 {
        '2'
    } else if d == 3 {
        '3'
    } else if d == 4 {
        '4'
    } else if d == 5 {
        '5'
    } else if d == 6 {
        '6'
    } else if d == 7 {
        '7'
    } else if d == 8 {
        '8'
    } else {
        '9'
    }
}

/// The ASCII byte of the decimal digit `d` (meaningful for `0 <= d < 10`).
pub open spec fn digit_byte(d: int) -> u8
    recommends
        0 <= d < 10,
{
    (48 + d) as u8
}

/// The decimal digit characters of `n`, most significant first, with no
/// leading zeros (`0` is rendered as the single character `'0'`).
pub open spec fn dec_chars(n: nat) -> Seq<char>
    decreases n,
{
    if n < 10 {
        seq![digit_char(n as int)]
    } else {
        dec_chars(n / 10) + seq![digit_char((n % 10) as int)]
    }
}

/// The ASCII bytes of the decimal rendering of `n`, most significant first,
/// with no leading zeros.
pub open spec fn dec_bytes(n: nat) -> Seq<u8>
    decreases n,
{
    if n < 10 {
        seq![digit_byte(n as int)]
    } else {
        dec_bytes(n / 10) + seq![digit_byte((n % 10) as int)]
    }
}

/// A decimal rendering is never empty, and has at least two digits for
/// `n >= 10`.
pub proof fn lemma_dec_len(n: nat)
    ensures
        dec_chars(n).len() >= 1,
        dec_bytes(n).len() >= 1,
        n >= 10 ==> dec_bytes(n).len() >= 2,
    decreases n,
{
    if n >= 10 {
        lemma_dec_len(n / 10);
    }
}

/// Two numbers with the same decimal byte rendering are equal: the canonical
/// decimal form (no leading zeros) determines the number.
pub proof fn lemma_dec_bytes_injective(a: nat, b: nat)
    requires
        dec_bytes(a) == dec_bytes(b),
    ensures
        a == b,
    decreases a + b,
{
    lemma_dec_len(a);
    lemma_dec_len(b);
    if a < 10 && b < 10 {
        assert(dec_bytes(a) == seq![digit_byte(a as int)]);
        assert(dec_bytes(b) == seq![digit_byte(b as int)]);
        assert(seq![digit_byte(a as int)][0] == digit_byte(a as int));
        assert(seq![digit_byte(b as int)][0] == digit_byte(b as int));
    } else if a < 10 {
        lemma_dec_len(b / 10);
        assert(dec_bytes(b).len() >= 2);
    } else if b < 10 {
        lemma_dec_len(a / 10);
        assert(dec_bytes(a).len() >= 2);
    } else {
        let ta = dec_bytes(a / 10);
        let tb = dec_bytes(b / 10);
        let da = digit_byte((a % 10) as int);
        let db = digit_byte((b % 10) as int);
        assert(dec_bytes(a) == ta + seq![da]);
        assert(dec_bytes(b) == tb + seq![db]);
        assert(ta.len() + 1 == tb.len() + 1);
        assert((ta + seq![da])[ta.len() as int] == da);
        assert((tb + seq![db])[ta.len() as int] == db);
        assert(a % 10 == b % 10);
        assert((ta + seq![da]).subrange(0, ta.len() as int) =~= ta);
        assert((tb + seq![db]).subrange(0, tb.len() as int) =~= tb);
        assert(ta == tb);
        assert(a / 10 < a) by (nonlinear_arith)
            requires
                a >= 10,
        ;
        assert(b / 10 < b) by (nonlinear_arith)
            requires
                b >= 10,
        ;
        lemma_dec_bytes_injective(a / 10, b / 10);
        assert(a == 10 * (a / 10) + (a % 10)) by (nonlinear_arith);
        assert(b == 10 * (b / 10) + (b % 10)) by (nonlinear_arith);
    }
}

/// A decimal digit string holds digit characters only, never `'/'`.
pub proof fn lemma_dec_chars_no_slash(n: nat)
    ensures
        !dec_chars(n).contains('/'),
    decreases n,
{
    if n < 10 {
        assert(!dec_chars(n).contains('/')) by {
            if dec_chars(n).contains('/') {
                let k = choose|k: int| 0 <= k < dec_chars(n).len() && dec_chars(n)[k] == '/';
                assert(dec_chars(n) == seq![digit_char(n as int)]);
                assert(seq![digit_char(n as int)][0] == digit_char(n as int));
            }
        }
    } else {
        lemma_dec_chars_no_slash(n / 10);
        let t = dec_chars(n / 10);
        let d = seq![digit_char((n % 10) as int)];
        assert(!(t + d).contains('/')) by {
            if (t + d).contains('/') {
                let k = choose|k: int| 0 <= k < (t + d).len() && (t + d)[k] == '/';
                if k < t.len() {
                    assert((t + d)[k] == t[k]);
                    assert(t.contains('/'));
                } else {
                    assert((t + d)[k] == d[k - t.len()]);
                    assert(d[0] == digit_char((n % 10) as int));
                }
            }
        }
        assert(dec_chars(n) == t + d);
    }
}

/// The single-character string for digit `d`.
fn digit_str(d: u8) -> (r: &'static str)
    requires
        d < 10,
    ensures
        r@ == seq![digit_char(d as int)],
{
    let r: &'static str = if d == 0 {
        "0"
    } else if d == 1 {
        "1"
    } else if d == 2 {
        "2"
    } else if d == 3 {
        "3"
    } else if d == 4 {
        "4"
    } else if d == 5 {
        "5"
    } else if d == 6 {
        "6"
    } else if d == 7 {
        "7"
    } else if d == 8 {
        "8"
    } else {
        "9"
    };
    proof {
        reveal_strlit("0");
        reveal_strlit("1");
        reveal_strlit("2");
        reveal_strlit("3");
        reveal_strlit("4");
        reveal_strlit("5");
        reveal_strlit("6");
        reveal_strlit("7");
        reveal_strlit("8");
        reveal_strlit("9");
        assert(r@ =~= seq![digit_char(d as int)]);
    }
    r
}

/// Renders `n` as its decimal digit string, the same digits that the stored
/// JSON integer carries.
pub fn u32_to_decimal(n: u32) -> (s: String)
    ensures
        s@ == dec_chars(n as nat),
    decreases n,
{
    if n < 10 {
        let s = digit_str(n as u8).to_owned();
        s
    } else {
        assert(n / 10 < n) by (nonlinear_arith)
            requires
                n >= 10,
        ;
        let mut s = u32_to_decimal(n / 10);
        s.append(digit_str((n % 10) as u8));
        s
    }
}

/// Relies on `serde_json::to_vec`: a `u32` serializes as the bytes of its
/// plain decimal digit string, and serializing an integer cannot fail.
#[verifier::external_body]
pub(crate) fn encode_index(index: u32) -> (r: Vec<u8>)
    ensures
        r@ == dec_bytes(index as nat),
{
    serde_json::to_vec(&index).unwrap_or_default()
}

/// Relies on `serde_json::from_slice`: the bytes of a plain decimal digit
/// string (no leading zeros) parse back to exactly that number.
#[verifier::external_body]
pub(crate) fn decode_index(bytes: &Vec<u8>) -> (r: Option<u32>)
    ensures
        forall|v: u32| bytes@ == dec_bytes(v as nat) ==> r == Some(v),
{
    serde_json::from_slice(bytes.as_slice()).ok()
}

} // verus!
