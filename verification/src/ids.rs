use vstd::prelude::*;
use vstd::arithmetic::div_mod::{lemma_basic_div, lemma_div_denominator, lemma_fundamental_div_mod};
use crate::bytes::push_all;

verus! {

/// Powers of sixteen, the radix of the identifier's textual form.
pub open spec fn pow16(k: nat) -> int
    decreases k,
{
    if k == 0 {
        1
    } else {
        16 * pow16((k - 1) as nat)
    }
}

pub proof fn lemma_pow16_positive(k: nat)
    ensures
        pow16(k) >= 1,
    decreases k,
{
    if k > 0 {
        lemma_pow16_positive((k - 1) as nat);
    }
}

pub proof fn lemma_pow16_increases(j: nat, k: nat)
    requires
        j <= k,
    ensures
        pow16(j) <= pow16(k),
    decreases k,
{
    if j < k {
        lemma_pow16_increases(j, (k - 1) as nat);
        lemma_pow16_positive((k - 1) as nat);
    }
}

pub proof fn lemma_pow16_adds(a: nat, b: nat)
    ensures
        pow16(a + b) == pow16(a) * pow16(b),
    decreases a,
{
    if a == 0 {
    } else {
        lemma_pow16_adds((a - 1) as nat, b);
        assert(pow16(a + b) == 16 * pow16((a + b - 1) as nat));
        assert(16 * (pow16((a - 1) as nat) * pow16(b)) == (16 * pow16((a - 1) as nat)) * pow16(
            b,
        )) by (nonlinear_arith);
    }
}

/// Sixteen to the thirty-second is exactly the count of 128-bit values.
pub proof fn lemma_pow16_32()
    ensures
        pow16(32) == 0x100000000000000000000000000000000,
{
    reveal_with_fuel(pow16, 5);
    assert(pow16(4) == 0x10000);
    lemma_pow16_adds(4, 4);
    assert(pow16(8) == 0x100000000);
    lemma_pow16_adds(8, 8);
    assert(pow16(16) == 0x10000000000000000);
    lemma_pow16_adds(16, 16);
}

/// The numeric value of an ASCII hexadecimal digit, if it is one.
pub open spec fn hex_val(c: u8) -> Option<u8> {
    if 0x30 <= c <= 0x39 {
        Some((c - 0x30) as u8)
    } else if 0x61 <= c <= 0x66 {
        Some((c - 0x61 + 10) as u8)
    } else if 0x41 <= c <= 0x46 {
        Some((c - 0x41 + 10) as u8)
    } else {
        None
    }
}

/// The lower-case ASCII digit for a nibble value below sixteen.
pub open spec fn hex_char(v: u8) -> u8 {
    if v < 10 {
        (0x30 + v) as u8
    } else {
        (0x61 + v - 10) as u8
    }
}

pub fn hex_val_byte(c: u8) -> (r: Option<u8>)
    ensures
        r == hex_val(c),
{
    if 0x30 <= c && c <= 0x39 {
        Some(c - 0x30)
    } else if 0x61 <= c && c <= 0x66 {
        Some(c - 0x61 + 10)
    } else if 0x41 <= c && c <= 0x46 {
        Some(c - 0x41 + 10)
    } else {
        None
    }
}

pub fn hex_char_byte(v: u8) -> (r: u8)
    requires
        v < 16,
    ensures
        r == hex_char(v),
{
    if v < 10 {
        0x30 + v
    } else {
        0x61 + v - 10
    }
}

/// The canonical textual form is 36 bytes: 32 lower-case hexadecimal digits
/// with separators after digit positions 8, 12, 16 and 20. `hex_pos` maps a
/// position of the 36-byte form to its digit index.
pub open spec fn hex_pos(i: int) -> int {
    if i < 8 {
        i
    } else if i < 13 {
        i - 1
    } else if i < 18 {
        i - 2
    } else if i < 23 {
        i - 3
    } else {
        i - 4
    }
}

/// Digit `j` (most significant first, 0 <= j < 32) of the identifier.
pub open spec fn id_digit(id: u128, j: int) -> u8 {
    hex_char((((id as int) / pow16((31 - j) as nat)) % 16) as u8)
}

/// The canonical hyphenated 36-byte rendering of an identifier.
pub open spec fn render_id(id: u128) -> Seq<u8> {
    Seq::new(
        36,
        |i: int|
            if i == 8 || i == 13 || i == 18 || i == 23 {
                0x2d
            } else {
                id_digit(id, hex_pos(i))
            },
    )
}

/// Renders an event identifier in its canonical hyphenated form.
pub fn render_event_id(id: u128) -> (r: Vec<u8>)
    ensures
        r@ == render_id(id),
{
    // Digits, least significant first.
    let mut digits: Vec<u8> = Vec::new();
    let mut cur: u128 = id;
    let mut k: usize = 0;
    while k < 32
        invariant
            k <= 32,
            digits@.len() == k,
            cur as int == (id as int) / pow16(k as nat),
            forall|j: int|
                0 <= j < k ==> digits@[j] == hex_char(
                    (((id as int) / pow16(j as nat)) % 16) as u8,
                ),
        decreases 32 - k,
    {
        proof {
            lemma_pow16_positive(k as nat);
            lemma_div_denominator(id as int, pow16(k as nat), 16);
            assert(pow16(k as nat) * 16 == pow16((k + 1) as nat)) by {
                assert(pow16((k + 1) as nat) == 16 * pow16(k as nat));
            }
        }
        let d: u8 = (cur % 16) as u8;
        digits.push(hex_char_byte(d));
        cur = cur / 16;
        k += 1;
    }
    let mut out: Vec<u8> = Vec::new();
    let mut i: usize = 0;
    while i < 36
        invariant
            i <= 36,
            out@.len() == i,
            digits@.len() == 32,
            forall|j: int|
                0 <= j < 32 ==> digits@[j] == hex_char(
                    (((id as int) / pow16(j as nat)) % 16) as u8,
                ),
            forall|j: int| 0 <= j < i ==> out@[j] == render_id(id)[j],
        decreases 36 - i,
    {
        if i == 8 || i == 13 || i == 18 || i == 23 {
            out.push(0x2d);
        } else {
            let hp: usize = if i < 8 {
                i
            } else if i < 13 {
                i - 1
            } else if i < 18 {
                i - 2
            } else if i < 23 {
                i - 3
            } else {
                i - 4
            };
            out.push(digits[31 - hp]);
            proof {
                assert(out@[i as int] == id_digit(id, hex_pos(i as int)));
            }
        }
        i += 1;
    }
    proof {
        assert(out@ =~= render_id(id));
    }
    out
}

/// The value of the first `k` digits of a 32-digit hexadecimal sequence,
/// assuming every digit is valid.
pub open spec fn hex_prefix_val(h: Seq<u8>, k: int) -> int
    decreases k,
{
    if k <= 0 {
        0
    } else {
        16 * hex_prefix_val(h, k - 1) + hex_val(h[k - 1]).unwrap()
    }
}

pub proof fn lemma_hex_prefix_val_bound(h: Seq<u8>, k: int)
    requires
        0 <= k,
        forall|j: int| 0 <= j < k ==> hex_val(h[j]) is Some,
    ensures
        0 <= hex_prefix_val(h, k) < pow16(k as nat),
    decreases k,
{
    if k > 0 {
        lemma_hex_prefix_val_bound(h, k - 1);
    }
}

/// Parsing of a 32-digit hexadecimal sequence.
pub open spec fn parse_hex32(h: Seq<u8>) -> Option<u128> {
    if h.len() == 32 && (forall|j: int| 0 <= j < 32 ==> hex_val(h[j]) is Some) {
        Some(hex_prefix_val(h, 32) as u128)
    } else {
        None
    }
}

/// Maps a digit index (0 <= j < 32) to its position in the 36-byte
/// hyphenated form.
pub open spec fn digit_pos(j: int) -> int {
    if j < 8 {
        j
    } else if j < 12 {
        j + 1
    } else if j < 16 {
        j + 2
    } else if j < 20 {
        j + 3
    } else {
        j + 4
    }
}

/// The 32 digit bytes of a 36-byte hyphenated form.
pub open spec fn strip_hyphens(s: Seq<u8>) -> Seq<u8> {
    Seq::new(32, |j: int| s[digit_pos(j)])
}

/// An identifier in text: either the canonical 36-byte hyphenated form
/// (upper- or lower-case digits) or the bare 32-digit form.
pub open spec fn parse_id(s: Seq<u8>) -> Option<u128> {
    if s.len() == 36 && s[8] == 0x2d && s[13] == 0x2d && s[18] == 0x2d && s[23] == 0x2d {
        parse_hex32(strip_hyphens(s))
    } else if s.len() == 32 {
        parse_hex32(s)
    } else {
        None
    }
}

pub proof fn lemma_hex_char_val(x: u8)
    requires
        x < 16,
    ensures
        hex_val(hex_char(x)) == Some(x),
{
}

proof fn lemma_prefix_of_rendered_digits(v: u128, h: Seq<u8>, k: int)
    requires
        h.len() == 32,
        forall|j: int| 0 <= j < 32 ==> h[j] == id_digit(v, j),
        0 <= k <= 32,
    ensures
        hex_prefix_val(h, k) == (v as int) / pow16((32 - k) as nat),
    decreases k,
{
    lemma_pow16_32();
    if k == 0 {
        lemma_pow16_positive(32);
        lemma_basic_div(v as int, pow16(32));
    } else {
        lemma_prefix_of_rendered_digits(v, h, k - 1);
        let e = (32 - k) as nat;
        let w = (v as int) / pow16(e);
        lemma_pow16_positive(e);
        lemma_div_denominator(v as int, pow16(e), 16);
        assert(pow16(e) * 16 == pow16((e + 1) as nat)) by {
            assert(pow16((e + 1) as nat) == 16 * pow16(e));
        }
        assert((v as int) / pow16((33 - k) as nat) == w / 16);
        let x = ((w % 16) as u8);
        assert(h[k - 1] == hex_char(x));
        lemma_hex_char_val(x);
        lemma_fundamental_div_mod(w, 16);
    }
}

/// The codec is lossless: rendering an identifier in its canonical
/// hyphenated form and parsing the text back yields the same identifier.
pub proof fn lemma_id_round_trip(v: u128)
    ensures
        parse_id(render_id(v)) == Some(v),
{
    let s = render_id(v);
    let h = strip_hyphens(s);
    assert(s.len() == 36);
    assert(s[8] == 0x2d && s[13] == 0x2d && s[18] == 0x2d && s[23] == 0x2d);
    assert forall|j: int| 0 <= j < 32 implies h[j] == id_digit(v, j) by {
        assert(h[j] == s[digit_pos(j)]);
    }
    assert forall|j: int| 0 <= j < 32 implies hex_val(h[j]) is Some by {
        let x = ((((v as int) / pow16((31 - j) as nat)) % 16) as u8);
        lemma_pow16_positive((31 - j) as nat);
        assert(h[j] == hex_char(x));
        lemma_hex_char_val(x);
    }
    lemma_prefix_of_rendered_digits(v, h, 32);
    assert(pow16(0) == 1);
    assert(hex_prefix_val(h, 32) == v as int);
}

/// Parses exactly 32 hexadecimal digits into an identifier value.
fn parse_hex32_exec(h: &Vec<u8>) -> (r: Option<u128>)
    requires
        h@.len() == 32,
    ensures
        r == parse_hex32(h@),
{
    let mut val: u128 = 0;
    let mut k: usize = 0;
    while k < 32
        invariant
            k <= 32,
            h@.len() == 32,
            forall|j: int| 0 <= j < k ==> hex_val(h@[j]) is Some,
            val as int == hex_prefix_val(h@, k as int),
        decreases 32 - k,
    {
        match hex_val_byte(h[k]) {
            Some(d) => {
                proof {
                    lemma_hex_prefix_val_bound(h@, k as int);
                    lemma_pow16_increases((k + 1) as nat, 32);
                    lemma_pow16_32();
                    assert(16 * hex_prefix_val(h@, k as int) + d < pow16((k + 1) as nat)) by {
                        assert(pow16((k + 1) as nat) == 16 * pow16(k as nat));
                    }
                }
                val = val * 16 + (d as u128);
                k += 1;
            },
            None => {
                return None;
            },
        }
    }
    proof {
        lemma_hex_prefix_val_bound(h@, 32);
    }
    Some(val)
}

/// Parses an identifier from its textual form: the hyphenated 36-byte form
/// or the bare 32-digit form, with digits of either case.
pub fn parse_event_id(s: &[u8]) -> (r: Option<u128>)
    ensures
        r == parse_id(s@),
{
    if s.len() == 36 {
        if !(s[8] == 0x2d && s[13] == 0x2d && s[18] == 0x2d && s[23] == 0x2d) {
            return None;
        }
        let mut h: Vec<u8> = Vec::new();
        let mut j: usize = 0;
        while j < 32
            invariant
                j <= 32,
                s@.len() == 36,
                h@.len() == j,
                forall|i: int| 0 <= i < j ==> h@[i] == strip_hyphens(s@)[i],
            decreases 32 - j,
        {
            let p: usize = if j < 8 {
                j
            } else if j < 12 {
                j + 1
            } else if j < 16 {
                j + 2
            } else if j < 20 {
                j + 3
            } else {
                j + 4
            };
            h.push(s[p]);
            j += 1;
        }
        proof {
            assert(h@ =~= strip_hyphens(s@));
        }
        parse_hex32_exec(&h)
    } else if s.len() == 32 {
        let mut h: Vec<u8> = Vec::new();
        push_all(&mut h, s);
        proof {
            assert(h@ =~= s@);
        }
        parse_hex32_exec(&h)
    } else {
        None
    }
}

} // verus!
