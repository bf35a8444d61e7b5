//! The 8-digit ASCII-hex number fields of a `newc` header.
//!
//! Every numeric field of a header is written as exactly eight hexadecimal
//! digits, most significant digit first, zero-padded on the left. Encoding
//! always emits lowercase digits; decoding accepts either case.

use vstd::prelude::*;

verus! {

/// True when `b` is the ASCII code of a hexadecimal digit (either case).
pub open spec fn is_hex_digit(b: u8) -> bool {
    (0x30 <= b <= 0x39) || (0x61 <= b <= 0x66) || (0x41 <= b <= 0x46)
}

/// Numeric value of the ASCII hex digit `b`.
pub open spec fn hex_digit_value(b: u8) -> u8
    recommends
        is_hex_digit(b),
{
    if 0x30 <= b <= 0x39 {
        (b - 0x30) as u8
    } else if 0x61 <= b <= 0x66 {
        (b - 0x61 + 10) as u8
    } else {
        (b - 0x41 + 10) as u8
    }
}

/// ASCII code of the lowercase hex digit for `v`.
pub open spec fn hex_digit_char(v: u32) -> u8
    recommends
        v < 16,
{
    if v < 10 {
        (0x30 + v) as u8
    } else {
        (0x57 + v) as u8
    }
}

/// The `i`-th hex digit of `v` when written as 8 digits, most significant first.
pub open spec fn nibble(v: u32, i: int) -> u32
    recommends
        0 <= i < 8,
{
    (v >> ((4 * (7 - i)) as u32)) & 0xf
}

/// `v` written as exactly 8 lowercase ASCII hex digits, most significant first.
pub open spec fn hex8(v: u32) -> Seq<u8> {
    Seq::new(8, |i: int| hex_digit_char(nibble(v, i)))
}

/// True when `s` is exactly 8 ASCII hex digits.
pub open spec fn valid_hex8(s: Seq<u8>) -> bool {
    s.len() == 8 && (forall|i: int| 0 <= i < 8 ==> is_hex_digit(#[trigger] s[i]))
}

/// The number denoted by the first `n` of the 8 hex digits of `s`.
pub open spec fn hex8_value_prefix(s: Seq<u8>, n: int) -> int
    decreases n,
{
    if n <= 0 {
        0
    } else {
        16 * hex8_value_prefix(s, n - 1) + hex_digit_value(s[n - 1])
    }
}

/// The number denoted by the 8 hex digits of `s`, most significant first.
pub open spec fn hex8_value(s: Seq<u8>) -> int {
    hex8_value_prefix(s, 8)
}

/// `16^n`, the exclusive upper bound for a number of `n` hex digits.
pub open spec fn pow16(n: int) -> int
    decreases n,
{
    if n <= 0 {
        1
    } else {
        16 * pow16(n - 1)
    }
}

proof fn lemma_pow16_pos(n: int)
    ensures
        pow16(n) >= 1,
    decreases n,
{
    if n > 0 {
        lemma_pow16_pos(n - 1);
    }
}

proof fn lemma_pow16_mono(a: int, b: int)
    requires
        a <= b,
    ensures
        pow16(a) <= pow16(b),
    decreases b - a,
{
    if a < b {
        lemma_pow16_mono(a, b - 1);
        lemma_pow16_pos(b - 1);
    }
}

/// A prefix of `n` valid digits denotes a number below `16^n`.
proof fn lemma_hex8_value_prefix_bound(s: Seq<u8>, n: int)
    requires
        0 <= n <= s.len(),
        forall|i: int| 0 <= i < n ==> is_hex_digit(#[trigger] s[i]),
    ensures
        0 <= hex8_value_prefix(s, n) < pow16(n),
    decreases n,
{
    if n > 0 {
        lemma_hex8_value_prefix_bound(s, n - 1);
    }
}

/// Eight hex digits denote a number below 2^32.
pub proof fn lemma_hex8_value_bound(s: Seq<u8>)
    requires
        valid_hex8(s),
    ensures
        0 <= hex8_value(s) < 0x1_0000_0000,
{
    lemma_hex8_value_prefix_bound(s, 8);
    assert(pow16(8) == 0x1_0000_0000) by {
        reveal_with_fuel(pow16, 9);
    }
}

/// Every nibble is below 16, so `hex8` produces digit codes.
proof fn lemma_nibble_bound(v: u32, i: int)
    requires
        0 <= i < 8,
    ensures
        nibble(v, i) < 16,
{
    let k: u32 = (4 * (7 - i)) as u32;
    assert((v >> k) & 0xf < 16) by (bit_vector);
}

/// `hex8` always yields valid hex digits.
pub proof fn lemma_hex8_valid(v: u32)
    ensures
        valid_hex8(hex8(v)),
{
    assert forall|i: int| 0 <= i < 8 implies is_hex_digit(#[trigger] hex8(v)[i]) by {
        lemma_nibble_bound(v, i);
    }
}

/// Reading back the 8 digits of `v` yields `v` again.
pub proof fn lemma_hex8_roundtrip(v: u32)
    ensures
        valid_hex8(hex8(v)),
        hex8_value(hex8(v)) == v,
{
    lemma_hex8_valid(v);
    assert forall|i: int| 0 <= i < 8 implies hex_digit_value(#[trigger] hex8(v)[i]) == nibble(
        v,
        i,
    ) by {
        lemma_nibble_bound(v, i);
    }
    reveal_with_fuel(hex8_value_prefix, 9);
    assert(((((((((v >> 28) & 0xf) * 16 + ((v >> 24) & 0xf)) * 16 + ((v >> 20) & 0xf)) * 16 + ((v
        >> 16) & 0xf)) * 16 + ((v >> 12) & 0xf)) * 16 + ((v >> 8) & 0xf)) * 16 + ((v >> 4) & 0xf))
        * 16 + ((v >> 0) & 0xf) == v) by (bit_vector);
}

/// Appends the 8 lowercase hex digits of `v` to `out`.
pub fn push_hex8(out: &mut Vec<u8>, v: u32)
    ensures
        final(out)@ == old(out)@ + hex8(v),
{
    proof {
        assert(out@ =~= old(out)@ + hex8(v).take(0));
    }
    let mut i: usize = 0;
    while i < 8
        invariant
            0 <= i <= 8,
            out@ == old(out)@ + hex8(v).take(i as int),
        decreases 8 - i,
    {
        let shift: u32 = 28 - 4 * (i as u32);
        let nib: u32 = (v >> shift) & 0xf;
        proof {
            lemma_nibble_bound(v, i as int);
            assert(nib == nibble(v, i as int));
        }
        let c: u8 = if nib < 10 {
            (0x30 + nib) as u8
        } else {
            (0x57 + nib) as u8
        };
        assert(c == hex_digit_char(nibble(v, i as int)));
        out.push(c);
        proof {
            assert(out@ =~= old(out)@ + hex8(v).take(i as int + 1));
        }
        i = i + 1;
    }
    proof {
        assert(out@ =~= old(out)@ + hex8(v));
    }
}

/// The numeric value of one ASCII hex digit, or `None` for any other byte.
pub fn parse_hex_digit(b: u8) -> (r: Option<u8>)
    ensures
        r is Some <==> is_hex_digit(b),
        r is Some ==> r->0 == hex_digit_value(b),
{
    if 0x30 <= b && b <= 0x39 {
        Some(b - 0x30)
    } else if 0x61 <= b && b <= 0x66 {
        Some(b - 0x61 + 10)
    } else if 0x41 <= b && b <= 0x46 {
        Some(b - 0x41 + 10)
    } else {
        None
    }
}

/// Parses a slice of exactly 8 ASCII hex digits into the number they denote.
pub fn parse_hex8(s: &[u8]) -> (r: Option<u32>)
    requires
        s@.len() == 8,
    ensures
        r is Some <==> valid_hex8(s@),
        r is Some ==> r->0 == hex8_value(s@),
{
    let mut acc: u32 = 0;
    let mut ok: bool = true;
    let mut i: usize = 0;
    while i < 8
        invariant
            0 <= i <= 8,
            s@.len() == 8,
            ok ==> forall|j: int| 0 <= j < i ==> is_hex_digit(#[trigger] s@[j]),
            !ok ==> !valid_hex8(s@),
            ok ==> acc == hex8_value_prefix(s@, i as int),
            ok ==> acc < pow16(i as int),
        decreases 8 - i,
    {
        match parse_hex_digit(s[i]) {
            Some(d) => {
                if ok {
                    proof {
                        lemma_pow16_mono(i as int, 7);
                        assert(pow16(7) == 0x1000_0000) by {
                            reveal_with_fuel(pow16, 8);
                        }
                    }
                    acc = acc * 16 + (d as u32);
                }
            },
            None => {
                ok = false;
            },
        }
        i = i + 1;
    }
    if ok {
        proof {
            lemma_hex8_value_bound(s@);
        }
        Some(acc)
    } else {
        None
    }
}

} // verus!
