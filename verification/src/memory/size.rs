//! Sizes in words.

use crate::text::{decimal, decimal_string, digit_char, push_char};
use vstd::prelude::*;

verus! {

/// A quotient rounded to the nearest integer, halves to the even one.
pub open spec fn round_half_even(n: nat, d: nat) -> nat {
    let (q, r) = (n / d, n % d);
    if 2 * r > d || (2 * r == d && q % 2 == 1) {
        q + 1
    } else {
        q
    }
}

/// The spacing of the double-precision numbers around an integer below 2^64: one up
/// to 2^53, twice as much with each further bit.
pub open spec fn double_spacing(n: nat) -> nat {
    if n < 0x20_0000_0000_0000 {
        1
    } else if n < 0x40_0000_0000_0000 {
        2
    } else if n < 0x80_0000_0000_0000 {
        4
    } else if n < 0x100_0000_0000_0000 {
        8
    } else if n < 0x200_0000_0000_0000 {
        16
    } else if n < 0x400_0000_0000_0000 {
        32
    } else if n < 0x800_0000_0000_0000 {
        64
    } else if n < 0x1000_0000_0000_0000 {
        128
    } else if n < 0x2000_0000_0000_0000 {
        256
    } else if n < 0x4000_0000_0000_0000 {
        512
    } else if n < 0x8000_0000_0000_0000 {
        1024
    } else {
        2048
    }
}

/// The double-precision number nearest to an integer below 2^64.
pub open spec fn nearest_double(n: nat) -> nat {
    round_half_even(n, double_spacing(n)) * double_spacing(n)
}

/// Two decimal digits.
pub open spec fn two_digits(n: nat) -> Seq<char> {
    seq![digit_char(n / 10), digit_char(n % 10)]
}

/// A double-precision number of units with two decimals.
pub open spec fn in_units(bytes: nat, unit: nat) -> Seq<char> {
    let hundredths = round_half_even(nearest_double(bytes) * 100, unit);
    decimal(hundredths / 100) + seq!['.'] + two_digits(hundredths % 100)
}

/// A number of bytes in words: in the largest of GB, MB, KB and B of which it has at
/// least one.
pub open spec fn size_text(bytes: nat) -> Seq<char> {
    if bytes >= 0x4000_0000 {
        in_units(bytes, 0x4000_0000) + " GB"@
    } else if bytes >= 0x10_0000 {
        in_units(bytes, 0x10_0000) + " MB"@
    } else if bytes >= 0x400 {
        in_units(bytes, 0x400) + " KB"@
    } else {
        decimal(bytes) + " B"@
    }
}

fn spacing_of(n: u64) -> (r: u64)
    ensures
        r == double_spacing(n as nat),
        1 <= r <= 2048,
{
    if n < 0x20_0000_0000_0000 {
        1
    } else if n < 0x40_0000_0000_0000 {
        2
    } else if n < 0x80_0000_0000_0000 {
        4
    } else if n < 0x100_0000_0000_0000 {
        8
    } else if n < 0x200_0000_0000_0000 {
        16
    } else if n < 0x400_0000_0000_0000 {
        32
    } else if n < 0x800_0000_0000_0000 {
        64
    } else if n < 0x1000_0000_0000_0000 {
        128
    } else if n < 0x2000_0000_0000_0000 {
        256
    } else if n < 0x4000_0000_0000_0000 {
        512
    } else if n < 0x8000_0000_0000_0000 {
        1024
    } else {
        2048
    }
}

fn rounded(n: u128, d: u128) -> (r: u128)
    requires
        0 < d <= 0x4000_0000,
        n <= 0x100_0000_0000_0000_0000,
    ensures
        r == round_half_even(n as nat, d as nat),
        r <= n + 1,
{
    let q: u128 = n / d;
    let rest: u128 = n % d;
    assert(q <= n) by (nonlinear_arith)
        requires
            q == n / d,
            d >= 1,
    ;
    if 2 * rest > d || (2 * rest == d && q % 2 == 1) {
        q + 1
    } else {
        q
    }
}

fn units_string(bytes: u64, unit: u128) -> (r: String)
    requires
        0x400 <= unit <= 0x4000_0000,
    ensures
        r@ == in_units(bytes as nat, unit as nat),
{
    let spacing: u64 = spacing_of(bytes);
    let steps: u128 = rounded(bytes as u128, spacing as u128);
    proof {
        let (b, s) = (bytes as int, spacing as int);
        assert(steps * spacing <= b + s) by (nonlinear_arith)
            requires
                steps <= b / s + 1,
                s >= 1,
                s == spacing,
                b >= 0,
        ;
    }
    let double: u128 = steps * spacing as u128;
    let hundredths: u128 = rounded(double * 100, unit);
    proof {
        let (n, u) = (double as int * 100, unit as int);
        assert(n / u <= 0x1_0000_0000_0000_0000) by (nonlinear_arith)
            requires
                n <= 100 * (0x1_0000_0000_0000_0000 + 2048),
                u >= 0x400,
        ;
    }
    let mut out = decimal_string((hundredths / 100) as u64);
    push_char(&mut out, '.');
    let cents: u8 = (hundredths % 100) as u8;
    push_char(&mut out, (cents / 10 + 48) as char);
    push_char(&mut out, (cents % 10 + 48) as char);
    assert(out@ =~= in_units(bytes as nat, unit as nat));
    out
}

/// A number of bytes in words.
pub fn format_size(bytes: usize) -> (r: String)
    ensures
        r@ == size_text(bytes as nat),
{
    if bytes >= 0x4000_0000 {
        let mut out = units_string(bytes as u64, 0x4000_0000);
        out.append(" GB");
        out
    } else if bytes >= 0x10_0000 {
        let mut out = units_string(bytes as u64, 0x10_0000);
        out.append(" MB");
        out
    } else if bytes >= 0x400 {
        let mut out = units_string(bytes as u64, 0x400);
        out.append(" KB");
        out
    } else {
        let mut out = decimal_string(bytes as u64);
        out.append(" B");
        out
    }
}

} // verus!
