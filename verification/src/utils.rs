//! Sizes shown to the user.

use vstd::prelude::*;
use crate::text::{decimal, digit_char, push_char, push_decimal};

verus! {

/// One kibibyte.
pub const KB: u64 = 1024;

/// One mebibyte.
pub const MB: u64 = 1048576;

/// One gibibyte.
pub const GB: u64 = 1073741824;

/// Integers below this bound are exact in a binary64 float (53 significand bits).
pub const EXACT_LIMIT: u64 = 9007199254740992;

/// `num / den`, rounded to the nearest integer, ties to even.
pub open spec fn round_half_even(num: nat, den: nat) -> nat
    recommends
        den > 0,
{
    let q = num / den;
    let r = num % den;
    if 2 * r > den || (2 * r == den && q % 2 == 1) {
        q + 1
    } else {
        q
    }
}

/// The spacing of binary64 floats around `n`: the power of two by which `n` must be
/// divided to fit in 53 significand bits.
pub open spec fn float_spacing(n: nat) -> nat
    decreases n,
{
    if n < EXACT_LIMIT {
        1
    } else {
        2 * float_spacing(n / 2)
    }
}

/// The integer value of the binary64 float nearest to `n` (ties to even), as `n as f64` gives.
pub open spec fn as_float(n: nat) -> nat {
    round_half_even(n, float_spacing(n)) * float_spacing(n)
}

/// The two-digit decimal representation of `d < 100`.
pub open spec fn two_digits(d: nat) -> Seq<char> {
    seq![digit_char(d / 10), digit_char(d % 10)]
}

/// `size` as a number of `unit`s, in hundredths, as `{:.2}` prints `size as f64 / unit as f64`.
pub open spec fn hundredths(size: nat, unit: nat) -> nat {
    round_half_even(as_float(size) * 100, unit)
}

/// `h` hundredths written with two decimals, followed by a space and the unit's name.
pub open spec fn with_two_decimals(h: nat, name: Seq<char>) -> Seq<char> {
    decimal(h / 100) + seq!['.'] + two_digits(h % 100) + seq![' '] + name
}

/// The human-readable form of a byte count.
pub open spec fn readable_size(size: nat) -> Seq<char> {
    if size >= GB {
        with_two_decimals(hundredths(size, GB as nat), seq!['G', 'B'])
    } else if size >= MB {
        with_two_decimals(hundredths(size, MB as nat), seq!['M', 'B'])
    } else if size >= KB {
        with_two_decimals(hundredths(size, KB as nat), seq!['K', 'B'])
    } else {
        decimal(size) + seq![' ', 'B']
    }
}

/// `size` rounded to the nearest binary64 float, as an integer.
fn float_value(size: u64) -> (r: u128)
    ensures
        r == as_float(size as nat),
        r <= size + 4096,
{
    let mut q: u64 = size;
    let mut d: u128 = 1;
    while q >= EXACT_LIMIT
        invariant
            d >= 1,
            q == size as nat / d as nat,
            float_spacing(size as nat) == d * float_spacing(q as nat),
            d * q <= size,
            d == 1 || d * EXACT_LIMIT <= 2 * size,
        decreases q,
    {
        proof {
            vstd::arithmetic::div_mod::lemma_div_denominator(size as int, d as int, 2);
            let x = float_spacing((q / 2) as nat);
            assert(d * (2 * x) == (2 * d) * x) by (nonlinear_arith);
            assert((2 * d) * (q / 2) <= d * q) by (nonlinear_arith)
                requires
                    d >= 1,
            ;
            assert(d * EXACT_LIMIT <= d * q) by (nonlinear_arith)
                requires
                    d >= 1,
                    q >= EXACT_LIMIT,
            ;
        }
        q = q / 2;
        d = d * 2;
    }
    let r: u128 = size as u128 - (q as u128) * d;
    proof {
        vstd::arithmetic::div_mod::lemma_fundamental_div_mod(size as int, d as int);
        assert(d <= 4096) by (nonlinear_arith)
            requires
                d == 1 || d * EXACT_LIMIT <= 2 * size,
                size < 0x1_0000_0000_0000_0000,
        ;
    }
    let up = 2 * r > d || (2 * r == d && q % 2 == 1);
    let rounded: u128 = if up {
        q as u128 + 1
    } else {
        q as u128
    };
    proof {
        assert(float_spacing(q as nat) == 1);
        assert(d * float_spacing(q as nat) == d) by (nonlinear_arith)
            requires
                float_spacing(q as nat) == 1,
        ;
        assert(float_spacing(size as nat) == d);
        assert((q as int) * (d as int) == (d as int) * (q as int)) by (nonlinear_arith);
        assert(size as nat % d as nat == r);
        assert(round_half_even(size as nat, d as nat) == rounded);
        assert(rounded * d <= size + d) by (nonlinear_arith)
            requires
                rounded <= q + 1,
                d * q <= size,
        ;
    }
    rounded * d
}


/// Appends `size` in `unit`s with two decimals, a space and `name` to `s`.
fn push_in_unit(s: &mut String, size: u64, unit: u64, name: (char, char))
    requires
        unit >= KB,
    ensures
        final(s)@ == old(s)@ + with_two_decimals(hundredths(size as nat, unit as nat), seq![name.0, name.1]),
{
    let f = float_value(size);
    let num: u128 = f * 100;
    let unit_w = unit as u128;
    let q: u128 = num / unit_w;
    let rem: u128 = num % unit_w;
    let up = 2 * rem > unit_w || (2 * rem == unit_w && q % 2 == 1);
    let h: u128 = if up {
        q + 1
    } else {
        q
    };
    proof {
        vstd::arithmetic::div_mod::lemma_fundamental_div_mod(num as int, unit as int);
        assert(q * 1024 <= num) by (nonlinear_arith)
            requires
                q * unit <= num,
                unit >= 1024,
                q >= 0,
        ;
        assert((unit as int) * (q as int) == (q as int) * (unit as int)) by (nonlinear_arith);
        assert(h == hundredths(size as nat, unit as nat));
    }
    let whole = (h / 100) as u64;
    let frac = (h % 100) as u64;
    push_decimal(s, whole);
    push_char(s, '.');
    push_char(s, crate::text::digit(frac / 10));
    push_char(s, crate::text::digit(frac % 10));
    push_char(s, ' ');
    push_char(s, name.0);
    push_char(s, name.1);
    proof {
        assert(s@ =~= old(s)@ + with_two_decimals(h as nat, seq![name.0, name.1]));
    }
}

/// The size in bytes in the largest unit (B, KB, MB or GB, each 1024 times the one before)
/// that it reaches, with two decimals for all but bytes.
pub fn human_readable_size(size: u64) -> (r: String)
    ensures
        r@ == readable_size(size as nat),
{
    let mut s = String::new();
    if size >= GB {
        push_in_unit(&mut s, size, GB, ('G', 'B'));
    } else if size >= MB {
        push_in_unit(&mut s, size, MB, ('M', 'B'));
    } else if size >= KB {
        push_in_unit(&mut s, size, KB, ('K', 'B'));
    } else {
        push_decimal(&mut s, size);
        push_char(&mut s, ' ');
        push_char(&mut s, 'B');
        assert(s@ =~= decimal(size as nat) + seq![' ', 'B']);
    }
    s
}


/// Sizes shown in a unit are rounded to the nearest hundredth: below 2^53 bytes, the hundredths
/// shown differ from the exact `100 * size / unit` by at most half a hundredth.
pub proof fn lemma_hundredths_nearest(size: nat, unit: nat)
    requires
        unit > 0,
        size < EXACT_LIMIT,
    ensures
        -(unit as int) <= 2 * (100 * size - hundredths(size, unit) * unit) <= unit,
{
    assert(float_spacing(size) == 1);
    assert(size / 1 == size && size % 1 == 0) by (nonlinear_arith);
    assert(as_float(size) == size);
    let num = 100 * size;
    let q = num / unit;
    let r = num % unit;
    vstd::arithmetic::div_mod::lemma_fundamental_div_mod(num as int, unit as int);
    assert(num == unit * q + r);
    assert(0 <= r < unit);
    let h = hundredths(size, unit);
    if 2 * r > unit || (2 * r == unit && q % 2 == 1) {
        assert(h == q + 1);
        assert(h * unit == unit * q + unit) by (nonlinear_arith)
            requires
                h == q + 1,
        ;
    } else {
        assert(h == q);
        assert(h * unit == unit * q) by (nonlinear_arith)
            requires
                h == q,
        ;
    }
}


/// The unit shown is the largest of GB, MB and KB that the size reaches, else bytes: the text
/// ends with ` GB`, ` MB`, ` KB` or ` B` accordingly, and bytes are shown as the exact count.
pub proof fn lemma_unit_by_threshold(size: nat)
    ensures
        size >= GB ==> readable_size(size).skip(readable_size(size).len() - 3) == seq![' ', 'G', 'B'],
        MB <= size < GB ==> readable_size(size).skip(readable_size(size).len() - 3) == seq![' ', 'M', 'B'],
        KB <= size < MB ==> readable_size(size).skip(readable_size(size).len() - 3) == seq![' ', 'K', 'B'],
        size < KB ==> readable_size(size) == decimal(size) + seq![' ', 'B'],
{
    let r = readable_size(size);
    if size >= KB {
        assert(r.skip(r.len() - 3) =~= seq![' ', r[r.len() - 2], 'B']);
    }
}

} // verus!
