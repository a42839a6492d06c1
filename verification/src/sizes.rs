//! Human-readable byte counts ("512 B", "1.5 KB", "2.0 MB", "1.25 GB").
//!
//! The report writes a size as the byte count converted to a 64-bit float,
//! divided by a power of 1024 and printed with one or two decimals. All of
//! that is exact integer arithmetic here: the conversion keeps 53
//! significant bits (rounding to nearest, ties to even), division by a power
//! of two is exact, and the printed decimals are the exact quotient rounded
//! to nearest, ties to even.
use vstd::prelude::*;

use crate::text::{nat_digits, padded_digits, int_text, push_digits, push_int, lemma_digits_len, zeros};

verus! {

/// 2^53: the integers below it are held exactly by a 64-bit float.
pub open spec fn exact_float_limit() -> nat {
    0x20_0000_0000_0000
}

/// `a / d` rounded to the nearest integer, ties to the even one.
pub open spec fn round_half_even(a: nat, d: nat) -> nat
    recommends
        d > 0,
{
    let q = a / d;
    let r = a % d;
    if 2 * r > d {
        q + 1
    } else if 2 * r < d {
        q
    } else if q % 2 == 0 {
        q
    } else {
        q + 1
    }
}

/// The spacing of 64-bit floats around `b`: 1 below 2^53, doubling with
/// every further bit.
pub open spec fn float_unit(b: nat) -> nat
    decreases b,
{
    if b < exact_float_limit() {
        1
    } else {
        2 * float_unit(b / 2)
    }
}

/// The value of `b as f64`: `b` rounded to the float spacing, ties to even.
pub open spec fn as_float(b: nat) -> nat {
    round_half_even(b, float_unit(b)) * float_unit(b)
}

/// `10^p`.
pub open spec fn pow10(p: nat) -> nat
    decreases p,
{
    if p == 0 {
        1
    } else {
        10 * pow10((p - 1) as nat)
    }
}

/// `v / scale` written with `places` decimals, as `{:.places$}` writes it.
pub open spec fn fixed_text(v: nat, scale: nat, places: nat) -> Seq<char> {
    let q = round_half_even(v * pow10(places), scale);
    nat_digits(q / pow10(places)) + seq!['.'] + padded_digits(q % pow10(places), places)
}

/// The text of a byte count: plain bytes below 1 KiB, then KB and MB with
/// one decimal, then GB with two.
pub open spec fn size_text(bytes: int) -> Seq<char> {
    if bytes < 1024 {
        int_text(bytes) + seq![' ', 'B']
    } else if bytes < 1024 * 1024 {
        fixed_text(as_float(bytes as nat), 1024, 1) + seq![' ', 'K', 'B']
    } else if bytes < 1024 * 1024 * 1024 {
        fixed_text(as_float(bytes as nat), 1024 * 1024, 1) + seq![' ', 'M', 'B']
    } else {
        fixed_text(as_float(bytes as nat), 1024 * 1024 * 1024, 2) + seq![' ', 'G', 'B']
    }
}

/// A byte count below 2^53 converts to a float exactly, so its text shows
/// the count itself divided by the unit and rounded.
pub proof fn lemma_small_counts_exact(b: nat)
    requires
        b < exact_float_limit(),
    ensures
        as_float(b) == b,
{
    assert(float_unit(b) == 1);
    assert(b / 1 == b && b % 1 == 0);
}

/// `a / d` rounded to nearest, ties to even.
fn div_round_half_even(a: u128, d: u128) -> (r: u128)
    requires
        d > 0,
        a < 0x1_0000_0000_0000_0000_0000_0000,
    ensures
        r == round_half_even(a as nat, d as nat),
        r <= a / d + 1,
{
    let q = a / d;
    let rem = a % d;
    proof {
        vstd::arithmetic::div_mod::lemma_fundamental_div_mod(a as int, d as int);
        assert(q <= a) by (nonlinear_arith)
            requires
                a == d * q + rem,
                d >= 1,
                rem >= 0,
                q >= 0,
        ;
    }
    if rem > d - rem {
        q + 1
    } else if rem < d - rem {
        q
    } else if q % 2 == 0 {
        q
    } else {
        q + 1
    }
}

/// The spacing of 64-bit floats around `b`, with its bound.
fn float_unit_of(b: u64) -> (u: u64)
    requires
        b <= 0x7fff_ffff_ffff_ffff,
    ensures
        u == float_unit(b as nat),
        1 <= u <= 0x800,
{
    let mut x: u64 = b;
    let mut u: u64 = 1;
    while x >= 0x20_0000_0000_0000
        invariant
            1 <= u <= 0x800,
            float_unit(b as nat) == u * float_unit(x as nat),
            u * x <= b,
            b <= 0x7fff_ffff_ffff_ffff,
        decreases x,
    {
        assert(u * 2 <= 0x800) by (nonlinear_arith)
            requires
                u * x <= b,
                x >= 0x20_0000_0000_0000,
                b <= 0x7fff_ffff_ffff_ffff,
        ;
        let ghost old_x = x;
        let ghost old_u = u;
        assert(float_unit(old_x as nat) == 2 * float_unit((old_x / 2) as nat));
        x = x / 2;
        u = u * 2;
        assert(u * x <= b) by (nonlinear_arith)
            requires
                old_u * old_x <= b,
                x == old_x / 2,
                u == old_u * 2,
        ;
        assert(float_unit(b as nat) == u * float_unit(x as nat)) by (nonlinear_arith)
            requires
                float_unit(b as nat) == old_u * float_unit(old_x as nat),
                float_unit(old_x as nat) == 2 * float_unit(x as nat),
                u == old_u * 2,
        ;
    }
    assert(float_unit(x as nat) == 1);
    assert(u * float_unit(x as nat) == u) by (nonlinear_arith)
        requires
            float_unit(x as nat) == 1,
    ;
    u
}

/// The value of `b as f64`, as an integer.
fn float_value(b: u64) -> (v: u64)
    requires
        b <= 0x7fff_ffff_ffff_ffff,
    ensures
        v == as_float(b as nat),
{
    let u = float_unit_of(b);
    let r = div_round_half_even(b as u128, u as u128);
    proof {
        vstd::arithmetic::div_mod::lemma_fundamental_div_mod(b as int, u as int);
        assert(r * u <= b + u) by (nonlinear_arith)
            requires
                r <= b / u + 1,
                b == u * (b / u) + b % u,
                b % u >= 0,
                u >= 1,
        ;
    }
    (r * (u as u128)) as u64
}

/// Appends `v / scale` written with `places` decimals, `places` being 1
/// or 2.
fn push_fixed(out: &mut String, v: u64, scale: u128, places: u64)
    requires
        scale >= 1024,
        places == 1 || places == 2,
    ensures
        final(out)@ == old(out)@ + fixed_text(v as nat, scale as nat, places as nat),
{
    proof {
        reveal_with_fuel(pow10, 3);
        reveal_strlit(".");
        reveal_strlit("0");
    }
    let p: u128 = if places == 1 {
        10
    } else {
        100
    };
    assert(p == pow10(places as nat));
    let a: u128 = v as u128 * p;
    let q = div_round_half_even(a, scale);
    proof {
        vstd::arithmetic::div_mod::lemma_div_is_ordered_by_denominator(a as int, 1024, scale as int);
        vstd::arithmetic::div_mod::lemma_div_is_ordered(a as int, 0x80_0000_0000_0000_0000, 1024);
    }
    let whole = q / p;
    let frac = q % p;
    let ghost start = out@;
    push_digits(out, whole as u64);
    out.append(".");
    proof {
        lemma_digits_len(frac as nat);
    }
    if places == 2 && frac < 10 {
        out.append("0");
        assert(zeros(1) =~= seq!['0']);
    }
    push_digits(out, frac as u64);
    assert(final(out)@ =~= start + fixed_text(v as nat, scale as nat, places as nat));
}

/// A byte count for people: bytes below 1 KiB, then KB or MB with one
/// decimal, then GB with two.
pub fn format_size(bytes: i64) -> (r: String)
    ensures
        r@ == size_text(bytes as int),
{
    proof {
        reveal_strlit(" B");
        reveal_strlit(" KB");
        reveal_strlit(" MB");
        reveal_strlit(" GB");
    }
    let mut out = String::new();
    if bytes < 1024 {
        push_int(&mut out, bytes);
        out.append(" B");
    } else {
        let v = float_value(bytes as u64);
        if bytes < 1024 * 1024 {
            push_fixed(&mut out, v, 1024, 1);
            out.append(" KB");
        } else if bytes < 1024 * 1024 * 1024 {
            push_fixed(&mut out, v, 1024 * 1024, 1);
            out.append(" MB");
        } else {
            push_fixed(&mut out, v, 1024 * 1024 * 1024, 2);
            out.append(" GB");
        }
    }
    assert(out@ =~= size_text(bytes as int));
    out
}

} // verus!
