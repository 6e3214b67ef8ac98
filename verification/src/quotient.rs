//! Quotients as binary floating point computes and prints them.

use vstd::arithmetic::power2::*;
use vstd::prelude::*;

use crate::numeral;

verus! {

/// The whole number closest to `x / d`, the even one of two.
pub open spec fn round_even(x: nat, d: nat) -> nat {
    let q = x / d;
    let r = x % d;
    if 2 * r < d || (2 * r == d && q % 2 == 0) {
        q
    } else {
        q + 1
    }
}

/// How often `x` has to be doubled to reach `limit`.
pub open spec fn doublings(x: nat, limit: nat) -> nat
    decreases 2 * limit - x,
{
    if x == 0 || x >= limit {
        0
    } else {
        1 + doublings(2 * x, limit)
    }
}

/// Significand of the binary floating point number closest to `a / b`, and the power of two that
/// it is divided by. `half` is the smallest significand; `a / b` is below it.
pub open spec fn closest(a: nat, b: nat, half: nat) -> (nat, nat) {
    let k = doublings(a, half * b);
    (round_even(a * pow2(k), b), pow2(k))
}

/// The smallest significand of double precision.
pub const DOUBLE: u64 = 0x10_0000_0000_0000;

/// The smallest significand of single precision.
pub const SINGLE: u64 = 0x80_0000;

/// Tenths of the decimal with one digit behind the point that is closest to the double precision
/// number closest to `a / b`, where that is below `2^52`.
pub open spec fn tenths_of(a: nat, b: nat) -> nat {
    let (m, p) = closest(a, b, DOUBLE as nat);
    round_even(10 * m, p)
}

/// The whole number closest to the single precision number closest to `a / b`, where that is below
/// `2^23`.
pub open spec fn rounded_single(a: nat, b: nat) -> nat {
    let (m, p) = closest(a, b, SINGLE as nat);
    round_even(m, p)
}

/// The whole part of the single precision number closest to `a / b`, where that is below `2^23`.
pub open spec fn whole_single(a: nat, b: nat) -> nat {
    let (m, p) = closest(a, b, SINGLE as nat);
    m / p
}

/// A number of tenths, with one digit behind the point.
pub open spec fn tenths_text(tenths: nat) -> Seq<char> {
    numeral::decimal_text(tenths / 10).push('.') + numeral::decimal_text(tenths % 10)
}

/// The whole number closest to `x / d`, the even one of two.
pub fn round_half_even(x: u128, d: u128) -> (r: u128)
    requires
        0 < d <= 0xff_ffff_ffff_ffff_ffff_ffff,
        x <= 0xff_ffff_ffff_ffff_ffff_ffff,
    ensures
        r == round_even(x as nat, d as nat),
        r <= x + 1,
{
    let q: u128 = x / d;
    let rest: u128 = x % d;
    proof {
        assert(q <= x) by (nonlinear_arith)
            requires
                d > 0,
                q == x / d,
        ;
        vstd::arithmetic::div_mod::lemma_mod_bound(x as int, d as int);
    }
    if 2 * rest < d || (2 * rest == d && q % 2 == 0) {
        q
    } else {
        q + 1
    }
}

proof fn doublings_step(a: nat, i: nat, limit: nat)
    requires
        0 < a,
        a * pow2(i) < limit,
    ensures
        doublings(a * pow2(i), limit) == 1 + doublings(a * pow2(i + 1), limit),
{
    lemma_pow2_pos(i);
    lemma_pow2_unfold(i + 1);
    assert(a * pow2(i) > 0) by (nonlinear_arith)
        requires
            a > 0,
            pow2(i) > 0,
    ;
    assert(2 * (a * pow2(i)) == a * (2 * pow2(i))) by (nonlinear_arith);
}

fn closest_float(a: u32, b: u32, half: u64) -> (r: (u128, u128))
    requires
        0 < b <= 1_000_000,
        0x80_0000 <= half <= 0x10_0000_0000_0000,
        a < 2 * (half * b),
    ensures
        (r.0 as nat, r.1 as nat) == closest(a as nat, b as nat, half as nat),
        0 < r.1,
        r.1 <= 0xff_ffff_ffff_ffff_ffff_ffff,
        r.0 <= 2 * half + 1,
        r.0 <= a * r.1 + 1,
{
    if a == 0 {
        proof {
            lemma2_to64();
            assert(round_even(0, b as nat) == 0) by {
                vstd::arithmetic::div_mod::lemma_small_mod(0, b as nat);
                vstd::arithmetic::div_mod::lemma_basic_div(0, b as int);
            }
            assert(doublings(0, (half * b) as nat) == 0);
            assert(0 * pow2(0) == 0);
        }
        return (0, 1);
    }
    proof {
        assert(half * b <= 0x10_0000_0000_0000 * 1_000_000) by (nonlinear_arith)
            requires
                half <= 0x10_0000_0000_0000,
                b <= 1_000_000,
        ;
    }
    let limit: u128 = half as u128 * b as u128;
    let mut x: u128 = a as u128;
    let mut p: u128 = 1;
    let ghost mut k: nat = 0;
    proof {
        lemma2_to64();
        assert(a * pow2(0) == a);
    }
    while x < limit
        invariant
            0 < a,
            0 < b <= 1_000_000,
            limit == half * b,
            limit <= 0x10_0000_0000_0000 * 1_000_000,
            x == a * pow2(k),
            p == pow2(k),
            0 < p <= x,
            x < 2 * limit,
            doublings(a as nat, limit as nat) == k + doublings(x as nat, limit as nat),
        decreases 2 * limit - x,
    {
        proof {
            doublings_step(a as nat, k, limit as nat);
            lemma_pow2_unfold(k + 1);
            assert(2 * (a * pow2(k)) == a * (2 * pow2(k))) by (nonlinear_arith);
            k = k + 1;
        }
        x = x * 2;
        p = p * 2;
    }
    let m: u128 = round_half_even(x, b as u128);
    proof {
        assert(x / (b as u128) < 2 * half) by (nonlinear_arith)
            requires
                0 < b,
                x < 2 * (half * b),
        ;
    }
    (m, p)
}

/// Tenths of `a / b`, as double precision computes and prints it.
pub fn tenths(a: u32, b: u32) -> (r: u64)
    requires
        0 < b <= 1_000_000,
    ensures
        r == tenths_of(a as nat, b as nat),
{
    proof {
        assert(DOUBLE * b >= DOUBLE) by (nonlinear_arith)
            requires
                b >= 1,
        ;
    }
    let (m, p) = closest_float(a, b, DOUBLE);
    let r: u128 = round_half_even(10 * m, p);
    proof {
        assert((10 * m) / (p as int) <= 10 * a + 10) by (nonlinear_arith)
            requires
                m <= a * p + 1,
                p > 0,
                10 * m <= 10 * (a * p) + 10,
        ;
    }
    r as u64
}

/// The whole number closest to `a / b`, and the whole part of it, as single precision computes and
/// prints them.
pub fn single(a: u32, b: u32) -> (r: (u64, u64))
    requires
        0 < b <= 1_000_000,
        a < 0x80_0000,
    ensures
        r.0 == rounded_single(a as nat, b as nat),
        r.1 == whole_single(a as nat, b as nat),
{
    proof {
        assert(SINGLE * b >= SINGLE) by (nonlinear_arith)
            requires
                b >= 1,
        ;
    }
    let (m, p) = closest_float(a, b, SINGLE);
    let rounded: u128 = round_half_even(m, p);
    proof {
        assert(m / p <= m) by (nonlinear_arith)
            requires
                p > 0,
        ;
    }
    (rounded as u64, (m / p) as u64)
}

/// Writes a number of tenths, with one digit behind the point.
pub fn one_decimal(tenths: u64) -> (r: String)
    ensures
        r@ == tenths_text(tenths as nat),
{
    let mut r = numeral::decimal(tenths / 10);
    r.push('.');
    let d = numeral::decimal(tenths % 10);
    r.append(d.as_str());
    r
}

/// A rounded quotient is as close to the quotient as a whole number can be, and even where two are.
pub proof fn rounding_is_closest(x: nat, d: nat)
    requires
        d > 0,
    ensures
        2 * x <= d * (2 * round_even(x, d) + 1),
        d * (2 * round_even(x, d)) <= 2 * x + d,
        2 * x == d * (2 * round_even(x, d) + 1) || d * (2 * round_even(x, d)) == 2 * x + d
            ==> round_even(x, d) % 2 == 0,
{
    let q = x / d;
    let r = x % d;
    let e = round_even(x, d);
    assert(x == d * q + r && r < d) by (nonlinear_arith)
        requires
            d > 0,
            q == x / d,
            r == x % d,
    ;
    assert(d * (2 * e + 1) == 2 * (d * e) + d) by (nonlinear_arith);
    assert(d * (2 * e) == 2 * (d * e)) by (nonlinear_arith);
    assert(d * (q + 1) == d * q + d) by (nonlinear_arith);
}

/// A number of tenths is written with the last digit behind the point.
pub proof fn tenths_have_one_digit(whole: nat, digit: nat)
    requires
        digit < 10,
    ensures
        tenths_text(10 * whole + digit) == numeral::decimal_text(whole) + seq![
            '.',
            "0123456789"@[digit as int],
        ],
{
    reveal_strlit("0123456789");
    assert((10 * whole + digit) / 10 == whole);
    assert((10 * whole + digit) % 10 == digit);
    assert(numeral::decimal_text(digit) =~= seq!["0123456789"@[digit as int]]);
    assert(tenths_text(10 * whole + digit) =~= numeral::decimal_text(whole) + seq![
        '.',
        "0123456789"@[digit as int],
    ]);
}

}
