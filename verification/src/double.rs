//! Double precision numbers, known by their IEEE 754 encoding and compared exactly.

use vstd::arithmetic::div_mod::*;
use vstd::arithmetic::mul::*;
use vstd::arithmetic::power2::*;
use vstd::prelude::*;

verus! {

/// A double precision number, held as its binary64 encoding.
#[derive(Clone, Copy, Debug, PartialEq, Eq, Structural)]
pub struct Double {
    pub bits: u64,
}

/// The exponent of the smallest number above zero, negated: every finite number is a whole
/// multiple of two to the power of minus this.
pub const UNIT_EXPONENT: u32 = 1074;

/// Magnitudes from here on are told apart no more.
pub const LIMIT: u64 = 0x10_0000_0000_0000;

impl Double {
    /// The biased exponent field.
    pub open spec fn exponent(self) -> nat {
        ((self.bits / 0x10_0000_0000_0000) % 2048) as nat
    }

    /// The fraction field.
    pub open spec fn fraction(self) -> nat {
        (self.bits % 0x10_0000_0000_0000) as nat
    }

    /// Whether the sign is minus.
    pub open spec fn negative(self) -> bool {
        self.bits >= 0x8000_0000_0000_0000
    }

    /// Whether this is not a number.
    pub open spec fn is_nan(self) -> bool {
        self.exponent() == 2047 && self.fraction() > 0
    }

    /// The significand as a whole number.
    pub open spec fn significand(self) -> nat {
        if self.exponent() == 0 {
            self.fraction()
        } else {
            self.fraction() + 0x10_0000_0000_0000
        }
    }

    /// The power of two that the significand is multiplied by, counted from the smallest one.
    pub open spec fn scale(self) -> nat {
        if self.exponent() == 0 {
            0
        } else {
            (self.exponent() - 1) as nat
        }
    }

    /// Absolute value, as a multiple of the smallest number above zero. The infinities count as
    /// the next power of two above the largest finite number.
    pub open spec fn magnitude(self) -> nat {
        self.significand() * pow2(self.scale())
    }

    /// Value, as a multiple of the smallest number above zero.
    pub open spec fn units(self) -> int {
        if self.negative() {
            -(self.magnitude() as int)
        } else {
            self.magnitude() as int
        }
    }

    /// Whether the value is `num / 2^k` or more.
    pub open spec fn is_at_least(self, num: int, k: nat) -> bool {
        !self.is_nan() && self.units() * pow2(k) >= num * pow2(1074)
    }

    /// Whether the value is more than `num / 2^k`.
    pub open spec fn is_above(self, num: int, k: nat) -> bool {
        !self.is_nan() && self.units() * pow2(k) > num * pow2(1074)
    }

    /// The whole part of the absolute value times `2^k`.
    pub open spec fn floor_times(self, k: nat) -> nat {
        self.magnitude() * pow2(k) / pow2(1074)
    }

    /// Whether the value times `2^k` is whole.
    pub open spec fn whole_times(self, k: nat) -> bool {
        (self.magnitude() * pow2(k)) % pow2(1074) == 0
    }

    /// The whole number closest to the absolute value times `2^k`, the larger of two.
    pub open spec fn round_times(self, k: nat) -> nat {
        (2 * self.magnitude() * pow2(k) + pow2(1074)) / (2 * pow2(1074))
    }

    /// The value without its fractional part, brought into `min..=max`; 0 for what is not a
    /// number.
    pub open spec fn truncated_into(self, min: int, max: int) -> int {
        let n = if self.negative() {
            -(self.floor_times(0) as int)
        } else {
            self.floor_times(0) as int
        };
        if self.is_nan() {
            0
        } else if n < min {
            min
        } else if n > max {
            max
        } else {
            n
        }
    }

    /// The whole number closest to the value, away from zero in case of a tie, brought into
    /// `min..=max`; 0 for what is not a number.
    pub open spec fn rounded_into(self, min: int, max: int) -> int {
        let n = if self.negative() {
            -(self.round_times(0) as int)
        } else {
            self.round_times(0) as int
        };
        if self.is_nan() {
            0
        } else if n < min {
            min
        } else if n > max {
            max
        } else {
            n
        }
    }

    /// The absolute value.
    pub open spec fn absolute(self) -> Double {
        Double { bits: self.bits % 0x8000_0000_0000_0000 }
    }

    /// The absolute value.
    pub fn abs(self) -> (r: Double)
        ensures
            r == self.absolute(),
            !r.negative(),
            r.is_nan() == self.is_nan(),
            r.magnitude() == self.magnitude(),
    {
        Double { bits: self.bits % 0x8000_0000_0000_0000 }
    }

    /// The number with the given encoding.
    pub fn from_bits(bits: u64) -> (r: Double)
        ensures
            r.bits == bits,
    {
        Double { bits }
    }

    /// Whether this is not a number.
    pub fn nan(self) -> (r: bool)
        ensures
            r == self.is_nan(),
    {
        (self.bits / 0x10_0000_0000_0000) % 2048 == 2047 && self.bits % 0x10_0000_0000_0000 > 0
    }

    /// Whole part of the absolute value times `2^k`, up to [`LIMIT`], and whether nothing was cut.
    fn fixed(self, k: u32) -> (r: (u64, bool))
        requires
            k <= 16,
        ensures
            self.floor_times(k as nat) < LIMIT ==> r.0 == self.floor_times(k as nat) && r.1
                == self.whole_times(k as nat),
            self.floor_times(k as nat) >= LIMIT ==> r.0 == LIMIT,
    {
        let e: u64 = (self.bits / 0x10_0000_0000_0000) % 2048;
        let f: u64 = self.bits % 0x10_0000_0000_0000;
        let m: u64 = if e == 0 {
            f
        } else {
            f + 0x10_0000_0000_0000
        };
        let s: u32 = if e == 0 {
            0
        } else {
            (e - 1) as u32
        };
        proof {
            assert(m == self.significand());
            assert(s == self.scale());
        }
        if s + k >= 1074 {
            let ghost up: nat = (s + k - 1074) as nat;
            proof {
                scaled_up(m as nat, s as nat, k as nat);
                lemma_pow2_pos(up);
                lemma_mul_inequality(1, pow2(up) as int, m as int);
                lemma_mul_is_commutative(m as int, pow2(up) as int);
            }
            (LIMIT, true)
        } else {
            let down: u32 = 1074 - s - k;
            proof {
                scaled_down(m as nat, s as nat, k as nat);
                lemma_pow2_pos(down as nat);
            }
            if down <= 53 {
                let p = power_of_two(down);
                proof {
                    lemma2_to64();
                    lemma_pow2_strictly_increases(0, down as nat);
                    lemma_div_is_ordered_by_denominator(m as int, 2, p as int);
                }
                (m / p, m % p == 0)
            } else {
                proof {
                    lemma_pow2_strictly_increases(53, down as nat);
                    lemma2_to64_rest();
                    assert(pow2(53) == 0x20_0000_0000_0000);
                    lemma_basic_div(m as int, pow2(down as nat) as int);
                    lemma_small_mod(m as nat, pow2(down as nat));
                }
                (0, m == 0)
            }
        }
    }

    /// Whether the value is `num / 2^k` or more.
    pub fn at_least(self, num: i64, k: u32) -> (r: bool)
        requires
            k <= 16,
            -LIMIT < num < LIMIT,
        ensures
            r == self.is_at_least(num as int, k as nat),
    {
        if self.nan() {
            return false;
        }
        let (n, whole) = self.fixed(k);
        let negative = self.bits >= 0x8000_0000_0000_0000;
        proof {
            threshold(self.magnitude(), k as nat, num as int);
            threshold(self.magnitude(), k as nat, -(num as int));
            lemma_mul_unary_negation(self.magnitude() as int, pow2(k as nat) as int);
            lemma_mul_unary_negation(num as int, pow2(1074) as int);
        }
        if negative {
            let limit: i64 = -num;
            (n as i64) < limit || ((n as i64) == limit && whole)
        } else {
            n as i64 >= num
        }
    }

    /// Whether the value is more than `num / 2^k`.
    pub fn above(self, num: i64, k: u32) -> (r: bool)
        requires
            k <= 16,
            -LIMIT < num < LIMIT,
        ensures
            r == self.is_above(num as int, k as nat),
    {
        if self.nan() {
            return false;
        }
        let (n, whole) = self.fixed(k);
        let negative = self.bits >= 0x8000_0000_0000_0000;
        proof {
            threshold(self.magnitude(), k as nat, num as int);
            threshold(self.magnitude(), k as nat, -(num as int));
            lemma_mul_unary_negation(self.magnitude() as int, pow2(k as nat) as int);
            lemma_mul_unary_negation(num as int, pow2(1074) as int);
        }
        if negative {
            (n as i64) < -num
        } else {
            n as i64 > num || (n as i64 == num && !whole)
        }
    }

    /// Whether the value is that of `other` or more; never where one is not a number.
    pub open spec fn is_not_below(self, other: Double) -> bool {
        !self.is_nan() && !other.is_nan() && self.units() >= other.units()
    }

    /// Whether the value is that of `other` or more.
    pub fn not_below(self, other: Double) -> (r: bool)
        ensures
            r == self.is_not_below(other),
    {
        if self.nan() || other.nan() {
            return false;
        }
        let a: u64 = self.bits % 0x8000_0000_0000_0000;
        let b: u64 = other.bits % 0x8000_0000_0000_0000;
        let neg_a = self.bits >= 0x8000_0000_0000_0000;
        let neg_b = other.bits >= 0x8000_0000_0000_0000;
        proof {
            magnitudes_grow(self, other);
            magnitudes_grow(other, self);
            zero_magnitude(self);
            zero_magnitude(other);
        }
        if neg_a && neg_b {
            a <= b
        } else if neg_a {
            a == 0 && b == 0
        } else if neg_b {
            true
        } else {
            a >= b
        }
    }

    /// Whole number closest to the absolute value times `2^k`, up to half of [`LIMIT`].
    pub fn round_scaled(self, k: u32) -> (r: u64)
        requires
            k < 16,
        ensures
            self.round_times(k as nat) < LIMIT / 2 ==> r == self.round_times(k as nat),
            self.round_times(k as nat) >= LIMIT / 2 ==> r == LIMIT / 2,
    {
        let (n, _whole) = self.fixed(k + 1);
        proof {
            halving(self.magnitude(), k as nat);
        }
        let r: u64 = (n + 1) / 2;
        if r > LIMIT / 2 {
            LIMIT / 2
        } else {
            r
        }
    }

    /// Drops the fractional part and brings the value into `min..=max`.
    pub fn truncate_into(self, min: i64, max: i64) -> (r: i64)
        requires
            -LIMIT < min <= 0 <= max < LIMIT,
        ensures
            r == self.truncated_into(min as int, max as int),
    {
        if self.nan() {
            return 0;
        }
        let (n, _whole) = self.fixed(0);
        if self.bits >= 0x8000_0000_0000_0000 {
            if (n as i64) > -min {
                min
            } else {
                -(n as i64)
            }
        } else if n as i64 > max {
            max
        } else {
            n as i64
        }
    }

    /// Rounds to the closest whole number and brings it into `min..=max`.
    pub fn round_into(self, min: i64, max: i64) -> (r: i64)
        requires
            -LIMIT / 2 < min <= 0 <= max < LIMIT / 2,
        ensures
            r == self.rounded_into(min as int, max as int),
    {
        if self.nan() {
            return 0;
        }
        let n: u64 = self.round_scaled(0);
        if self.bits >= 0x8000_0000_0000_0000 {
            if (n as i64) > -min {
                min
            } else {
                -(n as i64)
            }
        } else if n as i64 > max {
            max
        } else {
            n as i64
        }
    }
}

/// The larger of two encodings, apart from their signs, has the larger magnitude.
proof fn magnitudes_grow(x: Double, y: Double)
    ensures
        x.bits % 0x8000_0000_0000_0000 < y.bits % 0x8000_0000_0000_0000 ==> x.magnitude()
            < y.magnitude(),
        x.bits % 0x8000_0000_0000_0000 == y.bits % 0x8000_0000_0000_0000 ==> x.magnitude()
            == y.magnitude(),
{
    let a = x.bits % 0x8000_0000_0000_0000;
    let b = y.bits % 0x8000_0000_0000_0000;
    assert(x.exponent() == a / 0x10_0000_0000_0000 && x.fraction() == a % 0x10_0000_0000_0000);
    assert(y.exponent() == b / 0x10_0000_0000_0000 && y.fraction() == b % 0x10_0000_0000_0000);
    if a < b {
        let (m, s) = (x.significand() as int, x.scale());
        let (n, t) = (y.significand() as int, y.scale());
        let p = pow2(s) as int;
        lemma_pow2_pos(s);
        lemma_pow2_pos(t);
        if s == t {
            assert(m < n);
            lemma_mul_strict_inequality(m, n, p);
        } else {
            assert(s < t);
            lemma_pow2_unfold(t);
            let q = pow2((t - 1) as nat) as int;
            if s < t - 1 {
                lemma_pow2_strictly_increases(s, (t - 1) as nat);
            }
            assert(m < 0x20_0000_0000_0000);
            assert(n >= 0x10_0000_0000_0000);
            assert(m * p < n * (2 * q)) by (nonlinear_arith)
                requires
                    0 <= m < 0x20_0000_0000_0000,
                    n >= 0x10_0000_0000_0000,
                    0 < p <= q,
            ;
        }
    }
}

proof fn zero_magnitude(x: Double)
    ensures
        x.magnitude() == 0 <==> x.bits % 0x8000_0000_0000_0000 == 0,
{
    lemma_pow2_pos(x.scale());
    let m = x.significand() as int;
    let p = pow2(x.scale()) as int;
    assert(m * p == 0 <==> m == 0) by (nonlinear_arith)
        requires
            p > 0,
    ;
    assert(x.bits % 0x8000_0000_0000_0000 == 0 <==> x.exponent() == 0 && x.fraction() == 0);
}

/// `2^n`.
fn power_of_two(n: u32) -> (r: u64)
    requires
        n <= 53,
    ensures
        r == pow2(n as nat),
{
    let mut r: u64 = 1;
    let mut i: u32 = 0;
    proof {
        lemma2_to64();
    }
    while i < n
        invariant
            i <= n <= 53,
            r == pow2(i as nat),
        decreases n - i,
    {
        proof {
            lemma_pow2_unfold((i + 1) as nat);
            lemma_pow2_strictly_increases(i as nat, 53);
            lemma2_to64_rest();
            assert(pow2(53) == 0x20_0000_0000_0000);
        }
        r = r * 2;
        i += 1;
    }
    r
}

proof fn scaled_up(m: nat, s: nat, k: nat)
    requires
        s + k >= 1074,
    ensures
        m * pow2(s) * pow2(k) / pow2(1074) == m * pow2((s + k - 1074) as nat),
{
    let up = (s + k - 1074) as nat;
    lemma_pow2_adds(s, k);
    lemma_pow2_adds(up, 1074);
    lemma_pow2_pos(1074);
    lemma_mul_is_associative(m as int, pow2(s) as int, pow2(k) as int);
    lemma_mul_is_associative(m as int, pow2(up) as int, pow2(1074) as int);
    lemma_div_multiples_vanish((m * pow2(up)) as int, pow2(1074) as int);
    lemma_mul_is_commutative((m * pow2(up)) as int, pow2(1074) as int);
}

proof fn scaled_down(m: nat, s: nat, k: nat)
    requires
        s + k < 1074,
    ensures
        m * pow2(s) * pow2(k) / pow2(1074) == m / pow2((1074 - s - k) as nat),
        (m * pow2(s) * pow2(k)) % pow2(1074) == 0 <==> m % pow2((1074 - s - k) as nat) == 0,
{
    let down = (1074 - s - k) as nat;
    let a = pow2(s + k) as int;
    let d = pow2(down) as int;
    lemma_pow2_adds(s, k);
    lemma_pow2_adds(s + k, down);
    lemma_pow2_pos(s + k);
    lemma_pow2_pos(down);
    lemma_mul_is_associative(m as int, pow2(s) as int, pow2(k) as int);
    lemma_mul_is_commutative(m as int, a);
    assert(m * pow2(s) * pow2(k) == a * m);
    assert(pow2(1074) == a * d);
    lemma_div_multiples_vanish_quotient(a, m as int, d);
    lemma_mul_strictly_positive(a, d);
    lemma_fundamental_div_mod(a * m, a * d);
    lemma_fundamental_div_mod(m as int, d);
    let q = m as int / d;
    lemma_mul_is_associative(a, d, q);
    lemma_mul_is_distributive_add(a, d * q, m as int % d);
    assert((a * m) % (a * d) == a * (m as int % d));
    if m as int % d == 0 {
    } else {
        lemma_mul_strictly_positive(a, m as int % d);
    }
}

proof fn threshold(mag: nat, k: nat, t: int)
    ensures
        mag * pow2(k) >= t * pow2(1074) <==> mag * pow2(k) / pow2(1074) >= t,
        mag * pow2(k) > t * pow2(1074) <==> (mag * pow2(k) / pow2(1074) > t || (mag * pow2(k)
            / pow2(1074) == t && (mag * pow2(k)) % pow2(1074) != 0)),
{
    let u = pow2(1074) as int;
    let x = (mag * pow2(k)) as int;
    lemma_pow2_pos(1074);
    lemma_fundamental_div_mod(x, u);
    let q = x / u;
    let r = x % u;
    assert(0 <= r < u) by {
        lemma_mod_bound(x, u);
    }
    assert(x == u * q + r);
    lemma_mul_is_commutative(u, q);
    if q > t {
        lemma_mul_inequality(t + 1, q, u);
        lemma_mul_is_distributive_add_other_way(u, t, 1);
    } else if q < t {
        lemma_mul_inequality(q + 1, t, u);
        lemma_mul_is_distributive_add_other_way(u, q, 1);
    }
}

proof fn halving(mag: nat, k: nat)
    ensures
        (2 * mag * pow2(k) + pow2(1074)) / (2 * pow2(1074)) == ((mag * pow2(k + 1) / pow2(1074))
            + 1) / 2,
{
    let u = pow2(1074) as int;
    lemma_pow2_pos(1074);
    lemma_pow2_unfold(k + 1);
    let x = (mag * pow2(k + 1)) as int;
    assert(2 * mag * pow2(k) == x) by {
        lemma_mul_is_associative(mag as int, 2, pow2(k) as int);
        lemma_mul_is_commutative(mag as int, 2);
    }
    lemma_mul_is_commutative(2, u);
    lemma_div_denominator(x + u, u, 2);
    lemma_div_plus_one(x, u);
}

/// A number without its sign is greater exactly if its bits without the sign are.
pub proof fn greater_bits_are_greater_numbers(x: Double, y: Double)
    ensures
        x.magnitude() < y.magnitude() <==> x.bits % 0x8000_0000_0000_0000 < y.bits
            % 0x8000_0000_0000_0000,
        x.magnitude() == 0 <==> x.bits % 0x8000_0000_0000_0000 == 0,
{
    magnitudes_grow(x, y);
    magnitudes_grow(y, x);
    zero_magnitude(x);
}

/// A number that is cut to a whole one loses less than one, and never gets further from zero.
pub proof fn cutting_loses_less_than_one(x: Double, min: int, max: int)
    requires
        !x.is_nan(),
        min < x.truncated_into(min, max) < max,
    ensures
        x.truncated_into(min, max) >= 0 && !x.negative() ==> x.truncated_into(min, max) * pow2(1074)
            <= x.units() < (x.truncated_into(min, max) + 1) * pow2(1074),
        x.negative() ==> (x.truncated_into(min, max) - 1) * pow2(1074) < x.units()
            <= x.truncated_into(min, max) * pow2(1074),
{
    let m = x.magnitude() as int;
    let p = pow2(1074) as int;
    lemma_pow2_pos(1074);
    lemma2_to64();
    assert(x.magnitude() * pow2(0) == m) by (nonlinear_arith)
        requires
            pow2(0) == 1,
            m == x.magnitude(),
    ;
    let q = m / p;
    assert(q * p <= m < (q + 1) * p) by (nonlinear_arith)
        requires
            p > 0,
            q == m / p,
    ;
    assert((-q) * p == -(q * p)) by (nonlinear_arith);
    assert((-q - 1) * p == -((q + 1) * p)) by (nonlinear_arith);
}

/// A number that is rounded to a whole one changes by half of one at most.
pub proof fn rounding_changes_half_at_most(x: Double, min: int, max: int)
    requires
        !x.is_nan(),
        min < x.rounded_into(min, max) < max,
    ensures
        -pow2(1074) <= 2 * (x.units() - x.rounded_into(min, max) * pow2(1074)) <= pow2(1074),
        x.negative() ==> x.rounded_into(min, max) <= 0,
        !x.negative() ==> x.rounded_into(min, max) >= 0,
{
    let m = x.magnitude() as int;
    let p = pow2(1074) as int;
    lemma_pow2_pos(1074);
    lemma2_to64();
    assert(2 * x.magnitude() * pow2(0) == 2 * m) by (nonlinear_arith)
        requires
            pow2(0) == 1,
            m == x.magnitude(),
    ;
    let r = (2 * m + p) / (2 * p);
    assert(r >= 0 && 2 * p * r <= 2 * m + p < 2 * p * (r + 1)) by (nonlinear_arith)
        requires
            p > 0,
            m >= 0,
            r == (2 * m + p) / (2 * p),
    ;
    assert(2 * p * r == 2 * (r * p)) by (nonlinear_arith);
    assert(2 * p * (r + 1) == 2 * (r * p) + 2 * p) by (nonlinear_arith);
    assert((-r) * p == -(r * p)) by (nonlinear_arith);
}

/// What is not a number is neither at least nor above anything, and is 0 where a whole number is
/// wanted.
pub proof fn no_number_compares(x: Double, y: Double, num: int, k: nat, min: int, max: int)
    requires
        x.is_nan(),
    ensures
        !x.is_at_least(num, k),
        !x.is_above(num, k),
        !x.is_not_below(y),
        !y.is_not_below(x),
        x.truncated_into(min, max) == 0,
        x.rounded_into(min, max) == 0,
{
}

/// A number above a limit is at least the limit, and any number is above it or not above it.
pub proof fn limits_part_the_numbers(x: Double, num: int, k: nat)
    requires
        !x.is_nan(),
    ensures
        x.is_above(num, k) ==> x.is_at_least(num, k),
        x.is_at_least(num + 1, k) ==> x.is_above(num, k),
        x.is_at_least(num, k) && !x.is_above(num, k) ==> x.units() * pow2(k) == num * pow2(1074),
{
    lemma_pow2_pos(1074);
    assert((num + 1) * pow2(1074) > num * pow2(1074)) by (nonlinear_arith)
        requires
            pow2(1074) > 0,
    ;
}

}
