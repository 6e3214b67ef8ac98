//! Double precision numbers printed with a fixed number of digits.

use vstd::arithmetic::div_mod::*;
use vstd::arithmetic::mul::*;
use vstd::arithmetic::power2::*;
use vstd::prelude::*;

use crate::double::Double;
use crate::numeral;
use crate::quotient;
use crate::text;

verus! {

/// Sign in front of a number; a plus sign only where it is asked for.
pub open spec fn sign_text(d: Double, plus: bool) -> Seq<char> {
    if d.negative() {
        "-"@
    } else if plus {
        "+"@
    } else {
        Seq::empty()
    }
}

/// Whether a number is infinite.
pub open spec fn is_infinite(d: Double) -> bool {
    d.exponent() == 2047 && d.fraction() == 0
}

/// A number of hundredths, with two digits behind the point.
pub open spec fn hundredths_text(n: nat) -> Seq<char> {
    numeral::decimal_text(n / 100).push('.').push(numeral::digit_char(n / 10 % 10)).push(
        numeral::digit_char(n % 10),
    )
}

/// A number rounded to a whole one, the even one of two.
pub open spec fn whole_text(d: Double) -> Seq<char> {
    if d.is_nan() {
        "NaN"@
    } else if is_infinite(d) {
        sign_text(d, false) + "inf"@
    } else {
        sign_text(d, false) + numeral::decimal_text(
            quotient::round_even(d.magnitude(), pow2(1074)),
        )
    }
}

/// A number with its sign, rounded to two digits behind the point, to the even one of two.
pub open spec fn signed_hundredths_text(d: Double) -> Seq<char> {
    if d.is_nan() {
        "NaN"@
    } else if is_infinite(d) {
        sign_text(d, true) + "inf"@
    } else {
        sign_text(d, true) + hundredths_text(
            quotient::round_even(100 * d.magnitude(), pow2(1074)),
        )
    }
}

// Decimal digits of large numbers

/// The decimal text of a number does not start with a zero, but for zero itself.
proof fn no_leading_zero(n: nat)
    requires
        n > 0,
    ensures
        numeral::decimal_text(n)[0] != '0',
    decreases n,
{
    if n >= 10 {
        no_leading_zero(n / 10);
        numeral::decimal_reads_back(n / 10);
    }
}

proof fn digits_are_positive(s: Seq<char>)
    requires
        s.len() > 0,
        numeral::all_digits(s),
        s[0] != '0',
    ensures
        numeral::digits_value(s) >= 1,
    decreases s.len(),
{
    if s.len() == 1 {
        assert(s.last() == s[0]);
        assert(numeral::is_digit(s[0]));
        assert(s.drop_last().len() == 0);
    } else {
        let t = s.drop_last();
        assert forall|i: int| 0 <= i < t.len() implies numeral::is_digit(#[trigger] t[i]) by {
            assert(t[i] == s[i]);
        }
        digits_are_positive(t);
    }
}

/// Decimal text of twice the number that the first `k` digits write, plus `carry`.
fn doubled(v: &Vec<char>, k: usize, carry: u64) -> (r: String)
    requires
        0 < k <= v@.len(),
        carry <= 1,
        numeral::all_digits(v@),
        k > 1 ==> v@[0] != '0',
    ensures
        r@ == numeral::decimal_text(
            (2 * numeral::digits_value(v@.take(k as int)) + carry) as nat,
        ),
    decreases k,
{
    let c = v[k - 1];
    let ghost s = v@.take(k as int);
    let ghost n = numeral::digits_value(s);
    assert(numeral::is_digit(v@[k - 1]));
    assert(s.last() == c);
    assert(s.drop_last() =~= v@.take(k - 1));
    let d: u64 = (c as u32 - 48) as u64;
    if k == 1 {
        assert(s.drop_last().len() == 0);
        assert(numeral::digits_value(s.drop_last()) == 0);
        numeral::decimal(2 * d + carry)
    } else {
        let x: u64 = 2 * d + carry;
        let ghost a = numeral::digits_value(v@.take(k - 1));
        proof {
            let t = v@.take(k - 1);
            assert forall|i: int| 0 <= i < t.len() implies numeral::is_digit(#[trigger] t[i]) by {
                assert(t[i] == v@[i]);
            }
            digits_are_positive(t);
            assert(n == 10 * a + d);
            assert(2 * n + carry == 10 * (2 * a + x as int / 10) + x as int % 10);
        }
        let mut r = doubled(v, k - 1, x / 10);
        r.push((48u8 + (x % 10) as u8) as char);
        r
    }
}

/// Decimal text of `x` doubled `k` times.
fn large_decimal(x: u64, k: u32) -> (r: String)
    ensures
        r@ == numeral::decimal_text(x as nat * pow2(k as nat)),
{
    let mut r = numeral::decimal(x);
    let mut i: u32 = 0;
    proof {
        lemma2_to64();
        assert(x as nat * 1 == x);
    }
    while i < k
        invariant
            i <= k,
            r@ == numeral::decimal_text(x as nat * pow2(i as nat)),
        decreases k - i,
    {
        let v = text::chars_of(r.as_str());
        let n: usize = v.len();
        proof {
            let value = x as nat * pow2(i as nat);
            numeral::decimal_reads_back(value);
            if value > 0 {
                no_leading_zero(value);
            } else {
                assert(numeral::decimal_text(0).len() == 1);
            }
            assert(v@.take(n as int) =~= v@);
            lemma_pow2_unfold((i + 1) as nat);
            assert(2 * (x as nat * pow2(i as nat)) == x as nat * (2 * pow2(i as nat)))
                by (nonlinear_arith);
        }
        r = doubled(&v, n, 0);
        i += 1;
    }
    r
}

/// The factor 1 or 100 is carried through the rounding.
proof fn rounding_scaled(m: nat, f: nat, s: nat)
    ensures
        s >= 1074 ==> quotient::round_even(f * (m * pow2(s)), pow2(1074)) == (f * m) * pow2(
            (s - 1074) as nat,
        ),
        s < 1074 ==> quotient::round_even(f * (m * pow2(s)), pow2(1074)) == quotient::round_even(
            f * m,
            pow2((1074 - s) as nat),
        ),
{
    let u = pow2(1074) as int;
    lemma_pow2_pos(1074);
    lemma_mul_is_associative(f as int, m as int, pow2(s) as int);
    let x = (f * m) as int;
    assert(f * (m * pow2(s)) == x * pow2(s));
    if s >= 1074 {
        let up = (s - 1074) as nat;
        lemma_pow2_adds(up, 1074);
        lemma_mul_is_associative(x, pow2(up) as int, u);
        let y = x * pow2(up);
        assert(x * pow2(s) == y * u);
        lemma_div_multiples_vanish(y, u);
        lemma_mul_is_commutative(y, u);
        lemma_mod_multiples_basic(y, u);
    } else {
        let down = (1074 - s) as nat;
        let a = pow2(s) as int;
        let d = pow2(down) as int;
        lemma_pow2_adds(s, down);
        lemma_pow2_pos(s);
        lemma_pow2_pos(down);
        lemma_mul_is_commutative(x, a);
        assert(x * a == a * x);
        assert(u == a * d);
        lemma_div_multiples_vanish_quotient(a, x, d);
        lemma_fundamental_div_mod(a * x, a * d);
        lemma_fundamental_div_mod(x, d);
        let q = x / d;
        let r = x % d;
        lemma_mul_is_associative(a, d, q);
        lemma_mul_is_distributive_add(a, d * q, r);
        assert((a * x) % (a * d) == a * r);
        assert((2 * (a * r) < a * d) == (2 * r < d)) by (nonlinear_arith)
            requires
                a > 0,
        ;
        assert((2 * (a * r) == a * d) == (2 * r == d)) by (nonlinear_arith)
            requires
                a > 0,
        ;
    }
}

/// Rounding what is less than half gives nothing.
proof fn rounding_small(x: nat, down: nat)
    requires
        x < 0x1000_0000_0000_0000,
        down >= 62,
    ensures
        quotient::round_even(x, pow2(down)) == 0,
{
    lemma2_to64_rest();
    if down > 62 {
        lemma_pow2_strictly_increases(62, down);
    }
    let p = pow2(down) as int;
    assert(2 * x < p);
    lemma_small_mod(x, pow2(down));
    lemma_basic_div(x as int, p);
}

/// Decimal text of `factor` times the absolute value of a finite number, rounded to a whole
/// number.
fn rounded_decimal(d: Double, factor: u64) -> (r: String)
    requires
        0 < factor <= 100,
    ensures
        r@ == numeral::decimal_text(
            quotient::round_even((factor * d.magnitude()) as nat, pow2(1074)),
        ),
{
    let e: u64 = (d.bits / 0x10_0000_0000_0000) % 2048;
    let f: u64 = d.bits % 0x10_0000_0000_0000;
    let m: u64 = if e == 0 {
        f
    } else {
        f + 0x10_0000_0000_0000
    };
    let s: u32 = if e == 0 {
        0
    } else {
        (e - 1) as u32
    };
    proof {
        assert(m == d.significand());
        assert(s == d.scale());
        rounding_scaled(m as nat, factor as nat, s as nat);
        assert(factor * m <= 100 * 0x20_0000_0000_0000) by (nonlinear_arith)
            requires
                factor <= 100,
                m <= 0x20_0000_0000_0000,
        ;
    }
    let x: u64 = factor * m;
    if s >= 1074 {
        large_decimal(x, s - 1074)
    } else {
        let down: u32 = 1074 - s;
        if down >= 62 {
            proof {
                rounding_small(x as nat, down as nat);
            }
            numeral::decimal(0)
        } else {
            let p: u128 = power(down);
            let n: u128 = quotient::round_half_even(x as u128, p);
            numeral::decimal(n as u64)
        }
    }
}

fn power(n: u32) -> (r: u128)
    requires
        n <= 62,
    ensures
        r == pow2(n as nat),
        0 < r <= 0x4000_0000_0000_0000,
{
    let mut r: u128 = 1;
    let mut i: u32 = 0;
    proof {
        lemma2_to64();
        lemma2_to64_rest();
        if n < 62 {
            lemma_pow2_strictly_increases(n as nat, 62);
        }
    }
    while i < n
        invariant
            i <= n <= 62,
            r == pow2(i as nat),
            0 < r,
        decreases n - i,
    {
        proof {
            lemma_pow2_unfold((i + 1) as nat);
            lemma_pow2_strictly_increases(i as nat, 62);
            lemma2_to64_rest();
        }
        r = r * 2;
        i += 1;
    }
    r
}

fn finite(d: Double) -> (r: bool)
    ensures
        r == (!d.is_nan() && !is_infinite(d)),
{
    (d.bits / 0x10_0000_0000_0000) % 2048 != 2047
}

fn write_sign(d: Double, plus: bool) -> (r: String)
    ensures
        r@ == sign_text(d, plus),
{
    if d.bits >= 0x8000_0000_0000_0000 {
        "-".to_owned()
    } else if plus {
        "+".to_owned()
    } else {
        String::new()
    }
}

/// Prints a number rounded to a whole one.
pub fn whole(d: Double) -> (r: String)
    ensures
        r@ == whole_text(d),
{
    if d.nan() {
        return "NaN".to_owned();
    }
    let mut r = write_sign(d, false);
    if finite(d) {
        let n = rounded_decimal(d, 1);
        r.append(n.as_str());
    } else {
        r.append("inf");
    }
    r
}

/// Prints a number with its sign and two digits behind the point.
pub fn signed_hundredths(d: Double) -> (r: String)
    ensures
        r@ == signed_hundredths_text(d),
{
    if d.nan() {
        return "NaN".to_owned();
    }
    let mut r = write_sign(d, true);
    if finite(d) {
        let t = rounded_decimal(d, 100);
        let ghost n = quotient::round_even(100 * d.magnitude(), pow2(1074));
        let v = text::chars_of(t.as_str());
        let k: usize = v.len();
        proof {
            numeral::decimal_reads_back(n);
            numeral::decimal_len(n);
            split_hundredths(n);
        }
        if k >= 3 {
            let whole_part = text::slice_text(&v, 0, k - 2);
            r.append(whole_part.as_str());
            r.push('.');
            r.push(v[k - 2]);
            r.push(v[k - 1]);
        } else if k == 2 {
            r.append("0.");
            r.push(v[0]);
            r.push(v[1]);
        } else {
            r.append("0.0");
            r.push(v[0]);
        }
        proof {
            reveal_strlit("0.");
            reveal_strlit("0.0");
        }
        assert(r@ =~= sign_text(d, true) + hundredths_text(n));
    } else {
        r.append("inf");
    }
    r
}

proof fn split_hundredths(n: nat)
    ensures
        ({
            let t = numeral::decimal_text(n);
            let k = t.len();
            &&& k >= 3 ==> {
                &&& n >= 100
                &&& t.subrange(0, k - 2) == numeral::decimal_text(n / 100)
                &&& t[k - 2] == numeral::digit_char(n / 10 % 10)
                &&& t[k - 1] == numeral::digit_char(n % 10)
            }
            &&& k == 2 ==> {
                &&& n / 100 == 0
                &&& t[0] == numeral::digit_char(n / 10 % 10)
                &&& t[1] == numeral::digit_char(n % 10)
            }
            &&& k == 1 ==> {
                &&& n / 100 == 0
                &&& n / 10 % 10 == 0
                &&& t[0] == numeral::digit_char(n % 10)
            }
            &&& numeral::decimal_text(0) == seq!['0']
        }),
{
    numeral::decimal_len(n);
    let t = numeral::decimal_text(n);
    reveal_with_fuel(numeral::decimal_text, 3);
    if n >= 100 {
        assert(n / 10 / 10 == n / 100);
        numeral::decimal_reads_back(n / 100);
        let head = numeral::decimal_text(n / 100);
        assert(t =~= head.push(numeral::digit_char(n / 10 % 10)).push(
            numeral::digit_char(n % 10),
        ));
        assert(t.subrange(0, t.len() - 2) =~= head);
    }
    assert(numeral::decimal_text(0) =~= seq!['0']);
}

/// Hundredths are written with two digits behind the point.
pub proof fn hundredths_have_two_digits(whole: nat, tenth: nat, hundredth: nat)
    requires
        tenth < 10,
        hundredth < 10,
    ensures
        hundredths_text(100 * whole + 10 * tenth + hundredth) == numeral::decimal_text(whole) + seq![
            '.',
            "0123456789"@[tenth as int],
            "0123456789"@[hundredth as int],
        ],
{
    reveal_strlit("0123456789");
    let n = 100 * whole + 10 * tenth + hundredth;
    assert(n / 100 == whole && n / 10 % 10 == tenth && n % 10 == hundredth);
    assert(hundredths_text(n) =~= numeral::decimal_text(whole) + seq![
        '.',
        "0123456789"@[tenth as int],
        "0123456789"@[hundredth as int],
    ]);
}

/// A number is written as the closest whole one, the even one of two, with a minus sign where it is
/// negative and none else.
pub proof fn whole_numbers_are_closest(d: Double, n: nat)
    requires
        d.exponent() < 2047,
        2 * d.magnitude() < (2 * n + 1) * pow2(1074),
        (2 * n - 1) * pow2(1074) < 2 * d.magnitude(),
    ensures
        whole_text(d) == if d.negative() {
            seq!['-'] + numeral::decimal_text(n)
        } else {
            numeral::decimal_text(n)
        },
{
    reveal_strlit("-");
    the_closest_is_unique(d.magnitude(), pow2(1074), n);
    assert("-"@ =~= seq!['-']);
    assert(Seq::<char>::empty() + numeral::decimal_text(n) =~= numeral::decimal_text(n));
}

/// A change is written with the closest hundredths, the even ones of two, and always with its sign.
pub proof fn changes_have_the_closest_hundredths(d: Double, n: nat)
    requires
        d.exponent() < 2047,
        200 * d.magnitude() < (2 * n + 1) * pow2(1074),
        (2 * n - 1) * pow2(1074) < 200 * d.magnitude(),
    ensures
        signed_hundredths_text(d) == seq![
            if d.negative() {
                '-'
            } else {
                '+'
            },
        ] + hundredths_text(n),
{
    reveal_strlit("-");
    reveal_strlit("+");
    the_closest_is_unique(100 * d.magnitude(), pow2(1074), n);
    assert("-"@ =~= seq!['-']);
    assert("+"@ =~= seq!['+']);
}

proof fn the_closest_is_unique(x: nat, d: nat, n: nat)
    requires
        2 * x < (2 * n + 1) * d,
        (2 * n - 1) * d < 2 * x,
    ensures
        quotient::round_even(x, d) == n,
{
    assert(d > 0) by (nonlinear_arith)
        requires
            2 * x < (2 * n + 1) * d,
            x >= 0,
            d >= 0,
    ;
    quotient::rounding_is_closest(x, d);
    let e = quotient::round_even(x, d) as int;
    let y = 2 * x as int;
    assert(e <= n) by (nonlinear_arith)
        requires
            d > 0,
            d * (2 * e) <= y + d,
            y < (2 * n + 1) * d,
    ;
    assert(e >= n) by (nonlinear_arith)
        requires
            d > 0,
            y <= d * (2 * e + 1),
            (2 * n - 1) * d < y,
    ;
}

/// What is not a number, and what is infinite, is told by name.
pub proof fn other_doubles_have_names(d: Double)
    requires
        d.exponent() == 2047,
    ensures
        d.fraction() > 0 ==> whole_text(d) == "NaN"@ && signed_hundredths_text(d) == "NaN"@,
        d.fraction() == 0 && d.negative() ==> whole_text(d) == "-"@ + "inf"@
            && signed_hundredths_text(d) == "-"@ + "inf"@,
        d.fraction() == 0 && !d.negative() ==> whole_text(d) == "inf"@ && signed_hundredths_text(d)
            == "+"@ + "inf"@,
{
    assert(Seq::<char>::empty() + "inf"@ =~= "inf"@);
}

}
