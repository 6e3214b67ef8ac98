//! Numbers written in decimal and hexadecimal.

use vstd::prelude::*;

use crate::text;

verus! {

/// Whether `c` is an ASCII decimal digit.
pub open spec fn is_digit(c: char) -> bool {
    '0' <= c <= '9'
}

/// Whether every character of `s` is a decimal digit.
pub open spec fn all_digits(s: Seq<char>) -> bool {
    forall|i: int| 0 <= i < s.len() ==> is_digit(#[trigger] s[i])
}

/// Value of a decimal digit.
pub open spec fn digit_value(c: char) -> nat {
    (c as u32 - 48) as nat
}

/// Value of a text read as decimal digits, the most significant first.
pub open spec fn digits_value(s: Seq<char>) -> nat
    decreases s.len(),
{
    if s.len() == 0 {
        0
    } else {
        10 * digits_value(s.drop_last()) + digit_value(s.last())
    }
}

/// Number written by `s`: decimal digits, at least one, perhaps after a plus sign; nothing where
/// the number is above `max`.
pub open spec fn unsigned_value(s: Seq<char>, max: nat) -> Option<nat> {
    let d = if s.len() > 0 && s[0] == '+' {
        s.skip(1)
    } else {
        s
    };
    if d.len() > 0 && all_digits(d) && digits_value(d) <= max {
        Some(digits_value(d))
    } else {
        None
    }
}

/// Number written by `s` with an optional sign; nothing where it is outside `min..=max`.
pub open spec fn signed_value(s: Seq<char>, min: int, max: int) -> Option<int> {
    let negative = s.len() > 0 && s[0] == '-';
    let d = if s.len() > 0 && (s[0] == '+' || s[0] == '-') {
        s.skip(1)
    } else {
        s
    };
    let n = if negative {
        -(digits_value(d) as int)
    } else {
        digits_value(d) as int
    };
    if d.len() > 0 && all_digits(d) && min <= n <= max {
        Some(n)
    } else {
        None
    }
}

proof fn digits_value_grows(s: Seq<char>, k: int)
    requires
        0 <= k <= s.len(),
        all_digits(s),
    ensures
        digits_value(s.take(k)) <= digits_value(s),
    decreases s.len() - k,
{
    if k < s.len() {
        assert(s.take(k + 1).drop_last() =~= s.take(k));
        digits_value_grows(s, k + 1);
    } else {
        assert(s.take(k) =~= s);
    }
}

/// Reads the characters from `from` on as decimal digits; nothing where there is none, where one
/// is no digit, or where the number is above `max`.
fn read_digits(v: &Vec<char>, from: usize, max: u64) -> (r: Option<u64>)
    requires
        from <= v.len(),
    ensures
        ({
            let d = v@.skip(from as int);
            match r {
                Some(n) => d.len() > 0 && all_digits(d) && n == digits_value(d) && n <= max,
                None => !(d.len() > 0 && all_digits(d) && digits_value(d) <= max),
            }
        }),
{
    let ghost d = v@.skip(from as int);
    if from >= v.len() {
        return None;
    }
    let mut acc: u64 = 0;
    let mut i: usize = from;
    while i < v.len()
        invariant
            from <= i <= v.len(),
            d == v@.skip(from as int),
            acc <= max,
            forall|j: int| 0 <= j < i - from ==> is_digit(#[trigger] d[j]),
            acc == digits_value(d.take(i - from)),
        decreases v.len() - i,
    {
        let c = v[i];
        assert(d[i - from] == c);
        if c < '0' || c > '9' {
            assert(!is_digit(d[i - from]));
            return None;
        }
        let x: u64 = (c as u32 - 48) as u64;
        assert(d.take(i - from + 1).drop_last() =~= d.take(i - from));
        assert(d.take(i - from + 1).last() == c);
        let next: u128 = acc as u128 * 10 + x as u128;
        if next > max as u128 {
            proof {
                if all_digits(d) {
                    digits_value_grows(d, i - from + 1);
                }
            }
            return None;
        }
        acc = next as u64;
        i += 1;
    }
    assert(d.take(i - from) =~= d);
    Some(acc)
}

/// Reads an unsigned decimal number of at most `max`.
pub fn parse_unsigned(s: &str, max: u64) -> (r: Option<u64>)
    ensures
        match r {
            Some(n) => unsigned_value(s@, max as nat) == Some(n as nat),
            None => unsigned_value(s@, max as nat) is None,
        },
{
    let v = text::chars_of(s);
    if v.len() > 0 && v[0] == '+' {
        read_digits(&v, 1, max)
    } else {
        assert(v@.skip(0) =~= s@);
        read_digits(&v, 0, max)
    }
}

/// Reads a signed decimal number between `min` and `max`.
pub fn parse_signed(s: &str, min: i64, max: i64) -> (r: Option<i64>)
    requires
        i64::MIN < min <= 0 <= max,
    ensures
        match r {
            Some(n) => signed_value(s@, min as int, max as int) == Some(n as int),
            None => signed_value(s@, min as int, max as int) is None,
        },
{
    let v = text::chars_of(s);
    if v.len() > 0 && v[0] == '-' {
        let limit: u64 = (-min) as u64;
        match read_digits(&v, 1, limit) {
            Some(n) => Some(-(n as i64)),
            None => None,
        }
    } else {
        let from: usize = if v.len() > 0 && v[0] == '+' {
            1
        } else {
            0
        };
        assert(v@.skip(0) =~= s@);
        match read_digits(&v, from, max as u64) {
            Some(n) => Some(n as i64),
            None => None,
        }
    }
}

/// The character of a decimal digit.
pub open spec fn digit_char(n: nat) -> char {
    (48 + n) as char
}

/// `n` written in decimal, without leading zeros.
pub open spec fn decimal_text(n: nat) -> Seq<char>
    decreases n,
{
    if n < 10 {
        seq![digit_char(n)]
    } else {
        decimal_text(n / 10).push(digit_char(n % 10))
    }
}

/// `n` written in decimal, with a minus sign where it is negative.
pub open spec fn signed_text(n: int) -> Seq<char> {
    if n < 0 {
        seq!['-'] + decimal_text((-n) as nat)
    } else {
        decimal_text(n as nat)
    }
}

/// Writes `n` in decimal.
pub fn decimal(n: u64) -> (r: String)
    ensures
        r@ == decimal_text(n as nat),
    decreases n,
{
    if n < 10 {
        let mut r = String::new();
        r.push((48u8 + n as u8) as char);
        r
    } else {
        let mut r = decimal(n / 10);
        r.push((48u8 + (n % 10) as u8) as char);
        r
    }
}

/// Writes `n` in decimal.
pub fn signed_decimal(n: i64) -> (r: String)
    requires
        n > i64::MIN,
    ensures
        r@ == signed_text(n as int),
{
    if n < 0 {
        let mut r = String::new();
        r.push('-');
        let d = decimal((-n) as u64);
        r.append(d.as_str());
        r
    } else {
        decimal(n as u64)
    }
}

/// Reading back a number that was written in decimal gives the number.
pub proof fn decimal_reads_back(n: nat)
    ensures
        decimal_text(n).len() > 0,
        all_digits(decimal_text(n)),
        digits_value(decimal_text(n)) == n,
        forall|max: nat| n <= max ==> #[trigger] unsigned_value(decimal_text(n), max) == Some(n),
    decreases n,
{
    let s = decimal_text(n);
    if n < 10 {
        assert(s.drop_last() =~= Seq::<char>::empty());
        assert(digits_value(s.drop_last()) == 0);
        assert(digit_value(digit_char(n)) == n);
    } else {
        decimal_reads_back(n / 10);
        assert(s.drop_last() =~= decimal_text(n / 10));
        assert(digit_value(digit_char(n % 10)) == n % 10);
        assert forall|i: int| 0 <= i < s.len() implies is_digit(#[trigger] s[i]) by {
            if i < s.len() - 1 {
                assert(s[i] == decimal_text(n / 10)[i]);
            }
        }
    }
    assert(s[0] != '+') by {
        assert(is_digit(s[0]));
    }
}

/// Number of bytes of a number below ten, a hundred, a thousand.
pub proof fn decimal_len(n: nat)
    ensures
        n < 10 ==> decimal_text(n).len() == 1,
        10 <= n < 100 ==> decimal_text(n).len() == 2,
        100 <= n < 1000 ==> decimal_text(n).len() == 3,
{
    reveal_with_fuel(decimal_text, 3);
}

/// The character of a hexadecimal digit, in lower case.
pub open spec fn hex_char(n: nat) -> char {
    if n < 10 {
        (48 + n) as char
    } else {
        (87 + n) as char
    }
}

/// The lowest `digits` hexadecimal digits of `n`, in lower case.
pub open spec fn hex_text(n: nat, digits: nat) -> Seq<char>
    decreases digits,
{
    if digits == 0 {
        Seq::empty()
    } else {
        hex_text(n / 16, (digits - 1) as nat).push(hex_char(n % 16))
    }
}

/// Writes the lowest `digits` hexadecimal digits of `n`.
pub fn hexadecimal(n: u32, digits: u32) -> (r: String)
    ensures
        r@ == hex_text(n as nat, digits as nat),
    decreases digits,
{
    if digits == 0 {
        String::new()
    } else {
        let mut r = hexadecimal(n / 16, digits - 1);
        let d: u8 = (n % 16) as u8;
        let c = if d < 10 {
            (48u8 + d) as char
        } else {
            (87u8 + d) as char
        };
        r.push(c);
        r
    }
}

/// A number with a line feed behind it, as files hold it, is read as the number once white space is
/// cut off.
pub proof fn lines_of_digits_are_read(n: nat, max: nat)
    requires
        n <= max,
    ensures
        text::trimmed_end(decimal_text(n)) == decimal_text(n),
        text::trimmed_start(decimal_text(n)) == decimal_text(n),
        unsigned_value(text::trimmed_end(decimal_text(n).push('\n')), max) == Some(n),
{
    decimal_reads_back(n);
    let d = decimal_text(n);
    assert(is_digit(d.last()));
    assert(is_digit(d[0]));
    text::white_space_is_cut_off(d, '\n');
}

/// A number above the limit, or a text with anything but digits behind an optional plus sign, is
/// not read.
pub proof fn other_texts_are_no_numbers(s: Seq<char>, max: nat, i: int)
    ensures
        unsigned_value(s, max) matches Some(n) ==> n <= max,
        0 < i < s.len() && !('0' <= s[i] <= '9') ==> unsigned_value(s, max) is None,
        s.len() > 0 && !('0' <= s[0] <= '9') && s[0] != '+' ==> unsigned_value(s, max) is None,
        s.len() == 0 ==> unsigned_value(s, max) is None,
{
    if 0 < i < s.len() && !('0' <= s[i] <= '9') {
        if s[0] == '+' {
            assert(s.skip(1)[i - 1] == s[i]);
            assert(!is_digit(s.skip(1)[i - 1]));
        } else {
            assert(!is_digit(s[i]));
        }
    }
    if s.len() > 0 && !('0' <= s[0] <= '9') && s[0] != '+' {
        assert(!is_digit(s[0]));
    }
}

/// Reading back a number that was written with its sign gives the number, and a plus sign changes
/// nothing.
pub proof fn signed_reads_back(n: int, min: int, max: int)
    requires
        min <= n <= max,
    ensures
        signed_value(signed_text(n), min, max) == Some(n),
        n >= 0 ==> signed_value(seq!['+'] + decimal_text(n as nat), min, max) == Some(n),
{
    let m = if n < 0 {
        (-n) as nat
    } else {
        n as nat
    };
    let d = decimal_text(m);
    decimal_reads_back(m);
    assert(is_digit(d[0]));
    assert((seq!['-'] + d).skip(1) =~= d);
    assert((seq!['+'] + d).skip(1) =~= d);
}

/// The hexadecimal digits are the lowest ones, the highest of them first.
pub proof fn hexadecimal_digits_stand_in_order(n: nat, digits: nat)
    requires
        digits > 0,
    ensures
        hex_text(n, digits).len() == digits,
        hex_text(n, digits).last() == "0123456789abcdef"@[(n % 16) as int],
        hex_text(n, digits).drop_last() == hex_text(n / 16, (digits - 1) as nat),
    decreases digits,
{
    reveal_strlit("0123456789abcdef");
    let before = hex_text(n / 16, (digits - 1) as nat);
    assert(before.push(hex_char(n % 16)).drop_last() =~= before);
    if digits > 1 {
        hexadecimal_digits_stand_in_order(n / 16, (digits - 1) as nat);
    } else {
        assert(before.len() == 0);
    }
}

/// A minus sign stands in front of a number exactly if it is below zero.
pub proof fn only_negative_numbers_have_a_sign(n: nat)
    ensures
        signed_text(n as int) == decimal_text(n),
        n > 0 ==> signed_text(-n) == seq!['-'] + decimal_text(n),
{
}

}
