//! Texts and numbers.

use polybar_modules::double::Double;
use polybar_modules::fixed_digits;
use polybar_modules::numeral::{
    decimal, hexadecimal, parse_signed, parse_unsigned, signed_decimal,
};
use polybar_modules::quotient::{one_decimal, round_half_even, single, tenths};
use polybar_modules::text;

fn double(x: f64) -> Double {
    Double::from_bits(x.to_bits())
}

/// Doubles of all sizes, and the edges between them.
fn doubles() -> Vec<f64> {
    let mut v = vec![
        0.0, -0.0, 0.5, -0.5, 1.0, -1.0, 1.5, 2.5, -2.5, 0.005, 0.015, 0.025, 0.125, 1.005, 5000.6,
        -2.01, 99.995, 1e15, 123_456_789.125, 9_007_199_254_740_991.0, 9_007_199_254_740_993.0, 1e22,
        1e300, f64::MAX, f64::MIN, f64::MIN_POSITIVE, 5e-324, f64::EPSILON, f64::INFINITY,
        f64::NEG_INFINITY, f64::NAN,
    ];
    let mut bits: u64 = 0x9e37_79b9_7f4a_7c15;
    for _ in 0..2000 {
        bits ^= bits << 13;
        bits ^= bits >> 7;
        bits ^= bits << 17;
        v.push(f64::from_bits(bits));
        v.push((bits % 2_000_001) as f64 / 1000.0 - 1000.0);
    }
    v
}

#[test]
fn digits_are_those_of_the_standard_library() {
    for x in doubles() {
        assert_eq!(fixed_digits::whole(double(x)), format!("{x:.0}"));
        assert_eq!(fixed_digits::signed_hundredths(double(x)), format!("{x:+.2}"));
    }
}

#[test]
fn doubles_compare_and_round_like_floats() {
    for x in doubles() {
        let d = double(x);
        assert_eq!(d.nan(), x.is_nan());
        assert_eq!(d.abs().bits, x.abs().to_bits());
        for (num, k) in [(0, 0), (1, 0), (-2, 0), (30, 0), (7, 3), (5, 1), (-3, 2)] {
            let y = num as f64 / f64::from(1 << k);
            assert_eq!(d.at_least(num, k), x >= y);
            assert_eq!(d.above(num, k), x > y);
        }
        for y in [0.0, -0.0, 1.5, -1e300, f64::NAN, f64::INFINITY, x] {
            assert_eq!(d.not_below(double(y)), x >= y);
        }
        assert_eq!(d.truncate_into(0, 100), x.clamp(0.0, 100.0) as i64);
        assert_eq!(d.truncate_into(0, i64::from(u32::MAX)), i64::from(x as u32));
        assert_eq!(
            d.round_into(i64::from(i16::MIN), i64::from(i16::MAX)),
            i64::from(x.round() as i16)
        );
    }
}

#[test]
fn quotients_are_those_of_floats() {
    for a in [0, 1, 49, 50, 51, 999, 1250, 1350, 12_345, 999_949, 999_950, 4_294_967_295] {
        for b in [1, 7, 1000, 1_000_000] {
            assert_eq!(
                one_decimal(tenths(a, b)),
                format!("{:.1}", f64::from(a) / f64::from(b))
            );
        }
    }
    for used in (0..=u16::MAX).step_by(997) {
        for total in [1_u16, 3, 4000, 4040, 8192, 65535] {
            let prct = 100.0 * f32::from(used) / f32::from(total);
            let (rounded, whole) = single(100 * u32::from(used), u32::from(total));
            assert_eq!(rounded.to_string(), format!("{prct:.0}"));
            assert_eq!(whole, prct as u64);
        }
    }
    assert_eq!(round_half_even(5, 2), 2);
    assert_eq!(round_half_even(7, 2), 4);
    assert_eq!(round_half_even(8, 3), 3);
}

#[test]
fn numbers_are_read_like_integers() {
    for s in [
        "0", "7", "007", "+7", "-7", "", "+", "-", "255", "256", "-0", "+-7", " 7", "7 ", "1_0", "٣",
        "127", "128", "-128", "-129", "65535", "65536", "18446744073709551615",
        "18446744073709551616", "99999999999999999999999999",
    ] {
        assert_eq!(parse_unsigned(s, 255), s.parse::<u8>().ok().map(u64::from));
        assert_eq!(parse_unsigned(s, 65535), s.parse::<u16>().ok().map(u64::from));
        assert_eq!(parse_unsigned(s, u64::MAX), s.parse::<u64>().ok());
        assert_eq!(parse_signed(s, -128, 127), s.parse::<i8>().ok().map(i64::from));
    }
}

#[test]
fn numbers_are_written_like_integers() {
    for n in [0, 1, 9, 10, 99, 100, 12_345, u64::MAX] {
        assert_eq!(decimal(n), n.to_string());
        // What is written can be read back
        assert_eq!(parse_unsigned(&decimal(n), u64::MAX), Some(n));
    }
    for n in [0, 5, -5, 10, -10, i64::MAX, i64::MIN + 1] {
        assert_eq!(signed_decimal(n), n.to_string());
    }
    assert_eq!(hexadecimal(0x00ab_01, 6), "00ab01");
    assert_eq!(hexadecimal(0xd56500, 6), format!("{:06x}", 0xd56500));
}

#[test]
fn white_space_is_that_of_the_standard_library() {
    for c in '\0'..=char::MAX {
        assert_eq!(text::is_whitespace(c), c.is_whitespace());
    }
}

const TEXTS: [&str; 16] = [
    "", " ", "a", " a ", "a b", "a  b", "\ta\u{a0}", "a\n", "a\r\nb", "\n", "\r\n", "a\r", "é…😌",
    "  é  ", "a/b/c", "//",
];

#[test]
fn texts_are_cut_like_strings() {
    for s in TEXTS {
        assert_eq!(text::trim(s), s.trim());
        assert_eq!(text::trim_start(s), s.trim_start());
        assert_eq!(text::trim_end(s), s.trim_end());
        assert_eq!(text::lines(s), s.lines().collect::<Vec<_>>());
        assert_eq!(text::len_bytes(s), s.len());
        for c in [' ', '/', '\n', 'é'] {
            let fields = text::split(s, c);
            assert_eq!(fields, s.split(c).collect::<Vec<_>>());
            // Joining undoes splitting, and no field holds the separator
            assert_eq!(text::join(&fields, &c.to_string()), s);
            assert!(!fields.iter().any(|f| f.contains(c)));
            assert_eq!(
                text::cut(s, c),
                s.split_once(c).map(|(a, b)| (a.to_owned(), b.to_owned()))
            );
        }
        assert_eq!(
            text::split_either(s, ' ', '/'),
            s.split([' ', '/']).collect::<Vec<_>>()
        );
        for p in TEXTS {
            assert_eq!(text::starts_with(s, p), s.starts_with(p));
            assert_eq!(text::ends_with(s, p), s.ends_with(p));
            assert_eq!(text::contains_part(s, p), s.contains(p));
            assert_eq!(text::same(s, p), s == p);
            assert_eq!(text::not_after(s, p), s <= p);
        }
        for n in 0..8 {
            assert_eq!(text::truncates(s, n), n > s.len() || s.is_char_boundary(n));
            if text::truncates(s, n) {
                let mut t = s.to_owned();
                t.truncate(n);
                assert_eq!(text::truncate(s, n), t);
            }
            assert_eq!(text::align_right(s, n), format!("{s:>n$}"));
        }
    }
}

#[test]
fn texts_are_sorted_and_found() {
    let mut sorted: Vec<String> = TEXTS.iter().map(|s| (*s).to_owned()).collect();
    let v = sorted.clone();
    sorted.sort();
    assert_eq!(text::sort_texts(v.clone()), sorted);
    assert!(text::contains_text(&v, "é…😌"));
    assert!(!text::contains_text(&v, "b"));
    assert_eq!(text::find_line(&v, "a\r"), Some("a\r\nb".to_owned()));
    assert_eq!(text::find_line(&v, "x"), None);
    assert_eq!(text::repeat_char('é', 3), "ééé");
}
