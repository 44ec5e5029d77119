use photoscanner::arithmetic::{divide, multiply, multiply_whole, of_whole, round_to_whole, to_pixels};
use photoscanner::big::Big;
use photoscanner::binary64::Binary64;
use photoscanner::decimals::parse_decimal;
use photoscanner::metadata::parse_positive_rational;
use photoscanner::rounding::{round, INFINITE};

fn next(state: &mut u64) -> u64 {
    *state ^= *state << 13;
    *state ^= *state >> 7;
    *state ^= *state << 17;
    *state
}

fn parsed(value: &str) -> Option<u64> {
    let chars: Vec<char> = value.chars().collect();
    parse_decimal(&chars).map(|number| number.bits)
}

/// What a resolution in double precision is.
fn expected_rational(value: &str) -> Option<u32> {
    let (numerator, denominator) = value.split_once('/').unwrap_or((value, "1"));
    let numerator = numerator.trim().parse::<f64>().ok()?;
    let denominator = denominator.trim().parse::<f64>().ok()?;
    if !numerator.is_finite() || !denominator.is_finite() || denominator <= 0.0 {
        return None;
    }
    let result = (numerator / denominator).round();
    (result.is_finite() && result > 0.0 && result <= u32::MAX as f64).then_some(result as u32)
}

#[test]
fn decimal_numbers_are_read_like_the_machine_reads_them() {
    for value in [
        "0", "-0", "+0.0", "1", "600", "1200.5", ".5", "5.", "-2.25", "1e3", "1E-3", "1e+2",
        "0.1", "0.2", "0.3", "2.2250738585072011e-308", "2.2250738585072014e-308",
        "4.9406564584124654e-324", "2.4703282292062327e-324", "2.4703282292062328e-324",
        "1.7976931348623157e308", "1.7976931348623158e308", "1.7976931348623159e308", "1e308",
        "1e309", "1e400", "1e999999999999999999999999999", "1e-400",
        "1e-999999999999999999999999999", "0e999999999999999999999",
        "9007199254740993", "9007199254740992.5", "9007199254740993.0000000001",
        "123456789012345678901234567890", "0.000000000000000000000000000001",
        "4503599627370496.5", "4503599627370497.5", "1.00000000000000011102230246251565404",
        "1.00000000000000011102230246251565405", "0000000012", "12e-0",
    ] {
        let real = value.parse::<f64>().unwrap();
        assert_eq!(parsed(value), Some(real.to_bits()), "{value}");
    }
}

#[test]
fn texts_that_are_no_decimal_numbers() {
    for value in [
        "", "+", "-", ".", "e1", ".e1", "1e", "1e+", "1e1.5", "1.2.3", "abc", "1x", " 1", "1 ",
        "--1", "1e--1", "0x10", "1_000",
    ] {
        assert!(value.parse::<f64>().is_err(), "{value}");
        assert_eq!(parsed(value), None, "{value}");
    }
    // Names are no decimal numbers here; both lead to no resolution.
    for value in ["NaN", "inf", "infinity", "-inf"] {
        assert_eq!(parsed(value), None);
    }
}

#[test]
fn random_decimal_numbers() {
    let mut state = 0x1234_5678_9abc_def1;
    for _ in 0..300 {
        let digits = next(&mut state);
        let point = next(&mut state) % 18;
        let exponent = (next(&mut state) % 660) as i64 - 340;
        let mut text = digits.to_string();
        let at = text.len().saturating_sub(point as usize);
        text.insert(at, '.');
        let value = format!("{text}e{exponent}");
        let real = value.parse::<f64>().unwrap();
        assert_eq!(parsed(&value), Some(real.to_bits()), "{value}");
    }
}

#[test]
fn random_products_and_quotients() {
    let mut state = 0x0fed_cba9_8765_4321;
    let mut number = || loop {
        let bits = next(&mut state) >> 1;
        if bits < INFINITE {
            return bits;
        }
    };
    for round in 0..200 {
        let (mut a, mut b) = (number(), number());
        if round % 2 == 0 {
            // Numbers of ordinary size.
            a = a % 0x0100_0000_0000_0000 + 0x3f80_0000_0000_0000;
            b = b % 0x0100_0000_0000_0000 + 0x3f80_0000_0000_0000;
        }
        let (x, y) = (f64::from_bits(a), f64::from_bits(b));
        assert_eq!(multiply(a, b), (x * y).to_bits());
        if b > 0 {
            assert_eq!(divide(a, b), (x / y).to_bits());
        }
        let n = (a % 100_000) as u32;
        assert_eq!(multiply_whole(b, n), (y * f64::from(n)).to_bits());
        assert_eq!(of_whole(n), f64::from(n).to_bits());
    }
}

#[test]
fn rounding_to_whole_numbers() {
    for value in [
        0.0, 0.4999999999999999, 0.5, 0.75, 1.0, 1.4999999, 1.5, 2.5, 599.5, 600.4, 4294967294.5,
        4294967295.0, 4294967295.4, 4294967295.5, 1e10, 1e300, 1e-300, 8388608.5, 0.25,
    ] {
        let rounded = f64::round(value);
        let expected = if rounded > 0.0 && rounded <= u32::MAX as f64 {
            Some(rounded as u32)
        } else {
            None
        };
        assert_eq!(round_to_whole(value.to_bits()), expected, "{value}");
        assert_eq!(
            to_pixels(value.to_bits()),
            value.round().max(1.0) as i32,
            "{value}"
        );
    }
    assert_eq!(to_pixels(INFINITE), i32::MAX);
    assert_eq!(round_to_whole(INFINITE), None);
}

#[test]
fn parses_integer_and_fractional_resolution() {
    assert_eq!(parse_positive_rational("600"), Some(600));
    assert_eq!(parse_positive_rational("1200/2"), Some(600));
    assert_eq!(parse_positive_rational("1/0"), None);
    assert_eq!(parse_positive_rational("NaN"), None);
}

#[test]
fn resolutions_in_double_precision() {
    for value in [
        "", "/", "1", " 72 ", "72 / 1", "720/ 10", "1/3", "2/3", "0.5", "0.49999999999999999999",
        "0.4999999999999999", "-600", "600/-1", "600/0", "0", "-0", "4294967295", "4294967295.5",
        "4294967296", "1e400", "1/1e400", "1e308/1e-308", "1e-320/1e-322", "118110/1000", "inf",
        "1/inf", "300/1/2", "9007199254740993/9007199254740992", "\u{a0}96\u{3000}",
        "28346/10000", "5e-1", "1.4999999999999999", "1.49999999999999999",
    ] {
        assert_eq!(
            parse_positive_rational(value),
            expected_rational(value),
            "{value}"
        );
    }
}

#[test]
fn what_is_written_as_resolution_is_read_back() {
    for dpi in [1, 72, 300, 600, 1200, 2400, 65535, 1_000_000, u32::MAX] {
        assert_eq!(parse_positive_rational(&format!("{dpi}/1")), Some(dpi));
    }
}

#[test]
fn numbers_of_any_size() {
    let ten = Big::of(10);
    let mut power = Big::of(1);
    for _ in 0..30 {
        power = power.times_plus(10, 0);
    }
    let same = ten.times(100_000_000_000_000).times(1_000_000_000_000_000);
    assert!(power.minus(&same).is_some());
    assert!(same.minus(&power).is_some());
    let sum = power.plus(&same);
    assert!(sum.minus(&power).unwrap().minus(&same).is_some());
    assert!(power.minus(&sum).is_none());
    assert_eq!(round(&Big::of(3), &Big::of(2)), 2);
    assert_eq!(round(&Big::of(1), &Big::of(2)), 0);
    assert_eq!(round(&Big::of(5), &Big::of(2)), 2);
}

#[test]
fn order_of_double_precision_numbers() {
    let values = [
        f64::NEG_INFINITY, -1e300, -1.5, -0.0, 0.0, 5e-324, 0.1, 1.0, 1.5, 255.0, f64::INFINITY,
        f64::NAN,
    ];
    for a in values {
        let x = Binary64 { bits: a.to_bits() };
        assert_eq!(x.is_finite(), a.is_finite());
        for b in values {
            let y = Binary64 { bits: b.to_bits() };
            assert_eq!(x.is_less(y), a < b);
            assert_eq!(x.is_at_most(y), a <= b);
            if b > 0.0 && b.is_finite() {
                let low = Binary64 { bits: 0 };
                assert_eq!(x.clamp(low, y).bits, a.clamp(0.0, b).to_bits());
                assert_eq!(x.is_within(low, y), (0.0..=b).contains(&a));
            }
        }
    }
}
