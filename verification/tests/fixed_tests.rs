use fallgray::fixed::{add_sat, fmt_fixed, fmt_int, fmt_nat, min_fixed, parse_fixed, parse_i32};
use fallgray::FIXED_SCALE;

#[test]
fn parse_i32_plain() {
    assert_eq!(parse_i32("10"), Some(10));
    assert_eq!(parse_i32("0"), Some(0));
    assert_eq!(parse_i32("-3"), Some(-3));
    assert_eq!(parse_i32("+5"), Some(5));
    assert_eq!(parse_i32("007"), Some(7));
}

#[test]
fn parse_i32_range() {
    assert_eq!(parse_i32("2147483647"), Some(2147483647));
    assert_eq!(parse_i32("-2147483648"), Some(-2147483648));
    assert_eq!(parse_i32("2147483648"), None);
    assert_eq!(parse_i32("-2147483649"), None);
}

#[test]
fn parse_i32_malformed() {
    assert_eq!(parse_i32(""), None);
    assert_eq!(parse_i32("abc"), None);
    assert_eq!(parse_i32("1.5"), None);
    assert_eq!(parse_i32("-"), None);
    assert_eq!(parse_i32("+"), None);
    assert_eq!(parse_i32(" 1"), None);
    assert_eq!(parse_i32("1 "), None);
    assert_eq!(parse_i32("--1"), None);
}

#[test]
fn parse_fixed_plain() {
    assert_eq!(parse_fixed("0.001"), Some(1000));
    assert_eq!(parse_fixed("60"), Some(60 * FIXED_SCALE));
    assert_eq!(parse_fixed("-3.5"), Some(-3500000));
    assert_eq!(parse_fixed("+2.25"), Some(2250000));
    assert_eq!(parse_fixed("0"), Some(0));
    assert_eq!(parse_fixed("-0"), Some(0));
}

#[test]
fn parse_fixed_point_forms() {
    assert_eq!(parse_fixed(".5"), Some(500000));
    assert_eq!(parse_fixed("5."), Some(5000000));
    assert_eq!(parse_fixed("0.123456"), Some(123456));
    // Digits beyond the sixth fractional place are truncated.
    assert_eq!(parse_fixed("0.0000019"), Some(1));
}

#[test]
fn parse_fixed_malformed() {
    assert_eq!(parse_fixed(""), None);
    assert_eq!(parse_fixed("."), None);
    assert_eq!(parse_fixed("-."), None);
    assert_eq!(parse_fixed("abc"), None);
    assert_eq!(parse_fixed("1e5"), None);
    assert_eq!(parse_fixed("inf"), None);
    assert_eq!(parse_fixed("1.2.3"), None);
    assert_eq!(parse_fixed("1 "), None);
}

#[test]
fn parse_fixed_magnitude_limit() {
    assert_eq!(parse_fixed("999999999999"), Some(999999999999 * FIXED_SCALE));
    assert_eq!(parse_fixed("999999999999.999999"), Some(999999999999999999));
    assert_eq!(parse_fixed("1000000000000"), None);
    assert_eq!(parse_fixed("10000000000000000000"), None);
}

#[test]
fn fmt_nat_digits() {
    assert_eq!(fmt_nat(0), "0");
    assert_eq!(fmt_nat(7), "7");
    assert_eq!(fmt_nat(120), "120");
    assert_eq!(fmt_nat(18446744073709551615), "18446744073709551615");
}

#[test]
fn fmt_int_signs() {
    assert_eq!(fmt_int(0), "0");
    assert_eq!(fmt_int(-3), "-3");
    assert_eq!(fmt_int(42), "42");
    assert_eq!(fmt_int(i64::MIN), "-9223372036854775808");
}

#[test]
fn fmt_fixed_strips_trailing_zeros() {
    assert_eq!(fmt_fixed(100 * FIXED_SCALE), "100");
    assert_eq!(fmt_fixed(1000), "0.001");
    assert_eq!(fmt_fixed(-3500000), "-3.5");
    assert_eq!(fmt_fixed(60 * FIXED_SCALE), "60");
    assert_eq!(fmt_fixed(123456), "0.123456");
    assert_eq!(fmt_fixed(1200000), "1.2");
    assert_eq!(fmt_fixed(-1), "-0.000001");
}

#[test]
fn fmt_after_parse_round_trips() {
    for text in ["0.001", "60", "-3.5", "0.123456", "12", "0"] {
        let v = parse_fixed(text).unwrap();
        assert_eq!(fmt_fixed(v), text);
    }
}

#[test]
fn parse_after_fmt_round_trips() {
    for v in [0, 1, -1, 1000, -3500000, 60 * FIXED_SCALE, 123456, 999999999999999999] {
        assert_eq!(parse_fixed(&fmt_fixed(v)), Some(v));
    }
    for v in [0i32, 7, -7, 2147483647, -2147483648] {
        assert_eq!(parse_i32(&fmt_int(v as i64)), Some(v));
    }
}

#[test]
fn add_sat_saturates() {
    assert_eq!(add_sat(1, 2), 3);
    assert_eq!(add_sat(i64::MAX, 1), i64::MAX);
    assert_eq!(add_sat(i64::MIN, -1), i64::MIN);
    assert_eq!(add_sat(-5, 3), -2);
}

#[test]
fn min_fixed_picks_smaller() {
    assert_eq!(min_fixed(3, 7), 3);
    assert_eq!(min_fixed(7, 3), 3);
    assert_eq!(min_fixed(-1, 0), -1);
}
