use geomesh::decimal::parse_decimal;

const LIMIT: i64 = 1_152_921_504_606_846_976;

fn parse(text: &str) -> Option<i64> {
    parse_decimal(&text.as_bytes().to_vec(), LIMIT)
}

#[test]
fn parse_whole_numbers() {
    assert_eq!(parse("0"), Some(0));
    assert_eq!(parse("7"), Some(7000));
    assert_eq!(parse("100"), Some(100_000));
    assert_eq!(parse("007"), Some(7000));
}

#[test]
fn parse_fractions() {
    assert_eq!(parse("1.5"), Some(1500));
    assert_eq!(parse("1.25"), Some(1250));
    assert_eq!(parse("1.125"), Some(1125));
    assert_eq!(parse("0.001"), Some(1));
    assert_eq!(parse("12.040"), Some(12_040));
}

#[test]
fn parse_drops_digits_after_third_place() {
    assert_eq!(parse("1.2349"), Some(1234));
    assert_eq!(parse("0.0009"), Some(0));
    assert_eq!(parse("-1.9999"), Some(-1999));
    assert_eq!(parse("3.14159265358979"), Some(3141));
}

#[test]
fn parse_signs() {
    assert_eq!(parse("-3"), Some(-3000));
    assert_eq!(parse("+3"), Some(3000));
    assert_eq!(parse("-0.5"), Some(-500));
    assert_eq!(parse("-0"), Some(0));
}

#[test]
fn parse_point_at_either_end() {
    assert_eq!(parse("5."), Some(5000));
    assert_eq!(parse(".5"), Some(500));
    assert_eq!(parse("-.25"), Some(-250));
}

#[test]
fn parse_refuses_what_is_no_number() {
    assert_eq!(parse(""), None);
    assert_eq!(parse("-"), None);
    assert_eq!(parse("+"), None);
    assert_eq!(parse("."), None);
    assert_eq!(parse("-."), None);
    assert_eq!(parse("abc"), None);
    assert_eq!(parse("1a"), None);
    assert_eq!(parse("1.2.3"), None);
    assert_eq!(parse("1.2a"), None);
    assert_eq!(parse("--1"), None);
    assert_eq!(parse("1-"), None);
    assert_eq!(parse(" 1"), None);
    assert_eq!(parse("1 "), None);
    assert_eq!(parse("1,5"), None);
}

#[test]
fn parse_holds_to_the_limit() {
    assert_eq!(parse_decimal(&b"1".to_vec(), 1000), Some(1000));
    assert_eq!(parse_decimal(&b"1.001".to_vec(), 1000), None);
    assert_eq!(parse_decimal(&b"-1".to_vec(), 1000), Some(-1000));
    assert_eq!(parse_decimal(&b"-1.001".to_vec(), 1000), None);
    assert_eq!(parse_decimal(&b"0.999".to_vec(), 1000), Some(999));
    assert_eq!(parse_decimal(&b"0".to_vec(), 0), Some(0));
    assert_eq!(parse_decimal(&b"0.001".to_vec(), 0), None);
}

#[test]
fn parse_refuses_numbers_beyond_the_limit() {
    assert_eq!(parse("1152921504606846.976"), Some(LIMIT));
    assert_eq!(parse("1152921504606846.977"), None);
    assert_eq!(parse("-1152921504606846.976"), Some(-LIMIT));
    assert_eq!(parse("99999999999999999999999999999999999999999999"), None);
    assert_eq!(parse("-99999999999999999999999999999999999999999999.5"), None);
}

#[test]
fn parse_exponent_moves_the_point() {
    assert_eq!(parse("1e3"), Some(1_000_000));
    assert_eq!(parse("1.2E+03"), Some(1_200_000));
    assert_eq!(parse("1.2E-03"), Some(1));
    assert_eq!(parse("12e-1"), Some(1200));
    assert_eq!(parse("1.5e0"), Some(1500));
    assert_eq!(parse("-2.5e2"), Some(-250_000));
    assert_eq!(parse("123456e-3"), Some(123_456));
    assert_eq!(parse("0.0001234e4"), Some(1234));
    assert_eq!(parse(".5E1"), Some(5000));
    assert_eq!(parse("5.e-1"), Some(500));
    assert_eq!(parse("+7e-0"), Some(7000));
}

#[test]
fn parse_exponent_drops_what_is_below_a_thousandth() {
    assert_eq!(parse("5e-4"), Some(0));
    assert_eq!(parse("9.999e-3"), Some(9));
    assert_eq!(parse("-9.999e-4"), Some(0));
    assert_eq!(parse("123e-6"), Some(0));
    assert_eq!(parse("1e-99999999999999999999999999999999999999"), Some(0));
}

#[test]
fn parse_exponent_holds_to_the_limit() {
    assert_eq!(parse("1E15"), Some(1_000_000_000_000_000_000));
    assert_eq!(parse("1e16"), None);
    assert_eq!(parse("1152921504606846976e-3"), Some(LIMIT));
    assert_eq!(parse("1152921504606846977e-3"), None);
    assert_eq!(parse("1e999999999999999999999999999999999999"), None);
    assert_eq!(parse("0e999999999999999999999999999999999999"), Some(0));
    assert_eq!(parse("0.000e5"), Some(0));
    assert_eq!(parse_decimal(&b"1e0".to_vec(), 999), None);
    assert_eq!(parse_decimal(&b"999e-3".to_vec(), 999), Some(999));
}

#[test]
fn parse_refuses_broken_exponents() {
    assert_eq!(parse("1e"), None);
    assert_eq!(parse("1e+"), None);
    assert_eq!(parse("1e-"), None);
    assert_eq!(parse("e5"), None);
    assert_eq!(parse(".e5"), None);
    assert_eq!(parse("-e5"), None);
    assert_eq!(parse("1e5.0"), None);
    assert_eq!(parse("1e5e5"), None);
    assert_eq!(parse("1e 5"), None);
    assert_eq!(parse("1e--5"), None);
    assert_eq!(parse("1x5"), None);
}
