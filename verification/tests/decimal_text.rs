use lini::figures::parse_decimal;

#[test]
fn decimal_text_reads_as_mantissa_and_places() {
    assert_eq!(parse_decimal("12"), Some((12, 0)));
    assert_eq!(parse_decimal("-12.500"), Some((-125, 1)));
    assert_eq!(parse_decimal("3."), Some((3, 0)));
    assert_eq!(parse_decimal("0.000"), Some((0, 0)));
    assert_eq!(parse_decimal("0.349999999999999978"), Some((349999999999999978, 18)));
    assert_eq!(parse_decimal("9223372036854775807"), Some((i64::MAX, 0)));
    assert_eq!(parse_decimal("-9223372036854775807"), Some((-i64::MAX, 0)));
}

#[test]
fn decimal_text_refuses_non_digits_and_overflow() {
    assert_eq!(parse_decimal("9223372036854775808"), None);
    assert_eq!(parse_decimal("92233720368547758.080"), None);
    assert_eq!(parse_decimal("1e5"), None);
    assert_eq!(parse_decimal("1.2.3"), None);
    assert_eq!(parse_decimal("+1"), None);
    assert_eq!(parse_decimal("--1"), None);
}
