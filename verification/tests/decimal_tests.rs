use more_iced_aw::decimal::ParseNumberError;
use more_iced_aw::decimal::parse_u64;
use more_iced_aw::decimal::u64_to_text;

#[test]
fn renders_canonical_decimal_text() {
    assert_eq!(u64_to_text(0).as_str(), "0");
    assert_eq!(u64_to_text(9).as_str(), "9");
    assert_eq!(u64_to_text(10).as_str(), "10");
    assert_eq!(u64_to_text(12345).as_str(), "12345");
    assert_eq!(u64_to_text(u64::MAX).as_str(), "18446744073709551615");
}

#[test]
fn parses_digit_strings() {
    assert_eq!(parse_u64("0"), Ok(0));
    assert_eq!(parse_u64("007"), Ok(7));
    assert_eq!(parse_u64("12345"), Ok(12345));
    assert_eq!(parse_u64("18446744073709551615"), Ok(u64::MAX));
}

#[test]
fn rejects_empty_text() {
    assert_eq!(parse_u64(""), Err(ParseNumberError::Empty));
}

#[test]
fn rejects_stray_characters() {
    assert_eq!(parse_u64("12x"), Err(ParseNumberError::InvalidDigit));
    assert_eq!(parse_u64("-1"), Err(ParseNumberError::InvalidDigit));
    assert_eq!(parse_u64(" 7"), Err(ParseNumberError::InvalidDigit));
}

#[test]
fn rejects_values_that_do_not_fit() {
    assert_eq!(parse_u64("18446744073709551616"), Err(ParseNumberError::Overflow));
    assert_eq!(parse_u64("99999999999999999999"), Err(ParseNumberError::Overflow));
}

#[test]
fn round_trips_through_its_own_parser() {
    for n in [0u64, 1, 9, 10, 99, 100, 4294967295, u64::MAX] {
        assert_eq!(parse_u64(u64_to_text(n).as_str()), Ok(n));
    }
}
