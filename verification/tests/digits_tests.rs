use telegram_bot::int64_to_decimal;
use telegram_bot::parse_i64_or_zero;

#[test]
fn renders_zero() {
    assert_eq!(int64_to_decimal(0), "0");
}

#[test]
fn renders_small_numbers() {
    assert_eq!(int64_to_decimal(5), "5");
    assert_eq!(int64_to_decimal(42), "42");
    assert_eq!(int64_to_decimal(10), "10");
}

#[test]
fn renders_negative_numbers() {
    assert_eq!(int64_to_decimal(-7), "-7");
    assert_eq!(int64_to_decimal(-10), "-10");
}

#[test]
fn renders_extremes() {
    assert_eq!(int64_to_decimal(i64::MAX), "9223372036854775807");
    assert_eq!(int64_to_decimal(i64::MIN), "-9223372036854775808");
}

#[test]
fn parses_plain_numbers() {
    assert_eq!(parse_i64_or_zero("5"), 5);
    assert_eq!(parse_i64_or_zero("007"), 7);
    assert_eq!(parse_i64_or_zero("12345678901"), 12345678901);
}

#[test]
fn parses_signed_numbers() {
    assert_eq!(parse_i64_or_zero("+42"), 42);
    assert_eq!(parse_i64_or_zero("-17"), -17);
}

#[test]
fn parses_extremes() {
    assert_eq!(parse_i64_or_zero("9223372036854775807"), i64::MAX);
    assert_eq!(parse_i64_or_zero("-9223372036854775808"), i64::MIN);
}

#[test]
fn rejects_out_of_range() {
    assert_eq!(parse_i64_or_zero("9223372036854775808"), 0);
    assert_eq!(parse_i64_or_zero("-9223372036854775809"), 0);
    assert_eq!(parse_i64_or_zero("99999999999999999999999999"), 0);
}

#[test]
fn rejects_malformed_text() {
    assert_eq!(parse_i64_or_zero(""), 0);
    assert_eq!(parse_i64_or_zero("-"), 0);
    assert_eq!(parse_i64_or_zero("+"), 0);
    assert_eq!(parse_i64_or_zero("12x"), 0);
    assert_eq!(parse_i64_or_zero("x12"), 0);
    assert_eq!(parse_i64_or_zero(" 12"), 0);
    assert_eq!(parse_i64_or_zero("+-5"), 0);
}

#[test]
fn round_trips_render_and_parse() {
    for v in [0i64, 1, -1, 999, -1000, i64::MAX, i64::MIN] {
        assert_eq!(parse_i64_or_zero(&int64_to_decimal(v)), v);
    }
}
