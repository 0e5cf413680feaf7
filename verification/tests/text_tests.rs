use portfolio::text::{decimal_text, parse_i32, requested_count};

#[test]
fn parses_plain_digits() {
    assert_eq!(parse_i32("0"), Some(0));
    assert_eq!(parse_i32("12"), Some(12));
    assert_eq!(parse_i32("007"), Some(7));
    assert_eq!(parse_i32("2147483647"), Some(i32::MAX));
}

#[test]
fn parses_a_sign() {
    assert_eq!(parse_i32("+7"), Some(7));
    assert_eq!(parse_i32("-5"), Some(-5));
    assert_eq!(parse_i32("-0"), Some(0));
    assert_eq!(parse_i32("-2147483648"), Some(i32::MIN));
}

#[test]
fn refuses_what_does_not_fit() {
    assert_eq!(parse_i32("2147483648"), None);
    assert_eq!(parse_i32("-2147483649"), None);
    assert_eq!(parse_i32("99999999999999999999999999"), None);
    assert_eq!(parse_i32("-99999999999999999999999999"), None);
}

#[test]
fn accepts_leading_zeros_of_any_length() {
    assert_eq!(parse_i32("000000000000000000000000000000042"), Some(42));
    assert_eq!(parse_i32("-000000000000000000000000002147483648"), Some(i32::MIN));
}

#[test]
fn refuses_what_is_no_number() {
    assert_eq!(parse_i32(""), None);
    assert_eq!(parse_i32("+"), None);
    assert_eq!(parse_i32("-"), None);
    assert_eq!(parse_i32("+-1"), None);
    assert_eq!(parse_i32("1a"), None);
    assert_eq!(parse_i32("a1"), None);
    assert_eq!(parse_i32(" 1"), None);
    assert_eq!(parse_i32("1 "), None);
    assert_eq!(parse_i32("1.0"), None);
    assert_eq!(parse_i32("\u{ff11}"), None);
    assert_eq!(parse_i32("\u{661}"), None);
}

#[test]
fn parsing_agrees_with_the_standard_library() {
    let samples = vec![
        "", "0", "1", "-1", "+1", "10", "0010", "2147483647", "2147483648", "-2147483648",
        "-2147483649", "4294967296", "+", "-", "--1", "++1", "1-", "12x", "x12", "1_000", "0x10",
        "1e3", " 5", "5\n", "\u{e9}", "3\u{e9}", "+0", "-0", "+2147483647", "+2147483648",
    ];
    for s in samples {
        assert_eq!(parse_i32(s), s.parse::<i32>().ok(), "on {:?}", s);
    }
}

#[test]
fn a_missing_count_asks_for_nothing() {
    assert_eq!(requested_count(None), 0);
}

#[test]
fn an_unreadable_count_asks_for_nothing() {
    assert_eq!(requested_count(Some("")), 0);
    assert_eq!(requested_count(Some("many")), 0);
    assert_eq!(requested_count(Some("3.5")), 0);
    assert_eq!(requested_count(Some("2147483648")), 0);
}

#[test]
fn a_negative_count_asks_for_nothing() {
    assert_eq!(requested_count(Some("-4")), 0);
    assert_eq!(requested_count(Some("-2147483648")), 0);
    assert_eq!(requested_count(Some("0")), 0);
}

#[test]
fn a_readable_count_is_taken_as_written() {
    assert_eq!(requested_count(Some("3")), 3);
    assert_eq!(requested_count(Some("+25")), 25);
    assert_eq!(requested_count(Some("2147483647")), 2147483647);
}

#[test]
fn writes_numbers_in_decimal() {
    assert_eq!(decimal_text(0), "0");
    assert_eq!(decimal_text(7), "7");
    assert_eq!(decimal_text(10), "10");
    assert_eq!(decimal_text(120), "120");
    assert_eq!(decimal_text(9876543210), "9876543210");
    assert_eq!(decimal_text(u64::MAX), "18446744073709551615");
}

#[test]
fn decimal_text_agrees_with_the_standard_library() {
    let mut n: u64 = 1;
    for _ in 0..19 {
        assert_eq!(decimal_text(n), n.to_string());
        assert_eq!(decimal_text(n - 1), (n - 1).to_string());
        n *= 10;
    }
}
