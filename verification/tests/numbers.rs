use xml_splitter::number::{i64_to_text, parse_i64, parse_places};

#[test]
fn signed_literals_are_read() {
    assert_eq!(parse_i64("0"), Some(0));
    assert_eq!(parse_i64("42"), Some(42));
    assert_eq!(parse_i64("+42"), Some(42));
    assert_eq!(parse_i64("-42"), Some(-42));
    assert_eq!(parse_i64("-0"), Some(0));
    assert_eq!(parse_i64("0042"), Some(42));
    assert_eq!(parse_i64("9223372036854775807"), Some(i64::MAX));
    assert_eq!(parse_i64("-9223372036854775808"), Some(i64::MIN));
    assert_eq!(parse_i64("00000000000000000000000000000000000007"), Some(7));
}

#[test]
fn what_is_no_signed_literal_is_refused() {
    assert_eq!(parse_i64(""), None);
    assert_eq!(parse_i64("+"), None);
    assert_eq!(parse_i64("-"), None);
    assert_eq!(parse_i64("+-1"), None);
    assert_eq!(parse_i64("--1"), None);
    assert_eq!(parse_i64(" 1"), None);
    assert_eq!(parse_i64("1 "), None);
    assert_eq!(parse_i64("1.0"), None);
    assert_eq!(parse_i64("1e3"), None);
    assert_eq!(parse_i64("12a"), None);
    assert_eq!(parse_i64("\u{663}"), None);
    assert_eq!(parse_i64("9223372036854775808"), None);
    assert_eq!(parse_i64("-9223372036854775809"), None);
    assert_eq!(parse_i64("99999999999999999999999999"), None);
    assert_eq!(parse_i64("99999999999999999999999999x"), None);
}

#[test]
fn reading_agrees_with_the_standard_library() {
    for text in ["0", "-0", "+0", "17", "-17", "+17", "", "+", "-", "1_0", "0x10", "٣", "9223372036854775807", "9223372036854775808", "-9223372036854775808", "-9223372036854775809", "000", "1e1", " 1"] {
        assert_eq!(parse_i64(text), text.parse::<i64>().ok(), "{text}");
        assert_eq!(parse_places(text), text.parse::<u16>().ok(), "{text}");
    }
}

#[test]
fn places_are_at_most_65535() {
    assert_eq!(parse_places("0"), Some(0));
    assert_eq!(parse_places("2"), Some(2));
    assert_eq!(parse_places("+2"), Some(2));
    assert_eq!(parse_places("65535"), Some(65535));
    assert_eq!(parse_places("065535"), Some(65535));
    assert_eq!(parse_places("65536"), None);
    assert_eq!(parse_places("-2"), None);
    assert_eq!(parse_places("-0"), None);
    assert_eq!(parse_places(""), None);
    assert_eq!(parse_places("2.0"), None);
}

#[test]
fn integers_are_written_in_decimal() {
    assert_eq!(i64_to_text(0), "0");
    assert_eq!(i64_to_text(7), "7");
    assert_eq!(i64_to_text(10), "10");
    assert_eq!(i64_to_text(-1), "-1");
    assert_eq!(i64_to_text(1234567890), "1234567890");
    assert_eq!(i64_to_text(i64::MAX), "9223372036854775807");
    assert_eq!(i64_to_text(i64::MIN), "-9223372036854775808");
    for value in [-1000, -99, -10, -9, 9, 10, 11, 99, 100, 101, 4096] {
        assert_eq!(i64_to_text(value), value.to_string());
    }
}
