use bytecode_vm::number::{parse_index, parse_value};

#[test]
fn parse_value_reads_plain_and_signed_literals() {
    assert_eq!(parse_value("0"), Some(0));
    assert_eq!(parse_value("10"), Some(10));
    assert_eq!(parse_value("-2"), Some(-2));
    assert_eq!(parse_value("+7"), Some(7));
    assert_eq!(parse_value("-0"), Some(0));
    assert_eq!(parse_value("007"), Some(7));
}

#[test]
fn parse_value_reads_the_extremes() {
    assert_eq!(parse_value("9223372036854775807"), Some(i64::MAX));
    assert_eq!(parse_value("-9223372036854775808"), Some(i64::MIN));
    assert_eq!(parse_value("+9223372036854775807"), Some(i64::MAX));
    assert_eq!(parse_value("0000000000000000000000009223372036854775807"), Some(i64::MAX));
}

#[test]
fn parse_value_rejects_what_does_not_fit() {
    assert_eq!(parse_value("9223372036854775808"), None);
    assert_eq!(parse_value("-9223372036854775809"), None);
    assert_eq!(parse_value("18446744073709551616"), None);
    assert_eq!(parse_value("99999999999999999999999999999"), None);
    assert_eq!(parse_value("-99999999999999999999999999999"), None);
}

#[test]
fn parse_value_rejects_what_is_no_literal() {
    assert_eq!(parse_value(""), None);
    assert_eq!(parse_value("-"), None);
    assert_eq!(parse_value("+"), None);
    assert_eq!(parse_value("--1"), None);
    assert_eq!(parse_value("+-1"), None);
    assert_eq!(parse_value("1-2"), None);
    assert_eq!(parse_value("12a"), None);
    assert_eq!(parse_value("1 "), None);
    assert_eq!(parse_value("١٢"), None);
}

#[test]
fn parse_index_reads_the_whole_range() {
    for index in 0..=255u8 {
        assert_eq!(parse_index(&format!("{}", index)), Some(index));
    }
    assert_eq!(parse_index("+255"), Some(255));
    assert_eq!(parse_index("000"), Some(0));
}

#[test]
fn parse_index_rejects_what_is_no_index() {
    assert_eq!(parse_index("256"), None);
    assert_eq!(parse_index("1000"), None);
    assert_eq!(parse_index("-1"), None);
    assert_eq!(parse_index("-0"), None);
    assert_eq!(parse_index(""), None);
    assert_eq!(parse_index("+"), None);
    assert_eq!(parse_index("1x"), None);
    assert_eq!(parse_index("99999999999999999999999"), None);
}

#[test]
fn parse_value_agrees_with_the_standard_parser() {
    let samples = [
        "", "0", "-0", "+0", "1", "-1", "+1", "42", "-42", "0042", "-", "+", "++1", "--1", "+-1",
        "-+1", "1-", "1+", "1 2", " 1", "1 ", "1_000", "0x10", "1e3", "1.0", "a", "-a",
        "9223372036854775806", "9223372036854775807", "9223372036854775808",
        "-9223372036854775807", "-9223372036854775808", "-9223372036854775809",
        "92233720368547758070", "18446744073709551615", "18446744073709551616",
        "00000000000000000000000000000000000001", "é", "1é",
    ];
    for sample in samples {
        assert_eq!(parse_value(sample), sample.parse::<i64>().ok(), "{:?}", sample);
    }
}

#[test]
fn parse_index_agrees_with_the_standard_parser() {
    let samples = [
        "", "0", "-0", "+0", "1", "-1", "+1", "255", "256", "+255", "+256", "0255", "0256", "-",
        "+", "++1", "1-", "1 ", " 1", "2_5", "a", "25a", "999", "00000000000000000000000255",
    ];
    for sample in samples {
        assert_eq!(parse_index(sample), sample.parse::<u8>().ok(), "{:?}", sample);
    }
}
