use rainbow::number::{number_text, parse_i64};

#[test]
fn number_text_writes_decimal_notation() {
    assert_eq!(number_text(0), "0");
    assert_eq!(number_text(7), "7");
    assert_eq!(number_text(10), "10");
    assert_eq!(number_text(99), "99");
    assert_eq!(number_text(1234567890), "1234567890");
    assert_eq!(number_text(u32::MAX), "4294967295");
}

#[test]
fn number_text_agrees_with_the_standard_library() {
    for n in (0..100_000u32).chain([u32::MAX - 1, 999_999_999, 1_000_000_000]) {
        assert_eq!(number_text(n), n.to_string());
    }
}

#[test]
fn parse_i64_reads_signed_numbers() {
    assert_eq!(parse_i64("0"), Some(0));
    assert_eq!(parse_i64("123456789"), Some(123456789));
    assert_eq!(parse_i64("-1001234567890"), Some(-1001234567890));
    assert_eq!(parse_i64("+5"), Some(5));
    assert_eq!(parse_i64("-0"), Some(0));
    assert_eq!(parse_i64("007"), Some(7));
}

#[test]
fn parse_i64_knows_the_limits() {
    assert_eq!(parse_i64("9223372036854775807"), Some(i64::MAX));
    assert_eq!(parse_i64("9223372036854775808"), None);
    assert_eq!(parse_i64("-9223372036854775808"), Some(i64::MIN));
    assert_eq!(parse_i64("-9223372036854775809"), None);
    assert_eq!(parse_i64("00000000000000000000000000000000000000000000000000012"), Some(12));
    assert_eq!(parse_i64("99999999999999999999999999999999999999999999999999999"), None);
    assert_eq!(parse_i64("-99999999999999999999999999999999999999999999999999999"), None);
}

#[test]
fn parse_i64_turns_down_what_is_no_number() {
    for text in ["", "+", "-", " 1", "1 ", "1.0", "1e3", "--1", "+-1", "1_000", "x", "12a", "٣"] {
        assert_eq!(parse_i64(text), None, "{text:?}");
    }
}

#[test]
fn parse_i64_agrees_with_the_standard_library() {
    let texts = [
        "",
        "0",
        "-0",
        "+0",
        "1",
        "-1",
        "+1",
        "42",
        "0042",
        "+0042",
        "-0042",
        "9223372036854775807",
        "9223372036854775808",
        "-9223372036854775808",
        "-9223372036854775809",
        "18446744073709551616",
        "abc",
        "1a",
        "a1",
        "+",
        "-",
        "++1",
        " 1",
        "1\n",
        "１２",
    ];
    for text in texts {
        assert_eq!(parse_i64(text), text.parse::<i64>().ok(), "{text:?}");
    }
}

#[test]
fn what_is_written_reads_back() {
    for n in [0u32, 1, 9, 10, 99, 100, 65535, u32::MAX] {
        assert_eq!(parse_i64(&number_text(n)), Some(n as i64));
    }
}
