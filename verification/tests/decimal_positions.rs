use turing_machine::decimal::{parse_position, push_position};

fn read(text: &str) -> Option<i64> {
    parse_position(&text.chars().collect::<Vec<char>>())
}

fn written(position: i64) -> String {
    let mut out = vec!['>'];
    push_position(position, &mut out);
    out.into_iter().collect()
}

#[test]
fn reads_plain_and_signed_numbers() {
    assert_eq!(read("0"), Some(0));
    assert_eq!(read("7"), Some(7));
    assert_eq!(read("42"), Some(42));
    assert_eq!(read("-1"), Some(-1));
    assert_eq!(read("+5"), Some(5));
    assert_eq!(read("-0"), Some(0));
    assert_eq!(read("007"), Some(7));
    assert_eq!(read("-120"), Some(-120));
}

#[test]
fn reads_the_ends_of_the_range() {
    assert_eq!(read("9223372036854775807"), Some(i64::MAX));
    assert_eq!(read("-9223372036854775808"), Some(i64::MIN));
    assert_eq!(read("9223372036854775808"), None);
    assert_eq!(read("-9223372036854775809"), None);
    assert_eq!(read("+9223372036854775808"), None);
    assert_eq!(read("99999999999999999999999999999999999999999999"), None);
    assert_eq!(read("0000000000000000000000000000000000000000012"), Some(12));
}

#[test]
fn refuses_what_is_no_number() {
    for text in ["", "+", "-", " 5", "5 ", "1 2", "12a", "a12", "--1", "+-1", "1.5", "0x10", "١٢"] {
        assert_eq!(read(text), None, "{:?}", text);
    }
}

#[test]
fn agrees_with_the_standard_parser() {
    for text in ["0", "-0", "+0", "17", "-17", "+17", "", "-", "9223372036854775807",
        "-9223372036854775808", "9223372036854775808", "1_000", " 1"]
    {
        assert_eq!(read(text), text.parse::<i64>().ok(), "{:?}", text);
    }
}

#[test]
fn writes_numbers_after_what_is_there() {
    assert_eq!(written(0), ">0");
    assert_eq!(written(9), ">9");
    assert_eq!(written(10), ">10");
    assert_eq!(written(-1), ">-1");
    assert_eq!(written(1234567890), ">1234567890");
    assert_eq!(written(i64::MAX), ">9223372036854775807");
    assert_eq!(written(i64::MIN), ">-9223372036854775808");
}

#[test]
fn reading_what_was_written_gives_the_number() {
    for position in [0i64, 1, -1, 9, 10, -10, 99, 100, 12345, -98765, i64::MAX, i64::MIN] {
        let mut out = Vec::new();
        push_position(position, &mut out);
        assert_eq!(parse_position(&out), Some(position));
    }
}
