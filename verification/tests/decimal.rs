use apogeo::decimal::{format_decimal, parse_decimal};

fn read(text: &str) -> Option<i64> {
    parse_decimal(text.as_bytes())
}

fn written(value: i64) -> String {
    String::from_utf8(format_decimal(value)).unwrap()
}

#[test]
fn parse_decimal_reads_plain_numbers() {
    assert_eq!(read("5.5"), Some(5_500_000));
    assert_eq!(read("21.0"), Some(21_000_000));
    assert_eq!(read("33"), Some(33_000_000));
    assert_eq!(read("0"), Some(0));
    assert_eq!(read("0.000001"), Some(1));
    assert_eq!(read("007"), Some(7_000_000));
}

#[test]
fn parse_decimal_reads_signs() {
    assert_eq!(read("-0.25"), Some(-250_000));
    assert_eq!(read("+7"), Some(7_000_000));
    assert_eq!(read("-0"), Some(0));
    assert_eq!(read("-"), None);
    assert_eq!(read("+"), None);
    assert_eq!(read("--1"), None);
    assert_eq!(read("1-"), None);
}

#[test]
fn parse_decimal_takes_a_point_at_either_end() {
    assert_eq!(read(".5"), Some(500_000));
    assert_eq!(read("5."), Some(5_000_000));
    assert_eq!(read("-.5"), Some(-500_000));
    assert_eq!(read("."), None);
    assert_eq!(read("-."), None);
    assert_eq!(read("1.2.3"), None);
    assert_eq!(read("1..2"), None);
}

#[test]
fn parse_decimal_rejects_what_is_no_decimal_number() {
    assert_eq!(read(""), None);
    assert_eq!(read("abc"), None);
    assert_eq!(read("1e3"), None);
    assert_eq!(read("inf"), None);
    assert_eq!(read("NaN"), None);
    assert_eq!(read(" 1"), None);
    assert_eq!(read("1 "), None);
    assert_eq!(read("1,5"), None);
    assert_eq!(read("0x10"), None);
    assert_eq!(read("12a"), None);
    assert_eq!(read("1.2a"), None);
}

#[test]
fn parse_decimal_drops_digits_after_the_sixth() {
    assert_eq!(read("0.1234567"), Some(123_456));
    assert_eq!(read("0.9999999"), Some(999_999));
    assert_eq!(read("-0.0000009"), Some(0));
    assert_eq!(read("1.00000000000000000000000000000000000001"), Some(1_000_000));
}

#[test]
fn parse_decimal_holds_to_the_range_of_an_i64() {
    assert_eq!(read("9223372036854.775807"), Some(i64::MAX));
    assert_eq!(read("9223372036854.775808"), None);
    assert_eq!(read("-9223372036854.775808"), Some(i64::MIN));
    assert_eq!(read("-9223372036854.775809"), None);
    assert_eq!(read("9223372036855"), None);
    assert_eq!(read("99999999999999999999999999999999999999999999"), None);
    assert_eq!(read("0000000000000000000000000000000000000000001.5"), Some(1_500_000));
}

#[test]
fn format_decimal_writes_the_shortest_text() {
    assert_eq!(written(5_500_000), "5.5");
    assert_eq!(written(21_000_000), "21");
    assert_eq!(written(0), "0");
    assert_eq!(written(1), "0.000001");
    assert_eq!(written(-250_000), "-0.25");
    assert_eq!(written(-1), "-0.000001");
    assert_eq!(written(10_000_000), "10");
    assert_eq!(written(100_100), "0.1001");
    assert_eq!(written(i64::MAX), "9223372036854.775807");
    assert_eq!(written(i64::MIN), "-9223372036854.775808");
}

#[test]
fn format_then_parse_gives_the_value_back() {
    let values = [
        0i64,
        1,
        -1,
        9,
        10,
        999_999,
        1_000_000,
        1_000_001,
        -1_000_001,
        5_500_000,
        123_456_789_012,
        -123_456_789_012,
        i64::MAX,
        i64::MIN,
        i64::MAX - 1,
        i64::MIN + 1,
    ];
    for v in values {
        assert_eq!(parse_decimal(&format_decimal(v)), Some(v));
    }
    let mut v: i64 = 1;
    for _ in 0..60 {
        v = v.wrapping_mul(31).wrapping_add(7);
        assert_eq!(parse_decimal(&format_decimal(v)), Some(v));
        assert_eq!(parse_decimal(&format_decimal(-(v / 2))), Some(-(v / 2)));
    }
}

#[test]
fn parse_decimal_agrees_with_floating_point_reading() {
    let texts = [
        "0", "1", "5.5", "21.0", "33", "-0.25", "+7", ".5", "5.", "0.1", "0.000001", "123456.654321",
        "-98765.4321", "1000000", "0.5", "2.25", "19.99", "-0.000001", "3.141592",
    ];
    for text in texts {
        let fixed = parse_decimal(text.as_bytes()).unwrap();
        let float: f64 = text.parse().unwrap();
        assert!((fixed as f64 / 1e6 - float).abs() < 1e-9, "{}", text);
    }
}

#[test]
fn format_decimal_agrees_with_floating_point_writing() {
    let values = [0.0f64, 1.0, 5.5, 21.0, 33.0, -0.25, 0.1, 19.99, 100.001, -7.125, 1234.5];
    for value in values {
        let fixed = (value * 1e6).round() as i64;
        assert_eq!(String::from_utf8(format_decimal(fixed)).unwrap(), format!("{}", value));
    }
}
