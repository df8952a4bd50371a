use apogeo::timecode::{format_elapsed, format_timestamp, parse_timestamp};

fn stamp(elapsed: u64) -> String {
    String::from_utf8(format_timestamp(elapsed)).unwrap()
}

fn clock(elapsed: u64) -> String {
    String::from_utf8(format_elapsed(elapsed)).unwrap()
}

fn read(text: &str) -> Option<i64> {
    parse_timestamp(text.as_bytes())
}

#[test]
fn format_timestamp_pads_each_field() {
    assert_eq!(stamp(0), "00:00:00:000");
    assert_eq!(stamp(1_000_000), "00:00:01:000");
    assert_eq!(stamp(3_723_004_000), "01:02:03:004");
    assert_eq!(stamp(59_999_000), "00:00:59:999");
    assert_eq!(stamp(86_399_999_000), "23:59:59:999");
}

#[test]
fn format_timestamp_cuts_below_the_millisecond() {
    assert_eq!(stamp(999), "00:00:00:000");
    assert_eq!(stamp(1_000), "00:00:00:001");
    assert_eq!(stamp(3_723_004_999), "01:02:03:004");
}

#[test]
fn format_timestamp_lets_the_hours_grow() {
    assert_eq!(stamp(360_000_000_000), "100:00:00:000");
    assert_eq!(stamp(u64::MAX), "5124095576:01:49:551");
}

#[test]
fn format_elapsed_leaves_the_milliseconds_out() {
    assert_eq!(clock(0), "00:00:00");
    assert_eq!(clock(3_723_004_999), "01:02:03");
    assert_eq!(clock(360_000_000_000), "100:00:00");
}

#[test]
fn parse_timestamp_applies_the_formula() {
    assert_eq!(read("00:00:00:000"), Some(0));
    assert_eq!(read("00:00:01:000"), Some(1_000_000));
    assert_eq!(read("01:02:03:004"), Some(3_723_004_000));
    assert_eq!(read("1:2:3:4"), Some(3_723_004_000));
    assert_eq!(read("00:00:00:1"), Some(1_000));
    assert_eq!(read("0:90:0:0"), Some(5_400_000_000));
    assert_eq!(read("0:0:0:1500"), Some(1_500_000));
}

#[test]
fn parse_timestamp_takes_decimal_fields() {
    assert_eq!(read("1.5:0:0:0"), Some(5_400_000_000));
    assert_eq!(read("0:0:0.25:0"), Some(250_000));
    assert_eq!(read("0:0:0:0.5"), Some(500));
    assert_eq!(read("-1:0:0:0"), Some(-3_600_000_000));
    assert_eq!(read("0:0:0:-0.001"), Some(-1));
}

#[test]
fn parse_timestamp_wants_four_fields() {
    assert_eq!(read(""), None);
    assert_eq!(read("12"), None);
    assert_eq!(read("00:00:01"), None);
    assert_eq!(read("00:00:00:000:0"), None);
    assert_eq!(read("1.5"), None);
}

#[test]
fn parse_timestamp_wants_numbers() {
    assert_eq!(read("aa:00:00:000"), None);
    assert_eq!(read("00::00:000"), None);
    assert_eq!(read("00:00:00:"), None);
    assert_eq!(read("00:00:00:0x1"), None);
    assert_eq!(read("00: 00:00:000"), None);
    assert_eq!(read("Tiempo"), None);
}

#[test]
fn parse_timestamp_holds_to_the_range_of_an_i64() {
    assert_eq!(read("2562047788:00:54:775.807"), Some(i64::MAX));
    assert_eq!(read("2562047788:00:54:775.808"), None);
    assert_eq!(read("9223372036854:0:0:0"), None);
}

#[test]
fn timestamp_round_trip_is_within_a_millisecond() {
    let mut d: u64 = 0;
    for k in 0..2000u64 {
        let read_back = parse_timestamp(&format_timestamp(d)).unwrap();
        assert_eq!(read_back as u64, d - d % 1000);
        assert!(d - (read_back as u64) < 1000);
        d = d.wrapping_mul(6364136223846793005).wrapping_add(k + 1) % (i64::MAX as u64);
    }
    let edge = i64::MAX as u64;
    assert_eq!(parse_timestamp(&format_timestamp(edge)), Some((edge - edge % 1000) as i64));
    assert_eq!(parse_timestamp(&format_timestamp(edge + 1000)), None);
}

#[test]
fn parse_timestamp_agrees_with_the_formula_in_floating_point() {
    let cases = [("00:00:01:000", 1.0), ("01:02:03:004", 3723.004), ("10:00:00:500", 36000.5), ("0:0:59:999", 59.999)];
    for (text, seconds) in cases {
        let micros = parse_timestamp(text.as_bytes()).unwrap();
        let expected: f64 = seconds;
        assert!((micros as f64 / 1e6 - expected).abs() < 1e-9);
    }
}
