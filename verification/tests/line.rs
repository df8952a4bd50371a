use apogeo::line::{format_row, format_status, parse_frame, parse_row, Reading};
use apogeo::sample::Sample;

fn reading(thrust: i64, temp_ambient: i64, temp_nozzle: i64) -> Reading {
    Reading { thrust, temp_ambient, temp_nozzle }
}

#[test]
fn serial_frame_parses_to_its_three_values() {
    let r = parse_frame(b"5.5,21.0,33.0").unwrap();
    assert_eq!(r.thrust, 5_500_000);
    assert_eq!(r.temp_ambient, 21_000_000);
    assert_eq!(r.temp_nozzle, 33_000_000);
    assert_eq!(r.thrust as f64 / 1e6, 5.5);
    assert_eq!(r.temp_ambient as f64 / 1e6, 21.0);
    assert_eq!(r.temp_nozzle as f64 / 1e6, 33.0);
}

#[test]
fn serial_frame_with_a_wrong_field_count_is_dropped() {
    assert_eq!(parse_frame(b"5.5,21.0"), None);
    assert_eq!(parse_frame(b"5.5"), None);
    assert_eq!(parse_frame(b""), None);
    assert_eq!(parse_frame(b"5.5,21.0,33.0,1.0"), None);
    assert_eq!(parse_frame(b"5.5,21.0,33.0,"), None);
    assert_eq!(parse_frame(b"1,2,3\n4,5,6"), None);
}

#[test]
fn serial_frame_with_a_bad_number_is_dropped() {
    assert_eq!(parse_frame(b"5.5,abc,33.0"), None);
    assert_eq!(parse_frame(b"5.5,,33.0"), None);
    assert_eq!(parse_frame(b"5.5,21.0,3 3"), None);
    assert_eq!(parse_frame(b"\xff\xfe,1,2"), None);
}

#[test]
fn serial_frame_may_have_white_space_around_fields() {
    assert_eq!(parse_frame(b" 5.5 , 21.0 ,33.0\r\n"), Some(reading(5_500_000, 21_000_000, 33_000_000)));
    assert_eq!(parse_frame(b"\t-1,\t+2,\t.5\n"), Some(reading(-1_000_000, 2_000_000, 500_000)));
}

#[test]
fn log_row_parses_to_a_sample() {
    assert_eq!(
        parse_row(b"00:00:01:000,20.0,21.0,31.0"),
        Some(Sample::new(1_000_000, 20_000_000, 21_000_000, 31_000_000))
    );
    assert_eq!(
        parse_row(b" 01:02:03:004 , 5.5 , 21 , 33 \r"),
        Some(Sample::new(3_723_004_000, 5_500_000, 21_000_000, 33_000_000))
    );
}

#[test]
fn log_row_that_does_not_read_is_dropped() {
    assert_eq!(parse_row(b""), None);
    assert_eq!(parse_row(b"00:00:01:000,20.0,21.0"), None);
    assert_eq!(parse_row(b"00:00:01:000,20.0,21.0,31.0,9"), None);
    assert_eq!(parse_row(b"00:00:01,20.0,21.0,31.0"), None);
    assert_eq!(parse_row(b"1.0,20.0,21.0,31.0"), None);
    assert_eq!(parse_row(b"00:00:01:000,x,21.0,31.0"), None);
    assert_eq!(parse_row(b"Tiempo,Empuje,Temperatura Ambiente,Temperatura Tobera"), None);
}

#[test]
fn format_row_writes_timestamp_and_values() {
    let row = format_row(3_723_004_999, &reading(5_500_000, 21_000_000, -250_000));
    assert_eq!(String::from_utf8(row).unwrap(), "01:02:03:004,5.5,21,-0.25");
}

#[test]
fn format_status_puts_bars_between_the_values() {
    let status = format_status(&reading(5_500_000, 21_000_000, 33_000_000));
    assert_eq!(String::from_utf8(status).unwrap(), "5.5 | 21 | 33");
}

#[test]
fn a_written_row_reads_back_as_its_sample() {
    let cases = [
        (0u64, reading(0, 0, 0)),
        (1_234_567, reading(5_500_000, 21_000_000, 33_000_000)),
        (86_400_000_123, reading(-1, i64::MAX, i64::MIN)),
        (i64::MAX as u64, reading(123_456_789, -987_654_321, 1)),
    ];
    for (elapsed, r) in cases {
        let row = format_row(elapsed, &r);
        let time = (elapsed - elapsed % 1000) as i64;
        assert_eq!(
            parse_row(&row),
            Some(Sample::new(time, r.thrust, r.temp_ambient, r.temp_nozzle))
        );
    }
}

#[test]
fn stamped_reading_is_a_sample() {
    let s = reading(1, 2, 3).stamped(42);
    assert_eq!(s, Sample::new(42, 1, 2, 3));
}
