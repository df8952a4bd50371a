//! The line parser: one line of text to one reading, for the two line
//! formats, and the writer of the log's rows.
//!
//! A serial frame is three decimal numbers between commas: thrust, ambient
//! temperature, nozzle temperature. A log row is a timestamp and the same
//! three numbers. White space around a field does not count. A line with
//! another number of fields, or with a field that does not read, gives
//! nothing.

use vstd::prelude::*;
use crate::decimal::{
    decimal_text, decimal_value, format_decimal, is_decimal_byte, is_digit,
    lemma_decimal_round_trip, lemma_decimal_text_bytes, parse_decimal,
};
use crate::sample::Sample;
use crate::text::{
    free_of, lemma_split_joined, lemma_split_single, lemma_trim_nothing, push_bytes, split,
    split_fields, trim, trim_bytes, COLON, COMMA,
};
use crate::timecode::{
    format_timestamp, lemma_timestamp_round_trip, lemma_timestamp_text_bytes, parse_timestamp,
    timestamp_text, timestamp_value,
};

verus! {

/// The three measurements of one serial frame, in millionths.
#[derive(Clone, Copy, Debug, PartialEq, Eq, Structural)]
pub struct Reading {
    /// Thrust, in millionths of a newton.
    pub thrust: i64,
    /// Ambient temperature, in millionths of a degree.
    pub temp_ambient: i64,
    /// Nozzle temperature, in millionths of a degree.
    pub temp_nozzle: i64,
}

impl Reading {
    /// The sample that this reading makes at the time `time`.
    pub open spec fn at(self, time: i64) -> Sample {
        Sample {
            time,
            thrust: self.thrust,
            temp_ambient: self.temp_ambient,
            temp_nozzle: self.temp_nozzle,
        }
    }

    /// The sample that this reading makes at the time `time`, in
    /// microseconds.
    pub fn stamped(&self, time: i64) -> (s: Sample)
        ensures
            s == self.at(time),
    {
        Sample {
            time,
            thrust: self.thrust,
            temp_ambient: self.temp_ambient,
            temp_nozzle: self.temp_nozzle,
        }
    }
}

/// The three bytes between the numbers of the status text: a bar with a
/// space on either side.
pub open spec fn bar() -> Seq<u8> {
    seq![0x20u8, 0x7cu8, 0x20u8]
}

/// What the serial frame `line` reads as.
pub open spec fn frame_reading(line: Seq<u8>) -> Option<Reading> {
    let fields = split(line, COMMA);
    if fields.len() != 3 {
        None
    } else {
        match (
            decimal_value(trim(fields[0])),
            decimal_value(trim(fields[1])),
            decimal_value(trim(fields[2])),
        ) {
            (Some(thrust), Some(temp_ambient), Some(temp_nozzle)) => Some(
                Reading { thrust, temp_ambient, temp_nozzle },
            ),
            _ => None,
        }
    }
}

/// What the log row `line` reads as.
pub open spec fn row_sample(line: Seq<u8>) -> Option<Sample> {
    let fields = split(line, COMMA);
    if fields.len() != 4 {
        None
    } else {
        match (
            timestamp_value(trim(fields[0])),
            decimal_value(trim(fields[1])),
            decimal_value(trim(fields[2])),
            decimal_value(trim(fields[3])),
        ) {
            (Some(time), Some(thrust), Some(temp_ambient), Some(temp_nozzle)) => Some(
                Sample { time, thrust, temp_ambient, temp_nozzle },
            ),
            _ => None,
        }
    }
}

/// The log row of a reading taken at the elapsed time `elapsed`, in
/// microseconds, without a line end.
pub open spec fn row_text(elapsed: nat, reading: Reading) -> Seq<u8> {
    timestamp_text(elapsed) + seq![COMMA] + decimal_text(reading.thrust as int) + seq![COMMA]
        + decimal_text(reading.temp_ambient as int) + seq![COMMA] + decimal_text(
        reading.temp_nozzle as int,
    )
}

/// The status text of a reading: its three numbers between bars.
pub open spec fn status_text(reading: Reading) -> Seq<u8> {
    decimal_text(reading.thrust as int) + bar() + decimal_text(reading.temp_ambient as int)
        + bar() + decimal_text(reading.temp_nozzle as int)
}

/// Reads one serial frame: `thrust,ambient,nozzle`.
pub fn parse_frame(line: &[u8]) -> (r: Option<Reading>)
    ensures
        r == frame_reading(line@),
{
    let fields = split_fields(line, COMMA);
    if fields.len() != 3 {
        return None;
    }
    let thrust = parse_decimal(trim_bytes(fields[0]));
    let temp_ambient = parse_decimal(trim_bytes(fields[1]));
    let temp_nozzle = parse_decimal(trim_bytes(fields[2]));
    match (thrust, temp_ambient, temp_nozzle) {
        (Some(thrust), Some(temp_ambient), Some(temp_nozzle)) => Some(
            Reading { thrust, temp_ambient, temp_nozzle },
        ),
        _ => None,
    }
}

/// Reads one log row: `HH:MM:SS:mmm,thrust,ambient,nozzle`.
pub fn parse_row(line: &[u8]) -> (r: Option<Sample>)
    ensures
        r == row_sample(line@),
{
    let fields = split_fields(line, COMMA);
    if fields.len() != 4 {
        return None;
    }
    let time = parse_timestamp(trim_bytes(fields[0]));
    let thrust = parse_decimal(trim_bytes(fields[1]));
    let temp_ambient = parse_decimal(trim_bytes(fields[2]));
    let temp_nozzle = parse_decimal(trim_bytes(fields[3]));
    match (time, thrust, temp_ambient, temp_nozzle) {
        (Some(time), Some(thrust), Some(temp_ambient), Some(temp_nozzle)) => Some(
            Sample { time, thrust, temp_ambient, temp_nozzle },
        ),
        _ => None,
    }
}

/// Writes the log row of `reading`, taken at the elapsed time `elapsed` in
/// microseconds, without a line end.
pub fn format_row(elapsed: u64, reading: &Reading) -> (text: Vec<u8>)
    ensures
        text@ == row_text(elapsed as nat, *reading),
{
    let mut text = format_timestamp(elapsed);
    text.push(COMMA);
    let thrust = format_decimal(reading.thrust);
    push_bytes(&mut text, thrust.as_slice());
    text.push(COMMA);
    let temp_ambient = format_decimal(reading.temp_ambient);
    push_bytes(&mut text, temp_ambient.as_slice());
    text.push(COMMA);
    let temp_nozzle = format_decimal(reading.temp_nozzle);
    push_bytes(&mut text, temp_nozzle.as_slice());
    proof {
        assert(text@ =~= row_text(elapsed as nat, *reading));
    }
    text
}

/// Writes the status text of `reading`: `thrust | ambient | nozzle`.
pub fn format_status(reading: &Reading) -> (text: Vec<u8>)
    ensures
        text@ == status_text(*reading),
{
    let mut text = format_decimal(reading.thrust);
    text.push(0x20);
    text.push(0x7c);
    text.push(0x20);
    let temp_ambient = format_decimal(reading.temp_ambient);
    push_bytes(&mut text, temp_ambient.as_slice());
    text.push(0x20);
    text.push(0x7c);
    text.push(0x20);
    let temp_nozzle = format_decimal(reading.temp_nozzle);
    push_bytes(&mut text, temp_nozzle.as_slice());
    proof {
        assert(text@ =~= status_text(*reading));
    }
    text
}

/// The text of a value is free of commas and is its own trim.
proof fn lemma_decimal_field(v: i64)
    ensures
        free_of(decimal_text(v as int), COMMA),
        trim(decimal_text(v as int)) == decimal_text(v as int),
        decimal_value(decimal_text(v as int)) == Some(v),
{
    let text = decimal_text(v as int);
    lemma_decimal_text_bytes(v);
    lemma_decimal_round_trip(v);
    assert forall|i: int| 0 <= i < text.len() implies #[trigger] text[i] != COMMA by {
        assert(is_decimal_byte(text[i]));
    }
    assert(is_decimal_byte(text[0]));
    assert(is_decimal_byte(text[text.len() - 1]));
    lemma_trim_nothing(text);
}

/// What the log writes, the loader reads: the row written for a reading
/// at an elapsed time reads as the sample of that reading, at that time
/// cut to the millisecond. This holds of every elapsed time whose whole
/// milliseconds fit in an `i64`.
pub proof fn lemma_row_round_trip(elapsed: u64, reading: Reading)
    requires
        elapsed - elapsed % 1000 <= i64::MAX,
    ensures
        row_sample(row_text(elapsed as nat, reading)) == Some(
            reading.at((elapsed - elapsed % 1000) as i64),
        ),
{
    let t = timestamp_text(elapsed as nat);
    let a = decimal_text(reading.thrust as int);
    let b = decimal_text(reading.temp_ambient as int);
    let c = decimal_text(reading.temp_nozzle as int);
    lemma_timestamp_text_bytes(elapsed as nat);
    lemma_timestamp_round_trip(elapsed);
    assert forall|i: int| 0 <= i < t.len() implies #[trigger] t[i] != COMMA by {
        let x = t[i];
        assert(is_digit(x) || x == COLON);
    }
    assert(trim(t) == t) by {
        let first = t[0];
        let last = t[t.len() - 1];
        assert(is_digit(first) || first == COLON);
        assert(is_digit(last) || last == COLON);
        lemma_trim_nothing(t);
    }
    lemma_decimal_field(reading.thrust);
    lemma_decimal_field(reading.temp_ambient);
    lemma_decimal_field(reading.temp_nozzle);
    lemma_split_single(t, COMMA);
    lemma_split_joined(t, a, COMMA);
    lemma_split_joined(t + seq![COMMA] + a, b, COMMA);
    lemma_split_joined(t + seq![COMMA] + a + seq![COMMA] + b, c, COMMA);
    let fields = split(row_text(elapsed as nat, reading), COMMA);
    assert(fields =~= seq![t, a, b, c]);
    assert(fields[0] == t && fields[1] == a && fields[2] == b && fields[3] == c);
}

} // verus!
