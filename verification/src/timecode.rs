//! The time codec: between elapsed time in microseconds and the clock text
//! `HH:MM:SS:mmm` of the log.

use vstd::prelude::*;
use crate::decimal::{
    decimal_value, is_digit, lemma_digits_are_decimal, lemma_zero_padded, parse_decimal,
    push_padded, zero_padded, MINUS,
};
use crate::text::{free_of, lemma_split_joined, lemma_split_single, split, split_fields, COLON};

verus! {

/// The time, in microseconds, of a clock reading whose four fields have
/// the fixed-point values `hours`, `minutes`, `seconds` and `millis`:
/// `hours * 3600 + minutes * 60 + seconds + millis / 1000`.
pub open spec fn clock_time(hours: int, minutes: int, seconds: int, millis: int) -> int {
    hours * 3600 + minutes * 60 + seconds + millis / 1000
}

/// The time that the timestamp `s` reads, in microseconds.
///
/// A timestamp is four decimal numbers between colons: hours, minutes,
/// seconds, milliseconds. Text with another number of fields, with a field
/// that is no decimal number, or whose time does not fit in an `i64`, reads
/// nothing.
pub open spec fn timestamp_value(s: Seq<u8>) -> Option<i64> {
    let fields = split(s, COLON);
    if fields.len() != 4 {
        None
    } else {
        match (
            decimal_value(fields[0]),
            decimal_value(fields[1]),
            decimal_value(fields[2]),
            decimal_value(fields[3]),
        ) {
            (Some(hours), Some(minutes), Some(seconds), Some(millis)) => {
                let time = clock_time(hours as int, minutes as int, seconds as int, millis as int);
                if i64::MIN <= time <= i64::MAX {
                    Some(time as i64)
                } else {
                    None
                }
            },
            _ => None,
        }
    }
}

/// The timestamp of the elapsed time `elapsed`, in microseconds:
/// `HH:MM:SS:mmm`. Each field is cut from the time on its own: minutes and
/// seconds within 60, milliseconds within 1000, hours without a bound, so
/// that the hours take more than two digits from 100 hours on.
pub open spec fn timestamp_text(elapsed: nat) -> Seq<u8> {
    let millis = (elapsed % 1_000_000) / 1000;
    clock_text(elapsed) + seq![COLON] + zero_padded(millis, 3)
}

/// The clock reading `HH:MM:SS` of the elapsed time `elapsed`, in
/// microseconds, for display.
pub open spec fn clock_text(elapsed: nat) -> Seq<u8> {
    let seconds = elapsed / 1_000_000;
    zero_padded(seconds / 3600, 2) + seq![COLON] + zero_padded((seconds % 3600) / 60, 2) + seq![
        COLON,
    ] + zero_padded(seconds % 60, 2)
}

/// Reads a timestamp `hours:minutes:seconds:millis` as microseconds.
pub fn parse_timestamp(text: &[u8]) -> (r: Option<i64>)
    ensures
        r == timestamp_value(text@),
{
    let fields = split_fields(text, COLON);
    if fields.len() != 4 {
        return None;
    }
    let hours = parse_decimal(fields[0]);
    let minutes = parse_decimal(fields[1]);
    let seconds = parse_decimal(fields[2]);
    let millis = parse_decimal(fields[3]);
    match (hours, minutes, seconds, millis) {
        (Some(h), Some(m), Some(s), Some(ms)) => {
            let part: i128 = match (ms as i128).checked_div_euclid(1000) {
                Some(q) => q,
                None => 0,
            };
            let time: i128 = h as i128 * 3600 + m as i128 * 60 + s as i128 + part;
            if time < i64::MIN as i128 || time > i64::MAX as i128 {
                None
            } else {
                Some(time as i64)
            }
        },
        _ => None,
    }
}

/// Writes the clock reading `HH:MM:SS` of `elapsed` at the end of `out`.
fn push_clock(out: &mut Vec<u8>, elapsed: u64)
    ensures
        final(out)@ == old(out)@ + clock_text(elapsed as nat),
{
    let seconds: u64 = elapsed / 1_000_000;
    push_padded(out, (seconds / 3600) as u128, 2);
    out.push(COLON);
    push_padded(out, ((seconds % 3600) / 60) as u128, 2);
    out.push(COLON);
    push_padded(out, (seconds % 60) as u128, 2);
    proof {
        assert(out@ =~= old(out)@ + clock_text(elapsed as nat));
    }
}

/// Writes the elapsed time `elapsed`, in microseconds, as the timestamp
/// `HH:MM:SS:mmm` of the log.
pub fn format_timestamp(elapsed: u64) -> (text: Vec<u8>)
    ensures
        text@ == timestamp_text(elapsed as nat),
{
    let mut text: Vec<u8> = Vec::new();
    push_clock(&mut text, elapsed);
    text.push(COLON);
    push_padded(&mut text, ((elapsed % 1_000_000) / 1000) as u128, 3);
    proof {
        assert(text@ =~= timestamp_text(elapsed as nat));
    }
    text
}

/// Writes the elapsed time `elapsed`, in microseconds, as the clock
/// reading `HH:MM:SS` that the display shows.
pub fn format_elapsed(elapsed: u64) -> (text: Vec<u8>)
    ensures
        text@ == clock_text(elapsed as nat),
{
    let mut text: Vec<u8> = Vec::new();
    push_clock(&mut text, elapsed);
    proof {
        assert(text@ =~= clock_text(elapsed as nat));
    }
    text
}

/// A field of padded digits reads as the number it writes, in units.
proof fn lemma_field_value(n: nat, width: nat)
    requires
        n <= 9_000_000_000_000,
    ensures
        decimal_value(zero_padded(n, width)) == Some((n * 1_000_000) as i64),
{
    let field = zero_padded(n, width);
    lemma_zero_padded(n, width);
    lemma_digits_are_decimal(field);
    assert(field[0] != MINUS) by {
        assert(is_digit(field[0]));
    }
}

/// A field of padded digits holds no colon.
proof fn lemma_field_free(n: nat, width: nat)
    ensures
        free_of(zero_padded(n, width), COLON),
{
    let field = zero_padded(n, width);
    lemma_zero_padded(n, width);
    assert forall|i: int| 0 <= i < field.len() implies #[trigger] field[i] != COLON by {
        assert(is_digit(field[i]));
    }
}

/// The four fields of a written timestamp.
proof fn lemma_timestamp_fields(elapsed: nat)
    ensures
        split(timestamp_text(elapsed), COLON) == seq![
            zero_padded((elapsed / 1_000_000) / 3600, 2),
            zero_padded(((elapsed / 1_000_000) % 3600) / 60, 2),
            zero_padded((elapsed / 1_000_000) % 60, 2),
            zero_padded((elapsed % 1_000_000) / 1000, 3),
        ],
{
    let seconds = elapsed / 1_000_000;
    let hh = zero_padded(seconds / 3600, 2);
    let mm = zero_padded((seconds % 3600) / 60, 2);
    let ss = zero_padded(seconds % 60, 2);
    let mmm = zero_padded((elapsed % 1_000_000) / 1000, 3);
    lemma_field_free(seconds / 3600, 2);
    lemma_field_free((seconds % 3600) / 60, 2);
    lemma_field_free(seconds % 60, 2);
    lemma_field_free((elapsed % 1_000_000) / 1000, 3);
    lemma_split_single(hh, COLON);
    lemma_split_joined(hh, mm, COLON);
    lemma_split_joined(hh + seq![COLON] + mm, ss, COLON);
    lemma_split_joined(hh + seq![COLON] + mm + seq![COLON] + ss, mmm, COLON);
    assert(timestamp_text(elapsed) =~= hh + seq![COLON] + mm + seq![COLON] + ss + seq![COLON]
        + mmm);
    assert(split(timestamp_text(elapsed), COLON) =~= seq![hh, mm, ss, mmm]);
}

/// The clock fields of an elapsed time add up to it, cut to the
/// millisecond.
proof fn lemma_clock_fields_add_up(elapsed: int)
    requires
        0 <= elapsed,
    ensures
        clock_time(
            ((elapsed / 1_000_000) / 3600) * 1_000_000,
            (((elapsed / 1_000_000) % 3600) / 60) * 1_000_000,
            ((elapsed / 1_000_000) % 60) * 1_000_000,
            ((elapsed % 1_000_000) / 1000) * 1_000_000,
        ) == elapsed - elapsed % 1000,
{
    let seconds = elapsed / 1_000_000;
    let rest = elapsed % 1_000_000;
    let h = seconds / 3600;
    let m = (seconds % 3600) / 60;
    let s = seconds % 60;
    let ms = rest / 1000;
    assert(seconds == h * 3600 + m * 60 + s);
    assert((ms * 1_000_000) / 1000 == ms * 1000);
    assert(rest % 1000 == elapsed % 1000);
    assert(ms * 1000 == rest - rest % 1000);
}

/// Reading a written timestamp gives the time back, cut to the
/// millisecond: the timestamp of an elapsed time reads as that time less
/// what it has beyond a whole millisecond, so within 1 ms of it. This
/// holds of every elapsed time whose whole milliseconds fit in an `i64`.
pub proof fn lemma_timestamp_round_trip(elapsed: u64)
    requires
        elapsed - elapsed % 1000 <= i64::MAX,
    ensures
        timestamp_value(timestamp_text(elapsed as nat)) == Some((elapsed - elapsed % 1000) as i64),
        elapsed - 1000 < elapsed - elapsed % 1000 <= elapsed,
{
    let seconds = (elapsed / 1_000_000) as nat;
    let h = seconds / 3600;
    let m = (seconds % 3600) / 60;
    let s = seconds % 60;
    let ms = ((elapsed % 1_000_000) / 1000) as nat;
    lemma_field_value(h, 2);
    lemma_field_value(m, 2);
    lemma_field_value(s, 2);
    lemma_field_value(ms, 3);
    lemma_timestamp_fields(elapsed as nat);
    lemma_clock_fields_add_up(elapsed as int);
    let fields = split(timestamp_text(elapsed as nat), COLON);
    assert(fields.len() == 4);
    assert(decimal_value(fields[0]) == Some((h * 1_000_000) as i64));
    assert(decimal_value(fields[1]) == Some((m * 1_000_000) as i64));
    assert(decimal_value(fields[2]) == Some((s * 1_000_000) as i64));
    assert(decimal_value(fields[3]) == Some((ms * 1_000_000) as i64));
}

/// A timestamp is not empty, and is made of digits and colons alone.
pub proof fn lemma_timestamp_text_bytes(elapsed: nat)
    ensures
        timestamp_text(elapsed).len() > 0,
        forall|i: int|
            0 <= i < timestamp_text(elapsed).len() ==> {
                let b = #[trigger] timestamp_text(elapsed)[i];
                is_digit(b) || b == COLON
            },
{
    let seconds = elapsed / 1_000_000;
    let hh = zero_padded(seconds / 3600, 2);
    let mm = zero_padded((seconds % 3600) / 60, 2);
    let ss = zero_padded(seconds % 60, 2);
    let mmm = zero_padded((elapsed % 1_000_000) / 1000, 3);
    lemma_zero_padded(seconds / 3600, 2);
    lemma_zero_padded((seconds % 3600) / 60, 2);
    lemma_zero_padded(seconds % 60, 2);
    lemma_zero_padded((elapsed % 1_000_000) / 1000, 3);
    let text = timestamp_text(elapsed);
    assert(text =~= hh + seq![COLON] + mm + seq![COLON] + ss + seq![COLON] + mmm);
    assert forall|i: int| 0 <= i < text.len() implies {
        let b = #[trigger] text[i];
        is_digit(b) || b == COLON
    } by {
        let a = hh.len();
        let b = a + 1 + mm.len();
        let c = b + 1 + ss.len();
        if i < a {
            assert(is_digit(hh[i]));
        } else if i == a {
        } else if i < b {
            assert(text[i] == mm[i - a - 1]);
            assert(is_digit(mm[i - a - 1]));
        } else if i == b {
        } else if i < c {
            assert(text[i] == ss[i - b - 1]);
            assert(is_digit(ss[i - b - 1]));
        } else if i == c {
        } else {
            assert(text[i] == mmm[i - c - 1]);
            assert(is_digit(mmm[i - c - 1]));
        }
    }
}

} // verus!
