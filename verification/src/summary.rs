//! The summary report of a loaded series, as text.

use vstd::prelude::*;
use vstd::string::*;
use crate::decimal::{magnitude, push_padded, zero_padded, MINUS, POINT};
use crate::metrics::{metrics_of, specific_impulse, specific_impulse_of, DerivedMetrics};
use crate::sample::Sample;
use crate::text::{push_bytes, NEWLINE};

verus! {

/// The hundredths nearest to the fixed-point magnitude of `v`; a half goes
/// up.
pub open spec fn hundredths(v: int) -> nat {
    (magnitude(v) + 5_000) / 10_000
}

/// The text of the fixed-point value `v` with two fraction digits, rounded
/// to the nearest hundredth: `15000000` as `15.00`, `-1234567` as `-1.23`.
pub open spec fn two_places_text(v: int) -> Seq<u8> {
    let sign = if v < 0 {
        seq![MINUS]
    } else {
        Seq::<u8>::empty()
    };
    sign + zero_padded(hundredths(v) / 100, 1) + seq![POINT] + zero_padded(hundredths(v) % 100, 2)
}

/// One line of the report: a label, a value, a unit and a line end.
pub open spec fn report_line(label: &str, value: Seq<u8>, unit: &str) -> Seq<u8> {
    label.spec_bytes() + value + unit.spec_bytes() + seq![NEWLINE]
}

/// The two lines of the report on impulse: the total and the specific
/// impulse, or, where the total is not known, a note in place of each.
pub open spec fn impulse_lines(total: Option<i128>) -> Seq<u8> {
    match total {
        Some(impulse) => report_line("Impulso total: ", two_places_text(impulse as int), " N⋅s")
            + report_line(
            "Impulso específico: ",
            two_places_text(specific_impulse_of(impulse as int)),
            " s",
        ),
        None => report_line("Impulso total: ", "fuera de rango".spec_bytes(), "") + report_line(
            "Impulso específico: ",
            "fuera de rango".spec_bytes(),
            "",
        ),
    }
}

/// The summary report of a series of `count` samples with the metrics `m`,
/// loaded from the file named `file_name`.
pub open spec fn summary_text(file_name: Seq<u8>, m: DerivedMetrics, count: nat) -> Seq<u8> {
    report_line("=== RESUMEN DEL ANÁLISIS ===", Seq::<u8>::empty(), "") + report_line(
        "Archivo analizado: ",
        file_name,
        "",
    ) + report_line("", Seq::<u8>::empty(), "") + report_line(
        "ESTADÍSTICAS DE EMPUJE:",
        Seq::<u8>::empty(),
        "",
    ) + report_line("Empuje máximo: ", two_places_text(m.max_thrust as int), " N") + report_line(
        "Empuje promedio: ",
        two_places_text(m.avg_thrust as int),
        " N",
    ) + report_line("", Seq::<u8>::empty(), "") + report_line("IMPULSO:", Seq::<u8>::empty(), "")
        + impulse_lines(m.total_impulse) + report_line("", Seq::<u8>::empty(), "") + report_line(
        "DURACIÓN:",
        Seq::<u8>::empty(),
        "",
    ) + report_line("Duración total: ", two_places_text(m.duration as int), " s") + report_line(
        "Muestras totales: ",
        zero_padded(count, 1),
        "",
    )
}

/// Writes the fixed-point value `v` with two fraction digits.
pub fn format_two_places(v: i128) -> (text: Vec<u8>)
    ensures
        text@ == two_places_text(v as int),
{
    let mut text: Vec<u8> = Vec::new();
    let size: u128 = if v >= 0 {
        v as u128
    } else if v == i128::MIN {
        0x8000_0000_0000_0000_0000_0000_0000_0000
    } else {
        (-v) as u128
    };
    if v < 0 {
        text.push(MINUS);
    }
    let rounded: u128 = (size + 5_000) / 10_000;
    push_padded(&mut text, rounded / 100, 1);
    text.push(POINT);
    push_padded(&mut text, rounded % 100, 2);
    proof {
        assert(text@ =~= two_places_text(v as int));
    }
    text
}

/// Writes one line of the report at the end of `out`.
fn push_line(out: &mut Vec<u8>, label: &str, value: &[u8], unit: &str)
    ensures
        final(out)@ == old(out)@ + report_line(label, value@, unit),
{
    push_bytes(out, label.as_bytes());
    push_bytes(out, value);
    push_bytes(out, unit.as_bytes());
    out.push(NEWLINE);
    proof {
        assert(out@ =~= old(out)@ + report_line(label, value@, unit));
    }
}

/// Writes the two lines on impulse at the end of `out`.
fn push_impulse_lines(out: &mut Vec<u8>, total: Option<i128>)
    ensures
        final(out)@ == old(out)@ + impulse_lines(total),
{
    match total {
        Some(impulse) => {
            let whole = format_two_places(impulse);
            push_line(out, "Impulso total: ", whole.as_slice(), " N⋅s");
            let specific = format_two_places(specific_impulse(impulse));
            push_line(out, "Impulso específico: ", specific.as_slice(), " s");
        },
        None => {
            push_line(out, "Impulso total: ", "fuera de rango".as_bytes(), "");
            push_line(out, "Impulso específico: ", "fuera de rango".as_bytes(), "");
        },
    }
    proof {
        assert(out@ =~= old(out)@ + impulse_lines(total));
    }
}

/// Writes the summary report of a series of `count` samples with the
/// metrics `m`, loaded from the file named `file_name`.
pub fn write_summary(file_name: &[u8], m: &DerivedMetrics, count: usize) -> (text: Vec<u8>)
    ensures
        text@ == summary_text(file_name@, *m, count as nat),
{
    let mut text: Vec<u8> = Vec::new();
    let nothing: Vec<u8> = Vec::new();
    let ghost none = Seq::<u8>::empty();
    assert(nothing@ == none);
    push_line(&mut text, "=== RESUMEN DEL ANÁLISIS ===", nothing.as_slice(), "");
    push_line(&mut text, "Archivo analizado: ", file_name, "");
    push_line(&mut text, "", nothing.as_slice(), "");
    push_line(&mut text, "ESTADÍSTICAS DE EMPUJE:", nothing.as_slice(), "");
    let peak = format_two_places(m.max_thrust as i128);
    push_line(&mut text, "Empuje máximo: ", peak.as_slice(), " N");
    let mean = format_two_places(m.avg_thrust as i128);
    push_line(&mut text, "Empuje promedio: ", mean.as_slice(), " N");
    push_line(&mut text, "", nothing.as_slice(), "");
    push_line(&mut text, "IMPULSO:", nothing.as_slice(), "");
    push_impulse_lines(&mut text, m.total_impulse);
    push_line(&mut text, "", nothing.as_slice(), "");
    push_line(&mut text, "DURACIÓN:", nothing.as_slice(), "");
    let span = format_two_places(m.duration);
    push_line(&mut text, "Duración total: ", span.as_slice(), " s");
    let mut samples: Vec<u8> = Vec::new();
    push_padded(&mut samples, count as u128, 1);
    assert(samples@ =~= zero_padded(count as nat, 1));
    push_line(&mut text, "Muestras totales: ", samples.as_slice(), "");
    proof {
        assert(text@ =~= summary_text(file_name@, *m, count as nat));
    }
    text
}

/// The summary report of `samples`, loaded from the file named
/// `file_name`; `None` for an empty series, of which there is nothing to
/// report.
pub fn export_summary(samples: &[Sample], file_name: &[u8]) -> (r: Option<Vec<u8>>)
    ensures
        r is None <==> samples@.len() == 0,
        r matches Some(text) ==> text@ == summary_text(
            file_name@,
            metrics_of(samples@),
            samples@.len(),
        ),
{
    match DerivedMetrics::compute(samples) {
        None => None,
        Some(metrics) => Some(write_summary(file_name, &metrics, samples.len())),
    }
}

} // verus!
