//! Batch ingestion of a log file: every row of the text that reads as a
//! sample, in file order.

use vstd::prelude::*;
use vstd::string::*;
use crate::buffer::SeriesBuffer;
use crate::decimal::{decimal_text, is_decimal_byte, is_digit, lemma_decimal_text_bytes};
use crate::line::{lemma_row_round_trip, parse_row, row_sample, row_text, Reading};
use crate::metrics::{metrics_of, DerivedMetrics};
use crate::sample::Sample;
use crate::text::{
    contains, contains_bytes, free_of, lemma_split_joined, lemma_split_single, occurs_at, split,
    split_fields, COLON, COMMA, NEWLINE,
};
use crate::timecode::{lemma_timestamp_text_bytes, timestamp_text};

verus! {

/// Why a log file could not be loaded.
#[derive(Clone, Copy, Debug, PartialEq, Eq, Structural)]
pub enum LoadError {
    /// The file could not be opened.
    Open,
    /// The file holds no row that reads as a sample.
    NoValidData,
}

impl LoadError {
    /// What the display says of this error; for a file that could not be
    /// opened the caller may add the system's own words behind it.
    pub open spec fn text(self) -> Seq<char> {
        match self {
            LoadError::Open => "Error al abrir el archivo"@,
            LoadError::NoValidData => "No se encontraron datos válidos en el archivo CSV"@,
        }
    }

    /// What the display says of this error.
    pub fn message(&self) -> (m: &'static str)
        ensures
            m@ == self.text(),
    {
        match self {
            LoadError::Open => "Error al abrir el archivo",
            LoadError::NoValidData => "No se encontraron datos válidos en el archivo CSV",
        }
    }
}

/// The header row that a new log file starts with.
pub open spec fn header_text() -> Seq<u8> {
    "Tiempo,Empuje,Temperatura Ambiente,Temperatura Tobera".spec_bytes()
}

/// Whether `line` is a header row: one that holds the name of the first
/// or of the second column.
pub open spec fn is_header(line: Seq<u8>) -> bool {
    contains(line, "Tiempo".spec_bytes()) || contains(line, "Empuje".spec_bytes())
}

/// The lines of a file that are taken as data: all of them, but for a
/// first line that is a header.
pub open spec fn data_lines(lines: Seq<Seq<u8>>) -> Seq<Seq<u8>> {
    if lines.len() > 0 && is_header(lines[0]) {
        lines.drop_first()
    } else {
        lines
    }
}

/// The samples of the lines that read as one, in order.
pub open spec fn samples_of(lines: Seq<Seq<u8>>) -> Seq<Sample>
    decreases lines.len(),
{
    if lines.len() == 0 {
        Seq::<Sample>::empty()
    } else {
        match row_sample(lines.last()) {
            Some(sample) => samples_of(lines.drop_last()).push(sample),
            None => samples_of(lines.drop_last()),
        }
    }
}

/// The samples that the log text `text` holds.
pub open spec fn csv_samples(text: Seq<u8>) -> Seq<Sample> {
    samples_of(data_lines(split(text, NEWLINE)))
}

/// The header row that a new log file starts with, without a line end.
pub fn header_row() -> (row: &'static [u8])
    ensures
        row@ == header_text(),
{
    "Tiempo,Empuje,Temperatura Ambiente,Temperatura Tobera".as_bytes()
}

/// Whether `line` is a header row.
pub fn is_header_row(line: &[u8]) -> (r: bool)
    ensures
        r == is_header(line@),
{
    contains_bytes(line, "Tiempo".as_bytes()) || contains_bytes(line, "Empuje".as_bytes())
}

/// Reads the samples of a log text. A first line that is a header is
/// passed over; of the other lines, each that reads as a row gives its
/// sample and each that does not is dropped.
pub fn parse_csv(text: &[u8]) -> (samples: Vec<Sample>)
    ensures
        samples@ == csv_samples(text@),
{
    let lines = split_fields(text, NEWLINE);
    let n = lines.len();
    proof {
        crate::text::lemma_split_nonempty(text@, NEWLINE);
    }
    let start: usize = if is_header_row(lines[0]) {
        1
    } else {
        0
    };
    let ghost data = data_lines(split(text@, NEWLINE));
    let mut samples: Vec<Sample> = Vec::new();
    let mut i: usize = start;
    proof {
        assert(data.len() == n - start);
        assert(data.take(0) =~= Seq::<Seq<u8>>::empty());
    }
    while i < n
        invariant
            start <= i <= n,
            n == lines@.len(),
            data.len() == n - start,
            forall|k: int| 0 <= k < data.len() ==> #[trigger] data[k] == lines@[start + k]@,
            samples@ == samples_of(data.take(i - start)),
        decreases n - i,
    {
        proof {
            assert(data.take(i - start + 1).drop_last() =~= data.take(i - start));
            assert(data.take(i - start + 1).last() == data[i - start]);
        }
        match parse_row(lines[i]) {
            Some(sample) => {
                samples.push(sample);
            },
            None => {},
        }
        i += 1;
    }
    proof {
        assert(data.take(n - start) =~= data);
    }
    samples
}

/// Loads a log file into `buffer` and computes its metrics.
///
/// `file` is the contents of the file, or `None` where it could not be
/// opened. The load succeeds when at least one row reads as a sample: the
/// samples then replace the buffer's series as a whole. Otherwise the
/// buffer stays as it was.
pub fn load_csv(buffer: &mut SeriesBuffer, file: Option<&[u8]>) -> (r: Result<
    DerivedMetrics,
    LoadError,
>)
    ensures
        final(buffer).limit() == old(buffer).limit(),
        match file {
            None => r == Err::<DerivedMetrics, LoadError>(LoadError::Open) && final(buffer)@ == old(
                buffer,
            )@,
            Some(text) => if csv_samples(text@).len() == 0 {
                r == Err::<DerivedMetrics, LoadError>(LoadError::NoValidData) && final(buffer)@
                    == old(buffer)@
            } else {
                r == Ok::<DerivedMetrics, LoadError>(metrics_of(csv_samples(text@)))
                    && final(buffer)@ == csv_samples(text@)
            },
        },
{
    match file {
        None => Err(LoadError::Open),
        Some(text) => {
            let samples = parse_csv(text);
            match DerivedMetrics::compute(samples.as_slice()) {
                None => Err(LoadError::NoValidData),
                Some(metrics) => {
                    buffer.replace_all(samples);
                    Ok(metrics)
                },
            }
        },
    }
}

/// The header row that the log starts with is taken as a header when the
/// log is loaded.
pub proof fn lemma_header_row_is_header()
    ensures
        is_header(header_text()),
{
    reveal_strlit("Tiempo,Empuje,Temperatura Ambiente,Temperatura Tobera");
    reveal_strlit("Tiempo");
    let row = "Tiempo,Empuje,Temperatura Ambiente,Temperatura Tobera";
    let word = "Tiempo";
    assert(is_ascii(row));
    assert(is_ascii(word));
    is_ascii_spec_bytes(row);
    is_ascii_spec_bytes(word);
    assert(row.spec_bytes().subrange(0, 6) =~= word.spec_bytes());
    assert(occurs_at(row.spec_bytes(), word.spec_bytes(), 0));
}

/// One entry of a log: a reading and the elapsed time, in microseconds, at
/// which it was taken.
pub struct LogEntry {
    /// The elapsed time, in microseconds.
    pub elapsed: u64,
    /// The reading.
    pub reading: Reading,
}

impl LogEntry {
    /// The sample that this entry reads back as: its reading, at its time
    /// cut to the millisecond.
    pub open spec fn sample(self) -> Sample {
        self.reading.at((self.elapsed - self.elapsed % 1000) as i64)
    }

    /// Whether the whole milliseconds of the elapsed time fit in an `i64`.
    pub open spec fn in_range(self) -> bool {
        self.elapsed - self.elapsed % 1000 <= i64::MAX
    }
}

/// The text of a log that holds the header row and then a row for each of
/// `entries`, each line but the last with its line end.
pub open spec fn log_lines(entries: Seq<LogEntry>) -> Seq<u8>
    decreases entries.len(),
{
    if entries.len() == 0 {
        header_text()
    } else {
        log_lines(entries.drop_last()) + seq![NEWLINE] + row_text(
            entries.last().elapsed as nat,
            entries.last().reading,
        )
    }
}

/// The text of a log as the worker leaves it: the header row and a row for
/// each of `entries`, every line with its line end.
pub open spec fn log_text(entries: Seq<LogEntry>) -> Seq<u8> {
    log_lines(entries) + seq![NEWLINE]
}

/// The samples that `entries` read back as.
pub open spec fn logged_samples(entries: Seq<LogEntry>) -> Seq<Sample> {
    Seq::new(entries.len(), |i: int| entries[i].sample())
}

/// The rows of `entries`, one line each.
spec fn log_rows(entries: Seq<LogEntry>) -> Seq<Seq<u8>> {
    Seq::new(entries.len(), |i: int| row_text(entries[i].elapsed as nat, entries[i].reading))
}

/// A row of the log holds no line end.
proof fn lemma_row_is_one_line(entry: LogEntry)
    ensures
        free_of(row_text(entry.elapsed as nat, entry.reading), NEWLINE),
{
    let t = timestamp_text(entry.elapsed as nat);
    let a = decimal_text(entry.reading.thrust as int);
    let b = decimal_text(entry.reading.temp_ambient as int);
    let c = decimal_text(entry.reading.temp_nozzle as int);
    lemma_timestamp_text_bytes(entry.elapsed as nat);
    lemma_decimal_text_bytes(entry.reading.thrust);
    lemma_decimal_text_bytes(entry.reading.temp_ambient);
    lemma_decimal_text_bytes(entry.reading.temp_nozzle);
    let row = row_text(entry.elapsed as nat, entry.reading);
    assert(row =~= t + seq![COMMA] + a + seq![COMMA] + b + seq![COMMA] + c);
    assert forall|i: int| 0 <= i < row.len() implies #[trigger] row[i] != NEWLINE by {
        let p = t.len();
        let q = p + 1 + a.len();
        let r = q + 1 + b.len();
        if i < p {
            let x = t[i];
            assert(is_digit(x) || x == COLON);
        } else if i == p {
        } else if i < q {
            assert(row[i] == a[i - p - 1]);
            assert(is_decimal_byte(a[i - p - 1]));
        } else if i == q {
        } else if i < r {
            assert(row[i] == b[i - q - 1]);
            assert(is_decimal_byte(b[i - q - 1]));
        } else if i == r {
        } else {
            assert(row[i] == c[i - r - 1]);
            assert(is_decimal_byte(c[i - r - 1]));
        }
    }
}

/// The header row holds no line end.
proof fn lemma_header_is_one_line()
    ensures
        free_of(header_text(), NEWLINE),
{
    reveal_strlit("Tiempo,Empuje,Temperatura Ambiente,Temperatura Tobera");
    let row = "Tiempo,Empuje,Temperatura Ambiente,Temperatura Tobera";
    assert(is_ascii(row));
    is_ascii_spec_bytes(row);
}

/// The lines of a log are its header row and its rows.
proof fn lemma_log_lines_split(entries: Seq<LogEntry>)
    ensures
        split(log_lines(entries), NEWLINE) == seq![header_text()] + log_rows(entries),
    decreases entries.len(),
{
    if entries.len() == 0 {
        lemma_header_is_one_line();
        lemma_split_single(header_text(), NEWLINE);
        assert(seq![header_text()] + log_rows(entries) =~= seq![header_text()]);
    } else {
        let before = entries.drop_last();
        let row = row_text(entries.last().elapsed as nat, entries.last().reading);
        lemma_log_lines_split(before);
        lemma_row_is_one_line(entries.last());
        lemma_split_joined(log_lines(before), row, NEWLINE);
        assert((seq![header_text()] + log_rows(before)).push(row) =~= seq![header_text()]
            + log_rows(entries));
    }
}

/// The rows of a log read back as the samples of its entries.
proof fn lemma_rows_read_back(entries: Seq<LogEntry>)
    requires
        forall|i: int| 0 <= i < entries.len() ==> (#[trigger] entries[i]).in_range(),
    ensures
        samples_of(log_rows(entries)) == logged_samples(entries),
    decreases entries.len(),
{
    if entries.len() == 0 {
        assert(logged_samples(entries) =~= Seq::<Sample>::empty());
    } else {
        let before = entries.drop_last();
        let last = entries.last();
        lemma_rows_read_back(before);
        assert(last == entries[entries.len() - 1]);
        lemma_row_round_trip(last.elapsed, last.reading);
        assert(log_rows(entries).drop_last() =~= log_rows(before));
        assert(logged_samples(before).push(last.sample()) =~= logged_samples(entries));
    }
}

/// What the worker logs, the loader reads: a log that holds the header row
/// and the rows of a run of entries loads as the samples of those entries,
/// in order, each at its time cut to the millisecond.
pub proof fn lemma_log_loads_back(entries: Seq<LogEntry>)
    requires
        forall|i: int| 0 <= i < entries.len() ==> (#[trigger] entries[i]).in_range(),
    ensures
        csv_samples(log_text(entries)) == logged_samples(entries),
{
    let none = Seq::<u8>::empty();
    let lines = split(log_text(entries), NEWLINE);
    lemma_log_lines_split(entries);
    lemma_split_joined(log_lines(entries), none, NEWLINE);
    assert(log_text(entries) =~= log_lines(entries) + seq![NEWLINE] + none);
    assert(lines == (seq![header_text()] + log_rows(entries)).push(none));
    lemma_header_row_is_header();
    assert(lines[0] == header_text());
    let data = data_lines(lines);
    assert(data =~= log_rows(entries).push(none));
    assert(data.drop_last() =~= log_rows(entries));
    assert(row_sample(none) is None) by {
        assert(split(none, COMMA).len() == 1);
    }
    lemma_rows_read_back(entries);
}

} // verus!
