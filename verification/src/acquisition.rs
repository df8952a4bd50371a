//! The serial acquisition worker as a state machine: what the worker does
//! next, given where it stands and what just happened. The caller owns the
//! port, the log file and the thread; it performs each action and reports
//! the outcome as the next event.

use vstd::prelude::*;
use crate::buffer::{appended, SeriesBuffer};
use crate::line::{
    format_row, format_status, frame_reading, parse_frame, row_text, status_text, Reading,
};
use crate::sample::Sample;

verus! {

/// The time, in milliseconds, that one read of the port may wait. It bounds
/// the time between two looks at the stop request.
pub const READ_TIMEOUT_MS: u64 = 100;

/// The number of bytes that one read of the port asks for.
pub const CHUNK_SIZE: usize = 64;

/// Where the worker stands.
#[derive(Clone, Copy, Debug, PartialEq, Eq, Structural)]
pub enum Phase {
    /// No session: nothing is open.
    Idle,
    /// A session was asked for; the port is being opened, or, with the port
    /// open, the log file.
    Connecting { port_open: bool },
    /// Port and log are open; frames are read and recorded.
    Streaming,
    /// A stop request was seen; the worker has left its loop and waits to
    /// be joined.
    Stopping,
}

/// What can happen to the worker.
#[derive(Clone, Copy, Debug)]
pub enum Event<'a> {
    /// A session is asked for.
    Start,
    /// The port is open.
    PortOpened,
    /// The port could not be opened.
    PortFailed,
    /// The log file is open; `empty` says whether it holds nothing yet.
    LogOpened { empty: bool },
    /// The log file could not be opened.
    LogFailed,
    /// At the top of the loop, the stop request was found set.
    StopRequested,
    /// A read returned these bytes.
    Received(&'a [u8]),
    /// A read returned nothing: it timed out or failed.
    Silent,
    /// The worker thread was joined.
    Joined,
}

/// Why a session could not be started.
#[derive(Clone, Copy, Debug, PartialEq, Eq, Structural)]
pub enum Failure {
    /// The port could not be opened.
    PortOpenFailed,
    /// The log file could not be opened.
    FileOpenFailed,
}

impl Failure {
    /// What the status display says of this failure; the caller may add
    /// the system's own words behind it.
    pub open spec fn text(self) -> Seq<char> {
        match self {
            Failure::PortOpenFailed => "Error al abrir el puerto"@,
            Failure::FileOpenFailed => "Error al abrir el archivo"@,
        }
    }

    /// What the status display says of this failure.
    pub fn message(&self) -> (m: &'static str)
        ensures
            m@ == self.text(),
    {
        match self {
            Failure::PortOpenFailed => "Error al abrir el puerto",
            Failure::FileOpenFailed => "Error al abrir el archivo",
        }
    }
}

/// What the status display says before a session has given anything.
pub fn waiting_status() -> (m: &'static str)
    ensures
        m@ == "Esperando datos..."@,
{
    "Esperando datos..."
}

/// What the status display says once port and log are open.
pub fn connected_status() -> (m: &'static str)
    ensures
        m@ == "Conexión exitosa, esperando datos..."@,
{
    "Conexión exitosa, esperando datos..."
}

/// What the worker is to do next.
#[derive(Clone, Copy, Debug, PartialEq, Eq, Structural)]
pub enum Action {
    /// Open the port, with the read timeout.
    OpenPort,
    /// Open the log file for appending, creating it if need be.
    OpenLog,
    /// Write the header row if `write_header` is set, show that the
    /// connection stands, and start reading.
    Announce { write_header: bool },
    /// Record the reading: log its row, show it, append its sample; then
    /// read on.
    Record(Reading),
    /// Read on; there is nothing to record.
    Poll,
    /// Show the failure and end; nothing stays open.
    Report(Failure),
    /// Leave the loop and end.
    Exit,
    /// Clear the stop request, so that a session can be started again.
    Rearm,
    /// The event has no meaning here: do nothing.
    Ignore,
}

/// The transition of the worker: the next phase and the action to take.
pub open spec fn next(phase: Phase, event: Event<'_>) -> (Phase, Action) {
    match (phase, event) {
        (Phase::Idle, Event::Start) => (Phase::Connecting { port_open: false }, Action::OpenPort),
        (Phase::Connecting { port_open: false }, Event::PortOpened) => (
            Phase::Connecting { port_open: true },
            Action::OpenLog,
        ),
        (Phase::Connecting { port_open: false }, Event::PortFailed) => (
            Phase::Idle,
            Action::Report(Failure::PortOpenFailed),
        ),
        (Phase::Connecting { port_open: true }, Event::LogOpened { empty }) => (
            Phase::Streaming,
            Action::Announce { write_header: empty },
        ),
        (Phase::Connecting { port_open: true }, Event::LogFailed) => (
            Phase::Idle,
            Action::Report(Failure::FileOpenFailed),
        ),
        (Phase::Streaming, Event::StopRequested) => (Phase::Stopping, Action::Exit),
        (Phase::Streaming, Event::Received(chunk)) => match frame_reading(chunk@) {
            Some(reading) => (Phase::Streaming, Action::Record(reading)),
            None => (Phase::Streaming, Action::Poll),
        },
        (Phase::Streaming, Event::Silent) => (Phase::Streaming, Action::Poll),
        (Phase::Stopping, Event::Joined) => (Phase::Idle, Action::Rearm),
        _ => (phase, Action::Ignore),
    }
}

/// Takes one step of the worker.
pub fn step(phase: Phase, event: Event<'_>) -> (r: (Phase, Action))
    ensures
        r == next(phase, event),
{
    match phase {
        Phase::Idle => match event {
            Event::Start => (Phase::Connecting { port_open: false }, Action::OpenPort),
            _ => (phase, Action::Ignore),
        },
        Phase::Connecting { port_open } => if port_open {
            match event {
                Event::LogOpened { empty } => (
                    Phase::Streaming,
                    Action::Announce { write_header: empty },
                ),
                Event::LogFailed => (Phase::Idle, Action::Report(Failure::FileOpenFailed)),
                _ => (phase, Action::Ignore),
            }
        } else {
            match event {
                Event::PortOpened => (Phase::Connecting { port_open: true }, Action::OpenLog),
                Event::PortFailed => (Phase::Idle, Action::Report(Failure::PortOpenFailed)),
                _ => (phase, Action::Ignore),
            }
        },
        Phase::Streaming => match event {
            Event::StopRequested => (Phase::Stopping, Action::Exit),
            Event::Received(chunk) => match parse_frame(chunk) {
                Some(reading) => (Phase::Streaming, Action::Record(reading)),
                None => (Phase::Streaming, Action::Poll),
            },
            Event::Silent => (Phase::Streaming, Action::Poll),
            _ => (phase, Action::Ignore),
        },
        Phase::Stopping => match event {
            Event::Joined => (Phase::Idle, Action::Rearm),
            _ => (phase, Action::Ignore),
        },
    }
}

/// What recording one reading comes to: the sample for the buffer, the row
/// for the log and the text for the status display.
pub struct Record {
    /// The sample, at the elapsed time.
    pub sample: Sample,
    /// The log row, without a line end.
    pub row: Vec<u8>,
    /// The status text.
    pub status: Vec<u8>,
}

/// Puts together what is recorded for `reading`, taken at the elapsed time
/// `elapsed` in microseconds.
pub fn record(reading: &Reading, elapsed: u64) -> (r: Record)
    requires
        elapsed <= i64::MAX,
    ensures
        r.sample == reading.at(elapsed as i64),
        r.row@ == row_text(elapsed as nat, *reading),
        r.status@ == status_text(*reading),
{
    Record {
        sample: reading.stamped(elapsed as i64),
        row: format_row(elapsed, reading),
        status: format_status(reading),
    }
}

/// Takes in one chunk that the port gave at the elapsed time `elapsed`, in
/// microseconds. A chunk that reads as a frame is recorded: its sample is
/// appended to `buffer`, and its record is handed back for the log and
/// the status display. Any other chunk is dropped, and nothing changes.
pub fn ingest_frame(buffer: &mut SeriesBuffer, chunk: &[u8], elapsed: u64) -> (r: Option<Record>)
    requires
        elapsed <= i64::MAX,
    ensures
        final(buffer).limit() == old(buffer).limit(),
        match frame_reading(chunk@) {
            None => r is None && final(buffer)@ == old(buffer)@,
            Some(reading) => {
                &&& r is Some
                &&& r->0.sample == reading.at(elapsed as i64)
                &&& r->0.row@ == row_text(elapsed as nat, reading)
                &&& r->0.status@ == status_text(reading)
                &&& final(buffer)@ == appended(
                    old(buffer)@,
                    old(buffer).limit(),
                    reading.at(elapsed as i64),
                )
            },
        },
{
    match parse_frame(chunk) {
        None => None,
        Some(reading) => {
            let made = record(&reading, elapsed);
            buffer.append(made.sample);
            Some(made)
        },
    }
}

/// The most events that can still come before the worker is idle, once a
/// stop has been requested.
pub open spec fn steps_to_idle(phase: Phase) -> nat {
    match phase {
        Phase::Idle => 0,
        Phase::Stopping => 1,
        Phase::Streaming => 2,
        Phase::Connecting { port_open: true } => 3,
        Phase::Connecting { port_open: false } => 4,
    }
}

/// Whether `event` can come to a worker in `phase` of which a stop has been
/// requested: while connecting, the outcome of what is being opened; at the
/// top of the loop, the stop request, which is looked at before anything is
/// read; and after that the join.
pub open spec fn comes_when_stopping(phase: Phase, event: Event<'_>) -> bool {
    match (phase, event) {
        (Phase::Connecting { port_open: false }, Event::PortOpened) => true,
        (Phase::Connecting { port_open: false }, Event::PortFailed) => true,
        (Phase::Connecting { port_open: true }, Event::LogOpened { .. }) => true,
        (Phase::Connecting { port_open: true }, Event::LogFailed) => true,
        (Phase::Streaming, Event::StopRequested) => true,
        (Phase::Stopping, Event::Joined) => true,
        _ => false,
    }
}

/// A stop request ends the session within a bounded number of steps: each
/// event that can come once a stop has been requested brings the worker
/// nearer to idle, and the join that ends it clears the request for the
/// next session.
pub proof fn lemma_stop_terminates(phase: Phase, event: Event<'_>)
    requires
        comes_when_stopping(phase, event),
    ensures
        steps_to_idle(next(phase, event).0) < steps_to_idle(phase),
        steps_to_idle(phase) <= 4,
        next(phase, event).0 == Phase::Idle ==> next(phase, event).1 != Action::Ignore,
        phase == Phase::Stopping ==> next(phase, event) == (Phase::Idle, Action::Rearm),
{
}

/// A chunk that does not read as a frame changes nothing: the worker stays
/// where it is and records nothing.
pub proof fn lemma_bad_frame_is_dropped(chunk: &[u8])
    requires
        frame_reading(chunk@) is None,
    ensures
        next(Phase::Streaming, Event::Received(chunk)) == (Phase::Streaming, Action::Poll),
{
}

} // verus!
