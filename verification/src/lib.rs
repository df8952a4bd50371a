//! Acquisition and analysis core for rocket-motor static-fire tests: the
//! pipeline from the bytes that a sensor board sends over a serial line to
//! a bounded series of samples, a log of rows, and the figures derived from
//! a series.
//!
//! Every quantity is held in fixed point, as a whole count of millionths
//! of its unit, and text is held as bytes. The library reads no clock and
//! touches no port or file: its caller hands it what was read and the time
//! that has elapsed, and does what the library asks for.
//!
//! - [`sample`]: the telemetry sample.
//! - [`text`]: splitting, trimming and searching text.
//! - [`decimal`]: decimal text to fixed point and back.
//! - [`timecode`]: the timestamp `HH:MM:SS:mmm` to elapsed time and back.
//! - [`line`]: one serial frame or one log row to a reading, and the row of
//!   a reading.
//! - [`buffer`]: the bounded series buffer.
//! - [`metrics`]: total impulse and the summary statistics.
//! - [`csv`]: loading a log file.
//! - [`acquisition`]: the acquisition worker as a state machine.
//! - [`session`]: the configuration of a session and the modes of the
//!   application.
//! - [`summary`]: the summary report.

pub mod acquisition;
pub mod buffer;
pub mod csv;
pub mod decimal;
pub mod line;
pub mod metrics;
pub mod sample;
pub mod session;
pub mod summary;
pub mod text;
pub mod timecode;
