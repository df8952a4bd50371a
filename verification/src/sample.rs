//! The telemetry sample.
//!
//! Every quantity is held in fixed point, as a whole count of millionths
//! (of a second, a newton, a degree), so that all arithmetic on samples is
//! exact.

use vstd::prelude::*;

verus! {

/// One telemetry reading.
#[derive(Clone, Copy, Debug, PartialEq, Eq, Structural)]
pub struct Sample {
    /// Elapsed time since the start of the run, in microseconds.
    pub time: i64,
    /// Thrust, in millionths of a newton.
    pub thrust: i64,
    /// Ambient temperature, in millionths of a degree.
    pub temp_ambient: i64,
    /// Nozzle temperature, in millionths of a degree.
    pub temp_nozzle: i64,
}

impl Sample {
    /// Builds a sample from its four readings.
    pub fn new(time: i64, thrust: i64, temp_ambient: i64, temp_nozzle: i64) -> (s: Sample)
        ensures
            s == (Sample { time, thrust, temp_ambient, temp_nozzle }),
    {
        Sample { time, thrust, temp_ambient, temp_nozzle }
    }
}

/// Whether time never steps back along the series `s`.
pub open spec fn time_ordered(s: Seq<Sample>) -> bool {
    forall|i: int, j: int| 0 <= i <= j < s.len() ==> s[i].time <= s[j].time
}

} // verus!
