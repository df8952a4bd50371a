//! What a session is started with, and the modes of the application.

use vstd::prelude::*;
use vstd::string::*;
use crate::buffer::SeriesBuffer;
use crate::sample::Sample;

verus! {

/// The baud rate that a new configuration proposes.
pub const DEFAULT_BAUD_RATE: u32 = 115_200;

/// Whether `rate` is one of the baud rates on offer.
pub open spec fn is_offered_rate(rate: u32) -> bool {
    rate == 9_600 || rate == 19_200 || rate == 38_400 || rate == 57_600 || rate == 115_200 || rate
        == 230_400
}

/// Whether `rate` is one of the baud rates on offer.
pub fn offered_rate(rate: u32) -> (r: bool)
    ensures
        r == is_offered_rate(rate),
{
    rate == 9_600 || rate == 19_200 || rate == 38_400 || rate == 57_600 || rate == 115_200 || rate
        == 230_400
}

/// The baud rates on offer, in rising order.
pub fn baud_rates() -> (rates: Vec<u32>)
    ensures
        rates@ == seq![9_600u32, 19_200u32, 38_400u32, 57_600u32, 115_200u32, 230_400u32],
        forall|i: int| 0 <= i < rates@.len() ==> is_offered_rate(#[trigger] rates@[i]),
{
    let mut rates: Vec<u32> = Vec::new();
    rates.push(9_600);
    rates.push(19_200);
    rates.push(38_400);
    rates.push(57_600);
    rates.push(115_200);
    rates.push(230_400);
    proof {
        assert(rates@ =~= seq![9_600u32, 19_200u32, 38_400u32, 57_600u32, 115_200u32, 230_400u32]);
    }
    rates
}

/// What a session is started with.
pub struct SessionConfig {
    /// The name of the serial port.
    pub port_name: String,
    /// The baud rate.
    pub baud_rate: u32,
    /// The path of the log file.
    pub log_path: String,
}

/// Why a session cannot be started with a configuration.
#[derive(Clone, Copy, Debug, PartialEq, Eq, Structural)]
pub enum ConfigError {
    /// The port name or the log path is empty.
    Incomplete,
}

impl ConfigError {
    /// What the display says of this error.
    pub fn message(&self) -> (m: &'static str)
        ensures
            m@ == "Por favor, complete todos los campos"@,
    {
        "Por favor, complete todos los campos"
    }
}

impl SessionConfig {
    /// Whether both the port name and the log path are given.
    pub open spec fn complete(&self) -> bool {
        self.port_name@.len() > 0 && self.log_path@.len() > 0
    }

    /// The configuration that the application proposes at first.
    pub fn new() -> (c: SessionConfig)
        ensures
            c.port_name@ == "COM9"@,
            c.baud_rate == DEFAULT_BAUD_RATE,
            c.log_path@ == "datos.csv"@,
    {
        SessionConfig {
            port_name: "COM9".to_owned(),
            baud_rate: DEFAULT_BAUD_RATE,
            log_path: "datos.csv".to_owned(),
        }
    }

    /// Checks that a session can be started with this configuration.
    pub fn validate(&self) -> (r: Result<(), ConfigError>)
        ensures
            r is Ok <==> self.complete(),
            r is Err ==> r == Err::<(), ConfigError>(ConfigError::Incomplete),
    {
        if self.port_name.as_str().is_empty() || self.log_path.as_str().is_empty() {
            Err(ConfigError::Incomplete)
        } else {
            Ok(())
        }
    }
}

/// What the application is showing.
#[derive(Clone, Copy, Debug, PartialEq, Eq, Structural)]
pub enum AppMode {
    /// The configuration window.
    Configuration,
    /// Live data from the serial port.
    LiveMonitoring,
    /// The series of a loaded log file.
    CsvViewer,
}

impl AppMode {
    /// Whether an acquisition worker belongs to this mode. Only live
    /// monitoring has one.
    pub open spec fn has_worker(self) -> bool {
        self == AppMode::LiveMonitoring
    }

    /// The mode after a try to start live monitoring with `config`: live
    /// monitoring where the configuration is complete. Otherwise the mode
    /// stays, and the error says why.
    pub fn start_monitoring(self, config: &SessionConfig) -> (r: Result<AppMode, ConfigError>)
        ensures
            config.complete() ==> r == Ok::<AppMode, ConfigError>(AppMode::LiveMonitoring),
            !config.complete() ==> r == Err::<AppMode, ConfigError>(ConfigError::Incomplete),
    {
        match config.validate() {
            Ok(()) => Ok(AppMode::LiveMonitoring),
            Err(e) => Err(e),
        }
    }

    /// The mode after a try to load a log file: the viewer where the load
    /// succeeded, and the mode as it was where it failed.
    pub fn after_load(self, loaded: bool) -> (m: AppMode)
        ensures
            m == if loaded {
                AppMode::CsvViewer
            } else {
                self
            },
    {
        if loaded {
            AppMode::CsvViewer
        } else {
            self
        }
    }

    /// Goes back to the configuration window. The series is cleared. The
    /// result says whether a worker has to be stopped and joined first.
    pub fn back_to_configuration(self, buffer: &mut SeriesBuffer) -> (r: (AppMode, bool))
        ensures
            r.0 == AppMode::Configuration,
            r.1 == self.has_worker(),
            final(buffer)@ == Seq::<Sample>::empty(),
            final(buffer).limit() == old(buffer).limit(),
    {
        buffer.clear();
        let stop = match self {
            AppMode::LiveMonitoring => true,
            _ => false,
        };
        (AppMode::Configuration, stop)
    }
}

} // verus!
