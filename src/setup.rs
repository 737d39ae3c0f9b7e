//! The start-up settings of the service: verbosity and the log level it selects.

use vstd::prelude::*;

verus! {

/// How much the service reports.
#[derive(PartialEq, Eq, Structural, Clone, Copy, Debug)]
pub enum LogLevel {
    /// Warnings and errors only.
    Warn,
    /// Also informational messages.
    Info,
    /// Everything, debugging messages included.
    Debug,
}

/// The log level for a verbosity: none gives warnings, one gives
/// information, more gives debugging.
pub open spec fn level_for(verbose: u8) -> LogLevel {
    if verbose == 0 {
        LogLevel::Warn
    } else if verbose == 1 {
        LogLevel::Info
    } else {
        LogLevel::Debug
    }
}

/// The settings read from the command line.
pub struct Setup {
    /// How many times verbosity was asked for.
    pub verbose: u8,
}

impl Setup {
    /// The log level that the verbosity selects.
    pub fn log_level(&self) -> (r: LogLevel)
        ensures
            r == level_for(self.verbose),
    {
        match self.verbose {
            0 => LogLevel::Warn,
            1 => LogLevel::Info,
            _ => LogLevel::Debug,
        }
    }
}

/// The settings for a verbosity, with the log level to start the logger at.
pub fn setup(verbose: u8) -> (r: (Setup, LogLevel))
    ensures
        r.0.verbose == verbose,
        r.1 == level_for(verbose),
{
    let s = Setup { verbose };
    let level = s.log_level();
    (s, level)
}

} // verus!
