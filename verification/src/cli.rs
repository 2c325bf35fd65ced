//! The command-line surface as plain data, and the logging-level decision.
//! Argument parsing itself happens outside the library; the parsed values
//! are handed over in these types.

use vstd::prelude::*;

verus! {

/// The parsed command line.
pub struct Cli {
    /// Turns verbose logging on.
    pub verbose: bool,
    /// Log to journal.
    pub journal: bool,
    pub command: Commands,
}

pub enum Commands {
    /// Start the service, reading configuration from the given file path.
    Start { config: String },
}

/// How much the daemon logs.
#[derive(Clone, Copy, Debug, PartialEq, Eq, Structural)]
pub enum LogLevel {
    Trace,
    Debug,
    Info,
}

/// The logging level the daemon starts with: everything when verbose was
/// asked for, debug detail in a debug build, and informational otherwise.
pub fn log_level(verbose: bool, debug_build: bool) -> (r: LogLevel)
    ensures
        verbose ==> r == LogLevel::Trace,
        !verbose && debug_build ==> r == LogLevel::Debug,
        !verbose && !debug_build ==> r == LogLevel::Info,
{
    if verbose {
        LogLevel::Trace
    } else if debug_build {
        LogLevel::Debug
    } else {
        LogLevel::Info
    }
}

} // verus!
