//! The verbosity of the sidecar's own log.

use vstd::prelude::*;

verus! {

/// How much the sidecar logs about itself.
#[derive(Clone, Copy, Debug, PartialEq, Eq, Structural)]
pub enum LogLevel {
    Error,
    Warn,
    Info,
    Debug,
    Trace,
}

impl Default for LogLevel {
    /// The level in use where none is configured.
    fn default() -> (level: LogLevel)
        ensures
            level == LogLevel::Info,
    {
        LogLevel::Info
    }
}

} // verus!
