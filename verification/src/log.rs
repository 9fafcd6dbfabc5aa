//! Verbosity levels. A message is printed when its own level's value is at
//! least the run's current level's value; printing itself happens outside
//! the library.
use vstd::prelude::*;

verus! {

/// Verbosity levels, from chattiest to silent.
#[derive(Clone, Copy, PartialEq, Eq, Structural, Debug)]
pub enum LogLevel {
    Debug,
    Verbose,
    Info,
    Warning,
    Critical,
    Off,
}

/// The numeric threshold of a level.
pub open spec fn level_value(l: LogLevel) -> u8 {
    match l {
        LogLevel::Debug => 0,
        LogLevel::Verbose => 30,
        LogLevel::Info => 60,
        LogLevel::Warning => 90,
        LogLevel::Critical => 120,
        LogLevel::Off => 255,
    }
}

impl LogLevel {
    /// The level's numeric threshold.
    pub fn value(&self) -> (r: u8)
        ensures
            r == level_value(*self),
    {
        match self {
            LogLevel::Debug => 0,
            LogLevel::Verbose => 30,
            LogLevel::Info => 60,
            LogLevel::Warning => 90,
            LogLevel::Critical => 120,
            LogLevel::Off => 255,
        }
    }
}

} // verus!
