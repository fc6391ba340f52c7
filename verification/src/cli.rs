//! The command surface: one subcommand choosing which alternative
//! directory becomes active, and a log-verbosity selector.

use vstd::prelude::*;

verus! {

/// Log verbosity, least to most verbose.
#[derive(Clone, Copy, Debug, PartialEq, Eq, Structural)]
pub enum LogLevel {
    Off,
    Error,
    Warn,
    Info,
    Debug,
    Trace,
}

/// The upper-case name of a level, as the selector prints and accepts it.
pub open spec fn level_str(l: LogLevel) -> Seq<char> {
    match l {
        LogLevel::Off => "OFF"@,
        LogLevel::Error => "ERROR"@,
        LogLevel::Warn => "WARN"@,
        LogLevel::Info => "INFO"@,
        LogLevel::Debug => "DEBUG"@,
        LogLevel::Trace => "TRACE"@,
    }
}

impl LogLevel {
    /// This level's upper-case name.
    pub fn as_str(&self) -> (r: &'static str)
        ensures
            r@ == level_str(*self),
    {
        match self {
            LogLevel::Off => "OFF",
            LogLevel::Error => "ERROR",
            LogLevel::Warn => "WARN",
            LogLevel::Info => "INFO",
            LogLevel::Debug => "DEBUG",
            LogLevel::Trace => "TRACE",
        }
    }
}

impl Default for LogLevel {
    /// The verbosity used when the command line selects none.
    fn default() -> (r: Self)
        ensures
            r == LogLevel::Debug,
    {
        LogLevel::Debug
    }
}

/// The names of all selectable log levels, in order.
pub fn level_filters() -> (r: [&'static str; 6])
    ensures
        r@.len() == 6,
        r@[0]@ == level_str(LogLevel::Off),
        r@[1]@ == level_str(LogLevel::Error),
        r@[2]@ == level_str(LogLevel::Warn),
        r@[3]@ == level_str(LogLevel::Info),
        r@[4]@ == level_str(LogLevel::Debug),
        r@[5]@ == level_str(LogLevel::Trace),
{
    ["OFF", "ERROR", "WARN", "INFO", "DEBUG", "TRACE"]
}

/// Which alternative directory to make active.
#[derive(Clone, Copy, Debug, PartialEq, Eq, Structural)]
pub enum Command {
    UseV1,
    UseV2,
    UseV3,
}

/// The directory-name suffix a subcommand stands for: the alternative
/// directory is the active one's name plus this suffix.
pub open spec fn suffix_str(c: Command) -> Seq<char> {
    match c {
        Command::UseV1 => ".v1"@,
        Command::UseV2 => ".v2"@,
        Command::UseV3 => ".v3"@,
    }
}

impl Command {
    /// The suffix of the alternative directory this subcommand activates.
    pub fn suffix(&self) -> (r: &'static str)
        ensures
            r@ == suffix_str(*self),
    {
        match self {
            Command::UseV1 => ".v1",
            Command::UseV2 => ".v2",
            Command::UseV3 => ".v3",
        }
    }
}

/// The parsed command line: a verbosity and the chosen subcommand.
#[derive(Clone, Copy, Debug, PartialEq, Eq, Structural)]
pub struct Cli {
    pub log_level: LogLevel,
    pub command: Command,
}

} // verus!
