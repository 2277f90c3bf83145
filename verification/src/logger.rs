//! Severity levels of console messages and the marker each one is shown with.

use vstd::prelude::*;
use vstd::string::*;

verus! {

/// How important a console message is.
#[derive(Clone, Copy, Debug, PartialEq, Eq, Structural)]
pub enum LogLevel {
    Error,
    Warn,
    Info,
    Success,
}

impl LogLevel {
    /// The coloured marker that opens a message of this level.
    pub open spec fn spec_marker(self) -> Seq<char> {
        match self {
            LogLevel::Error => "[\x1b[91m-\x1b[0m] "@,
            LogLevel::Warn => "[\x1b[93m!\x1b[0m] "@,
            LogLevel::Info => "[\x1b[94m*\x1b[0m] "@,
            LogLevel::Success => "[\x1b[92m+\x1b[0m] "@,
        }
    }

    /// The coloured marker that opens a message of this level.
    pub fn marker(self) -> (m: &'static str)
        ensures
            m@ == self.spec_marker(),
    {
        match self {
            LogLevel::Error => "[\x1b[91m-\x1b[0m] ",
            LogLevel::Warn => "[\x1b[93m!\x1b[0m] ",
            LogLevel::Info => "[\x1b[94m*\x1b[0m] ",
            LogLevel::Success => "[\x1b[92m+\x1b[0m] ",
        }
    }

    /// Whether a message of this level belongs on standard output. Only
    /// informational messages do; every other level goes to standard error.
    pub fn on_stdout(self) -> (b: bool)
        ensures
            b == (self == LogLevel::Info),
    {
        match self {
            LogLevel::Info => true,
            _ => false,
        }
    }
}

/// The line shown for `msg` at `level`: the level's marker, then the message.
pub fn log_line(level: LogLevel, msg: &str) -> (line: String)
    ensures
        line@ == level.spec_marker() + msg@,
{
    let mut line = String::from_str(level.marker());
    line.append(msg);
    line
}

} // verus!
