//! Leveled kernel log lines for the serial console.

use vstd::prelude::*;
use vstd::string::StringExecFns;

verus! {

/// Severity of a log line, least severe first.
#[derive(Clone, Copy, PartialEq, Eq, Structural, Debug)]
pub enum Level {
    Trace,
    Debug,
    Info,
    Warn,
    Error,
}

/// The five-character tag of a level.
pub open spec fn level_tag(l: Level) -> Seq<char> {
    match l {
        Level::Trace => "TRACE"@,
        Level::Debug => "DEBUG"@,
        Level::Info => " INFO"@,
        Level::Warn => " WARN"@,
        Level::Error => "ERROR"@,
    }
}

/// The ANSI colour escape of a level.
pub open spec fn level_color(l: Level) -> Seq<char> {
    match l {
        Level::Trace => "\x1b[90m"@,
        Level::Debug => "\x1b[36m"@,
        Level::Info => "\x1b[32m"@,
        Level::Warn => "\x1b[33m"@,
        Level::Error => "\x1b[31m"@,
    }
}

impl Level {
    /// The five-character tag of the level.
    pub fn as_str(&self) -> (r: &'static str)
        ensures
            r@ == level_tag(*self),
    {
        match self {
            Level::Trace => "TRACE",
            Level::Debug => "DEBUG",
            Level::Info => " INFO",
            Level::Warn => " WARN",
            Level::Error => "ERROR",
        }
    }

    /// The ANSI colour escape of the level.
    pub fn color(&self) -> (r: &'static str)
        ensures
            r@ == level_color(*self),
    {
        match self {
            Level::Trace => "\x1b[90m",
            Level::Debug => "\x1b[36m",
            Level::Info => "\x1b[32m",
            Level::Warn => "\x1b[33m",
            Level::Error => "\x1b[31m",
        }
    }
}

/// The line written for `message` at `level`: coloured tag in brackets,
/// colour reset, the message and a newline.
pub fn log(level: Level, message: &str) -> (r: String)
    ensures
        r@ == level_color(level) + "["@ + level_tag(level) + "]\x1b[0m "@ + message@ + "\n"@,
{
    let mut line = String::from_str(level.color());
    line.append("[");
    line.append(level.as_str());
    line.append("]\x1b[0m ");
    line.append(message);
    line.append("\n");
    line
}

} // verus!
