//! Log levels, the level filter of the logger, and the terminal colour of
//! each level.
use vstd::prelude::*;

verus! {

/// Severity of a log line, most severe first.
#[derive(Clone, Copy, PartialEq, Eq, Structural, Debug)]
pub enum Level {
    Error,
    Warn,
    Info,
    Debug,
    Trace,
}

/// The least severe level let through, or none.
#[derive(Clone, Copy, PartialEq, Eq, Structural, Debug)]
pub enum LevelFilter {
    Off,
    Error,
    Warn,
    Info,
    Debug,
    Trace,
}

/// Verbosity of a level: 1 for errors up to 5 for traces.
pub open spec fn level_rank(level: Level) -> int {
    match level {
        Level::Error => 1,
        Level::Warn => 2,
        Level::Info => 3,
        Level::Debug => 4,
        Level::Trace => 5,
    }
}

/// Verbosity let through by a filter: 0 for none up to 5 for all.
pub open spec fn filter_rank(filter: LevelFilter) -> int {
    match filter {
        LevelFilter::Off => 0,
        LevelFilter::Error => 1,
        LevelFilter::Warn => 2,
        LevelFilter::Info => 3,
        LevelFilter::Debug => 4,
        LevelFilter::Trace => 5,
    }
}

fn rank(level: Level) -> (r: u8)
    ensures
        r as int == level_rank(level),
{
    match level {
        Level::Error => 1,
        Level::Warn => 2,
        Level::Info => 3,
        Level::Debug => 4,
        Level::Trace => 5,
    }
}

fn rank_of_filter(filter: LevelFilter) -> (r: u8)
    ensures
        r as int == filter_rank(filter),
{
    match filter {
        LevelFilter::Off => 0,
        LevelFilter::Error => 1,
        LevelFilter::Warn => 2,
        LevelFilter::Info => 3,
        LevelFilter::Debug => 4,
        LevelFilter::Trace => 5,
    }
}

/// ANSI escape sequence that colours a level: red, yellow, green, cyan and
/// grey.
pub open spec fn color_code(level: Level) -> Seq<char> {
    match level {
        Level::Error => "\x1B[31m"@,
        Level::Warn => "\x1B[33m"@,
        Level::Info => "\x1B[32m"@,
        Level::Debug => "\x1B[36m"@,
        Level::Trace => "\x1B[90m"@,
    }
}

/// The logger's settings: lines above `level` are left out.
pub struct RttLogger {
    pub level: LevelFilter,
}

impl RttLogger {
    pub fn color_for(level: Level) -> (r: &'static str)
        ensures
            r@ == color_code(level),
    {
        match level {
            Level::Error => "\x1B[31m",
            Level::Warn => "\x1B[33m",
            Level::Info => "\x1B[32m",
            Level::Debug => "\x1B[36m",
            Level::Trace => "\x1B[90m",
        }
    }

    /// A line of `level` is written.
    pub fn enabled(&self, level: Level) -> (r: bool)
        ensures
            r == (level_rank(level) <= filter_rank(self.level)),
    {
        rank(level) <= rank_of_filter(self.level)
    }
}

} // verus!
