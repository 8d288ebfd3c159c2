//! The levels of the gateway's own log, and the counters that it keeps of
//! what it does.
use vstd::prelude::*;
use vstd::string::*;

use crate::error::err_msg;
use crate::error::Error;
use crate::process::str::same_text;

verus! {

/// Message of the error for a text that names no level.
pub const ERR_LEVEL: &'static str = "expected `DEBUG` or `ERROR`";

/// How much an entry of the log matters.
#[derive(Debug, Clone, Copy, PartialEq, Eq, Structural)]
pub enum Level {
    Debug,
    Error,
}

/// Diagnostics configuration.
#[derive(Debug, Clone, Copy)]
pub struct Config {
    /// The interval to sample metrics at.
    pub metrics_interval_ms: u64,
    /// The minimum self log level to emit.
    pub min_level: Level,
}

impl Default for Config {
    fn default() -> (c: Config)
        ensures
            c.metrics_interval_ms == 60_000,
            c.min_level == Level::Error,
    {
        Config { metrics_interval_ms: 1 * 1000 * 60, min_level: Level::Error }
    }
}

/// The level that a text names.
pub open spec fn level_spec(s: Seq<char>) -> Option<Level> {
    if s == "DEBUG"@ {
        Some(Level::Debug)
    } else if s == "ERROR"@ {
        Some(Level::Error)
    } else {
        None
    }
}

/// The place of a level in their order.
pub open spec fn rank(level: Level) -> usize {
    match level {
        Level::Debug => 0,
        Level::Error => 1,
    }
}

impl Level {
    /// The place of the level in their order: 0 for `Debug`, 1 for `Error`.
    pub fn to_usize(self) -> (r: usize)
        ensures
            r == rank(self),
    {
        match self {
            Level::Debug => 0,
            Level::Error => 1,
        }
    }

    /// The level at a place: `Debug` at 0, `Error` at any other.
    pub fn from_usize(v: usize) -> (r: Level)
        ensures
            r == if v == 0 {
                Level::Debug
            } else {
                Level::Error
            },
            v <= 1 ==> rank(r) == v,
    {
        match v {
            0 => Level::Debug,
            _ => Level::Error,
        }
    }

    /// Reads the name of a level: `DEBUG` or `ERROR`.
    pub fn parse(s: &str) -> (r: Result<Level, Error>)
        ensures
            level_spec(s@) matches Some(level) ==> r == Ok::<Level, Error>(level),
            level_spec(s@) is None ==> (r matches Err(e) && e@ == ERR_LEVEL@),
    {
        if same_text(s, "DEBUG") {
            Ok(Level::Debug)
        } else if same_text(s, "ERROR") {
            Ok(Level::Error)
        } else {
            Err(err_msg(ERR_LEVEL))
        }
    }
}

impl std::str::FromStr for Level {
    type Err = Error;

    /// Reads the name of a level: `DEBUG` or `ERROR`.
    fn from_str(s: &str) -> (r: Result<Level, Error>)
        ensures
            level_spec(s@) matches Some(level) ==> r == Ok::<Level, Error>(level),
            level_spec(s@) is None ==> (r matches Err(e) && e@ == ERR_LEVEL@),
    {
        Level::parse(s)
    }
}

/// The level from which entries are written to the log.
#[derive(Debug, Clone, Copy, PartialEq, Eq, Structural)]
pub struct MinLevel {
    level: usize,
}

impl MinLevel {
    /// The level.
    pub closed spec fn level(&self) -> Level {
        if self.level == 0 {
            Level::Debug
        } else {
            Level::Error
        }
    }

    /// A minimum at `Debug`: everything is written.
    pub fn new() -> (m: MinLevel)
        ensures
            m.level() == Level::Debug,
    {
        MinLevel { level: 0 }
    }

    /// Sets the minimum.
    pub fn set(&mut self, min: Level)
        ensures
            final(self).level() == min,
    {
        self.level = min.to_usize();
    }

    /// The minimum.
    pub fn get(&self) -> (r: Level)
        ensures
            r == self.level(),
    {
        Level::from_usize(self.level)
    }

    /// Whether entries of this level are written.
    pub fn includes(&self, level: Level) -> (r: bool)
        ensures
            r == (rank(level) >= rank(self.level())),
    {
        level.to_usize() >= self.get().to_usize()
    }
}

/// A counter one further. After the largest number comes 0.
pub open spec fn bumped(n: u64) -> u64 {
    if n == u64::MAX {
        0
    } else {
        (n + 1) as u64
    }
}

/// A counter one further.
pub fn bump(n: u64) -> (r: u64)
    ensures
        r == bumped(n),
{
    n.wrapping_add(1)
}

/// The counters of all the parts of the gateway.
#[derive(Debug, Clone, Copy, PartialEq, Eq, Structural)]
pub struct Metrics {
    pub receive: crate::receive::Metrics,
    pub process: crate::process::Metrics,
    pub server: crate::server::Metrics,
}

impl Metrics {
    /// Counters at 0.
    pub open spec fn zero() -> Metrics {
        Metrics {
            receive: crate::receive::Metrics::zero(),
            process: crate::process::Metrics::zero(),
            server: crate::server::Metrics::zero(),
        }
    }

    /// Counters at 0.
    pub fn new() -> (m: Metrics)
        ensures
            m == Metrics::zero(),
    {
        Metrics {
            receive: crate::receive::Metrics::new(),
            process: crate::process::Metrics::new(),
            server: crate::server::Metrics::new(),
        }
    }

    /// Hands out the counts and sets every counter to 0.
    pub fn take(&mut self) -> (m: Metrics)
        ensures
            m == *old(self),
            *final(self) == Metrics::zero(),
    {
        let m = *self;
        *self = Metrics::new();
        m
    }
}

} // verus!
