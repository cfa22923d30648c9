//! Severity levels: those of the application, those of the platform log,
//! and how the first map onto the second.

use vstd::prelude::*;

verus! {

/// The severity of an event, from the most severe to the least.
#[derive(Clone, Copy, Debug, PartialEq, Eq, Hash, Structural)]
pub enum Level {
    /// A serious failure.
    Error,
    /// A hazardous situation.
    Warn,
    /// Useful information.
    Info,
    /// Lower priority information.
    Debug,
    /// Very low priority, often very verbose, information.
    Trace,
}

/// A severity of the platform log.
#[derive(Clone, Copy, Debug, PartialEq, Eq, Hash, Structural)]
pub enum LogLevel {
    /// For debugging.
    Debug,
    /// Important states and steps.
    Info,
    /// An unexpected condition that the program recovers from.
    Warn,
    /// A malfunction that the program does not recover from.
    Error,
    /// A major failure that should never occur.
    Fatal,
}

/// The platform severity under which an event of severity `level` is logged.
///
/// The platform has nothing below `Debug`, so `Trace` is logged as `Debug`.
pub open spec fn platform_level(level: Level) -> LogLevel {
    match level {
        Level::Error => LogLevel::Error,
        Level::Warn => LogLevel::Warn,
        Level::Info => LogLevel::Info,
        Level::Debug => LogLevel::Debug,
        Level::Trace => LogLevel::Debug,
    }
}

/// Every level maps to one platform level. Only `Debug` and `Trace` share
/// theirs, and nothing is logged as `Fatal`.
pub proof fn lemma_platform_level(a: Level, b: Level)
    ensures
        platform_level(Level::Trace) == LogLevel::Debug,
        platform_level(Level::Debug) == LogLevel::Debug,
        platform_level(a) != LogLevel::Fatal,
        platform_level(a) == LogLevel::Debug <==> (a == Level::Debug || a == Level::Trace),
        platform_level(a) == platform_level(b) <==> {
            ||| a == b
            ||| (a == Level::Debug && b == Level::Trace)
            ||| (a == Level::Trace && b == Level::Debug)
        },
{
}

} // verus!
