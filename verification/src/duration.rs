//! The elapsed-time value that parsing produces and formatting consumes,
//! and the error that parsing reports.

use vstd::prelude::*;

verus! {

/// An exact elapsed time, counted in whole seconds.
///
/// Durations are non-negative and unbounded above except by the machine
/// word: a countdown of a million seconds is 277 hours and is representable.
#[derive(Clone, Copy, Debug, PartialEq, Eq, Structural)]
pub struct Duration {
    pub secs: u64,
}

impl Duration {
    /// Builds a duration from a whole number of seconds.
    pub fn from_secs(secs: u64) -> (d: Duration)
        ensures
            d.secs == secs,
    {
        Duration { secs }
    }

    /// The whole number of seconds this duration stands for.
    pub fn as_secs(&self) -> (s: u64)
        ensures
            s == self.secs,
    {
        self.secs
    }
}

/// Why an expression failed to parse.
#[derive(Clone, Copy, Debug, PartialEq, Eq, Structural)]
pub enum ParseError {
    /// The grammar matched a (possibly empty) prefix of the input and the
    /// rest could not be consumed; `pos` is the byte offset of the first
    /// unmatched byte.
    Unmatched { pos: usize },
    /// Every fragment matched, but the total number of seconds does not fit
    /// in 64 bits.
    Overflow,
}

} // verus!
