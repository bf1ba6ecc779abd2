//! A frame-time stopwatch over a caller-supplied monotonic clock.
//!
//! The wall clock is an outside collaborator: the caller reads it (as a
//! nanosecond count) and passes the reading in, so the arithmetic performed
//! on it is verified here.

use vstd::prelude::*;

verus! {

/// Remembers the clock reading at creation and reports elapsed time.
#[derive(Clone, Copy, PartialEq, Eq, Structural, Debug)]
pub struct Stopwatch {
    start: u64,
}

impl Stopwatch {
    /// The clock reading the stopwatch was started at.
    pub closed spec fn start_time(self) -> u64 {
        self.start
    }

    /// Start a stopwatch at clock reading `now`.
    pub fn new(now: u64) -> (r: Stopwatch)
        ensures
            r.start_time() == now,
    {
        Stopwatch { start: now }
    }

    /// The time elapsed between the start and the clock reading `now`.
    /// The clock is monotonic, so `now` is at or after the start.
    pub fn get(&self, now: u64) -> (r: u64)
        requires
            now >= self.start_time(),
        ensures
            r == now - self.start_time(),
    {
        now - self.start
    }
}

} // verus!
