//! Elapsed-time tracking against a monotonic clock. The clock itself is
//! a collaborator: callers sample it and pass the current instant in
//! milliseconds, so every operation here is a pure function of plain
//! values.

use vstd::prelude::*;

verus! {

/// Remembers the instant (in milliseconds of a monotonic clock) it was
/// started at; durations are measured against instants passed in later.
#[derive(Clone, Copy, PartialEq, Eq, Structural, Debug)]
pub struct Timer {
    pub start_ms: u64,
}

impl Timer {
    pub fn new(now_ms: u64) -> (t: Timer)
        ensures
            t.start_ms == now_ms,
    {
        Timer { start_ms: now_ms }
    }

    /// Milliseconds elapsed since the timer was started or last reset.
    /// The clock is monotonic, so `now_ms` never precedes the start.
    pub fn elapsed(&self, now_ms: u64) -> (e: u64)
        requires
            self.start_ms <= now_ms,
        ensures
            e == now_ms - self.start_ms,
    {
        now_ms - self.start_ms
    }

    /// Whether at least `duration_ms` has passed.
    pub fn has_elapsed(&self, now_ms: u64, duration_ms: u64) -> (r: bool)
        requires
            self.start_ms <= now_ms,
        ensures
            r == (now_ms - self.start_ms >= duration_ms),
    {
        self.elapsed(now_ms) >= duration_ms
    }

    /// Rebase the timer to the given instant.
    pub fn reset(&mut self, now_ms: u64)
        ensures
            final (self).start_ms == now_ms,
    {
        self.start_ms = now_ms;
    }
}

} // verus!
