//! The deadline of the next tick of a loop that waits for keys in between.

use vstd::prelude::*;

verus! {

/// When the next sample is due.  All times are milliseconds since the start.
#[derive(Debug, Clone, Copy, PartialEq, Eq, Structural)]
pub struct Ticker {
    /// The time at which the next sample is due.
    pub next_ms: u64,
    /// The nominal time between two samples.
    pub interval_ms: u64,
}

/// The time that lies `interval_ms` after `now_ms`, held at the largest time
/// that can be told.
pub open spec fn deadline_after(now_ms: int, interval_ms: int) -> int {
    if now_ms + interval_ms > u64::MAX {
        u64::MAX as int
    } else {
        now_ms + interval_ms
    }
}

/// How long a loop may wait at `now_ms` for a key before the sample that is
/// due at `next_ms`: the time that is left, and no time once it is due.
pub open spec fn wait_of(now_ms: int, next_ms: int) -> int {
    if next_ms > now_ms {
        next_ms - now_ms
    } else {
        0
    }
}

impl Ticker {
    /// A ticker whose first sample is due one interval after `now_ms`.
    pub fn new(now_ms: u64, interval_ms: u64) -> (out: Ticker)
        ensures
            out.interval_ms == interval_ms,
            out.next_ms == deadline_after(now_ms as int, interval_ms as int),
    {
        Ticker { next_ms: now_ms.saturating_add(interval_ms), interval_ms }
    }

    /// How long to wait for a key at `now_ms`.
    pub fn timeout(&self, now_ms: u64) -> (out: u64)
        ensures
            out == wait_of(now_ms as int, self.next_ms as int),
    {
        if self.next_ms > now_ms {
            self.next_ms - now_ms
        } else {
            0
        }
    }

    /// Whether the sample is due at `now_ms`.
    pub fn is_due(&self, now_ms: u64) -> (out: bool)
        ensures
            out == (now_ms >= self.next_ms),
            out == (wait_of(now_ms as int, self.next_ms as int) == 0),
    {
        now_ms >= self.next_ms
    }

    /// Sets the deadline one interval after `now_ms`, the time at which a
    /// sample was just taken.
    pub fn rearm(&mut self, now_ms: u64)
        ensures
            final(self).interval_ms == old(self).interval_ms,
            final(self).next_ms == deadline_after(now_ms as int, old(self).interval_ms as int),
    {
        self.next_ms = now_ms.saturating_add(self.interval_ms);
    }
}

} // verus!
