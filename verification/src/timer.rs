//! A repeating interval timer, counted in milliseconds.
//!
//! The accumulator advances by each frame's delta; when it reaches the period
//! the timer reports "just finished" and wraps to the remainder, so each
//! completed period produces exactly one completion signal, however the frame
//! deltas fall.

use crate::DT_MAX;
use vstd::prelude::*;

verus! {

/// Upper bound on a timer period, in milliseconds. The largest period in the
/// stats tables (the inert plants' interval) lies below it.
pub const PERIOD_MAX: u64 = 100_000_000;

/// A repeating interval timer: accumulated elapsed time and fixed period,
/// both in milliseconds.
#[derive(Copy, Clone, Debug, PartialEq, Eq, Structural)]
pub struct Timer {
    pub elapsed_ms: u64,
    pub period_ms: u64,
}

impl Timer {
    /// Valid between ticks: a positive, bounded period, with the accumulator
    /// strictly below it.
    pub open spec fn wf(self) -> bool {
        0 < self.period_ms <= PERIOD_MAX && self.elapsed_ms < self.period_ms
    }

    /// Whether adding `dt` completes the period: the repeating timer "just
    /// finished" during that frame.
    pub open spec fn spec_finishes(self, dt: u64) -> bool {
        self.elapsed_ms + dt >= self.period_ms
    }

    /// The timer after `dt` more milliseconds: the accumulator advances, and
    /// wraps to the remainder when the period completes.
    pub open spec fn spec_tick(self, dt: u64) -> Timer {
        if self.spec_finishes(dt) {
            Timer {
                elapsed_ms: ((self.elapsed_ms + dt) % (self.period_ms as int)) as u64,
                period_ms: self.period_ms,
            }
        } else {
            Timer { elapsed_ms: (self.elapsed_ms + dt) as u64, period_ms: self.period_ms }
        }
    }

    /// A fresh repeating timer with the given period and an empty accumulator.
    pub fn new(period_ms: u64) -> (t: Timer)
        requires
            0 < period_ms <= PERIOD_MAX,
        ensures
            t == (Timer { elapsed_ms: 0, period_ms }),
            t.wf(),
    {
        Timer { elapsed_ms: 0, period_ms }
    }

    /// Advance the timer by `dt` milliseconds; returns whether the period just
    /// completed.
    pub fn tick(&mut self, dt: u64) -> (finished: bool)
        requires
            old(self).wf(),
            dt <= DT_MAX,
        ensures
            *final(self) == old(self).spec_tick(dt),
            finished == old(self).spec_finishes(dt),
            final(self).wf(),
    {
        let total = self.elapsed_ms + dt;
        if total >= self.period_ms {
            self.elapsed_ms = total % self.period_ms;
            true
        } else {
            self.elapsed_ms = total;
            false
        }
    }
}

} // verus!
