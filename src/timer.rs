//! A periodic timer for throughput reports, driven by the caller's clock.
//! All times are nanoseconds on one monotonic clock.
use vstd::prelude::*;

verus! {

/// How often the timer goes off: one second.
pub const PERIOD_NANOS: u64 = 1_000_000_000;

pub struct Timer {
    /// The moment of the last update.
    pub last_instant: u64,
    /// The time between the last two updates.
    pub delta: u64,
    /// How often the timer goes off.
    pub period: u64,
    /// Time left until the timer goes off.
    pub countdown: u64,
    /// Whether the timer has gone off and not been acknowledged.
    pub ready: bool,
}

impl Timer {
    /// A timer started at `now`, ready at once.
    pub fn new(now: u64) -> (r: Timer)
        ensures
            r.last_instant == now,
            r.delta == 0,
            r.period == PERIOD_NANOS,
            r.countdown == 0,
            r.ready,
    {
        Timer { last_instant: now, delta: 0, period: PERIOD_NANOS, countdown: 0, ready: true }
    }

    /// Advances the timer to `now`. The elapsed time is taken off the
    /// countdown; when the countdown cannot cover it, the timer goes off and
    /// the countdown starts again from the period. A clock reading earlier
    /// than the last one counts as no time passing.
    pub fn update(&mut self, now: u64)
        ensures
            final(self).delta == (if now >= old(self).last_instant {
                now - old(self).last_instant
            } else {
                0
            }),
            final(self).last_instant == now,
            final(self).period == old(self).period,
            old(self).countdown >= final(self).delta ==> final(self).countdown == old(
                self,
            ).countdown - final(self).delta && final(self).ready == old(self).ready,
            old(self).countdown < final(self).delta ==> final(self).countdown == old(self).period
                && final(self).ready,
    {
        self.delta = now.saturating_sub(self.last_instant);
        self.last_instant = now;
        if self.countdown >= self.delta {
            self.countdown = self.countdown - self.delta;
        } else {
            self.ready = true;
            self.countdown = self.period;
        }
    }
}

} // verus!
