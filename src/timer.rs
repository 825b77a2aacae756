//! Monotonic kernel time, advanced by the timer interrupt
use vstd::prelude::*;

verus! {

/// Nanoseconds in a second
pub const NANOS_PER_SEC: u64 = 1_000_000_000;

/// Some opaque monotonic time point, kept in nanoseconds
#[derive(Copy, Clone, Debug, PartialEq, Eq, Structural)]
pub struct Instant {
    pub nanos: u64,
}

/// A span of time, as whole seconds and extra nanoseconds
#[derive(Copy, Clone, Debug, PartialEq, Eq, Structural)]
pub struct Duration {
    pub secs: u64,
    pub nanos: u32,
}

/// Length of a duration in nanoseconds
pub open spec fn duration_nanos(d: Duration) -> int {
    d.secs * NANOS_PER_SEC + d.nanos
}

impl Duration {
    /// Build a duration; nanoseconds above a second carry into the seconds
    pub fn new(secs: u64, nanos: u32) -> (r: Duration)
        requires
            secs + (nanos as int) / (NANOS_PER_SEC as int) <= u64::MAX,
        ensures
            duration_nanos(r) == secs * NANOS_PER_SEC + nanos,
            r.nanos < NANOS_PER_SEC,
    {
        let extra = (nanos as u64) / NANOS_PER_SEC;
        Duration { secs: secs + extra, nanos: ((nanos as u64) % NANOS_PER_SEC) as u32 }
    }

    /// Length in nanoseconds, if it fits in a `u64`
    pub fn as_nanos(self) -> (r: Option<u64>)
        ensures
            r.is_some() <==> duration_nanos(self) <= u64::MAX,
            r.is_some() ==> r.unwrap() == duration_nanos(self),
    {
        if self.secs > (u64::MAX - self.nanos as u64) / NANOS_PER_SEC {
            assert(self.secs * NANOS_PER_SEC + self.nanos > u64::MAX) by (nonlinear_arith)
                requires self.secs > ((u64::MAX as int) - (self.nanos as int)) / (NANOS_PER_SEC as int);
            return None;
        }
        assert(self.secs * NANOS_PER_SEC + self.nanos <= u64::MAX) by (nonlinear_arith)
            requires self.secs <= ((u64::MAX as int) - (self.nanos as int)) / (NANOS_PER_SEC as int);
        Some(self.secs * NANOS_PER_SEC + self.nanos as u64)
    }
}

impl Instant {
    /// The instant `dur` after this one, if it can be represented
    pub fn checked_add(self, dur: Duration) -> (r: Option<Instant>)
        ensures
            r.is_some() <==> self.nanos + duration_nanos(dur) <= u64::MAX,
            r.is_some() ==> r.unwrap().nanos == self.nanos + duration_nanos(dur),
    {
        match dur.as_nanos() {
            Some(n) => {
                if n <= u64::MAX - self.nanos {
                    Some(Instant { nanos: self.nanos + n })
                } else {
                    None
                }
            },
            None => None,
        }
    }

    /// The current instant of `clock`
    pub fn now(clock: &Clock) -> (r: Instant)
        ensures
            r == clock.now,
    {
        clock.now
    }

    /// `true` when this instant is at or after `other`
    pub fn at_or_after(self, other: Instant) -> (r: bool)
        ensures
            r == (self.nanos >= other.nanos),
    {
        self.nanos >= other.nanos
    }
}

/// The kernel clock: the current instant and the period of the timer interrupt
pub struct Clock {
    pub now: Instant,
    pub period: Duration,
}

impl Clock {
    /// A clock at instant zero with no period set
    pub fn new() -> (r: Clock)
        ensures
            r.now.nanos == 0,
            duration_nanos(r.period) == 0,
    {
        Clock { now: Instant { nanos: 0 }, period: Duration { secs: 0, nanos: 0 } }
    }

    /// Get the current instant
    pub fn now(&self) -> (r: Instant)
        ensures
            r == self.now,
    {
        self.now
    }

    /// Record the period at which the timer interrupt fires
    pub fn set_timer_period(&mut self, period: Duration)
        ensures
            final(self).period == period,
            final(self).now == old(self).now,
    {
        self.period = period;
    }

    /// Advance the current instant by one timer period; fails, leaving the
    /// clock unchanged, when the instant would overflow
    pub fn tick(&mut self) -> (r: Result<(), TimeOverflow>)
        ensures
            r.is_ok() <==> old(self).now.nanos + duration_nanos(old(self).period) <= u64::MAX,
            r.is_ok() ==> final(self).now.nanos == old(self).now.nanos + duration_nanos(old(self).period),
            r.is_err() ==> final(self).now == old(self).now,
            final(self).period == old(self).period,
    {
        match self.now.checked_add(self.period) {
            Some(t) => {
                self.now = t;
                Ok(())
            },
            None => Err(TimeOverflow),
        }
    }
}

/// The kernel clock cannot represent the requested instant
#[derive(Copy, Clone, Debug, PartialEq, Eq, Structural)]
pub struct TimeOverflow;

/// Ticking the timer `n` times advances the clock by exactly `n` periods:
/// `instants[i]` is the clock after `i` ticks, each of which added the period
pub proof fn lemma_ticks_advance(instants: Seq<int>, period: int, n: nat)
    requires
        n < instants.len(),
        forall|i: int| 0 <= i < n ==> #[trigger] instants[i + 1] == instants[i] + period,
    ensures
        instants[n as int] == instants[0] + n * period,
    decreases n,
{
    if n > 0 {
        let m = n - 1;
        lemma_ticks_advance(instants, period, m as nat);
        assert(instants[m + 1] == instants[m] + period);
        assert(m + 1 == n);
        assert((n - 1) * period + period == n * period) by (nonlinear_arith);
    }
}

} // verus!
