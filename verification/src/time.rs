//! Lengths of time and the clock they are measured with.

use vstd::prelude::*;

verus! {

/// A length of time in whole nanoseconds.
#[derive(Debug, Clone, Copy, PartialEq, Eq, PartialOrd, Ord, Hash, Structural)]
pub struct Duration {
    pub nanos: u128,
}

impl Duration {
    pub fn zero() -> (d: Self)
        ensures
            d.nanos == 0,
    {
        Duration { nanos: 0 }
    }

    pub fn from_nanos(nanos: u128) -> (d: Self)
        ensures
            d.nanos == nanos,
    {
        Duration { nanos }
    }

    pub fn from_micros(micros: u64) -> (d: Self)
        ensures
            d.nanos == micros * 1_000,
    {
        Duration { nanos: micros as u128 * 1_000 }
    }

    pub fn from_millis(millis: u64) -> (d: Self)
        ensures
            d.nanos == millis * 1_000_000,
    {
        Duration { nanos: millis as u128 * 1_000_000 }
    }

    pub fn from_secs(secs: u64) -> (d: Self)
        ensures
            d.nanos == secs * 1_000_000_000,
    {
        Duration { nanos: secs as u128 * 1_000_000_000 }
    }

    pub fn is_zero(&self) -> (r: bool)
        ensures
            r == (self.nanos == 0),
    {
        self.nanos == 0
    }

    /// The longer of the two.
    pub fn longer(self, other: Duration) -> (d: Duration)
        ensures
            d.nanos == if self.nanos >= other.nanos {
                self.nanos
            } else {
                other.nanos
            },
    {
        if self.nanos >= other.nanos {
            self
        } else {
            other
        }
    }

    /// The shorter of the two.
    pub fn shorter(self, other: Duration) -> (d: Duration)
        ensures
            d.nanos == if self.nanos <= other.nanos {
                self.nanos
            } else {
                other.nanos
            },
    {
        if self.nanos <= other.nanos {
            self
        } else {
            other
        }
    }
}

/// The time between two instants, in nanoseconds: 0 where `now` is not after
/// `since`.
pub open spec fn elapsed(since: u128, now: u128) -> u128 {
    if now >= since {
        (now - since) as u128
    } else {
        0
    }
}

/// An instant of `std`, of which nothing is known.
#[verifier::external_type_specification]
#[verifier::external_body]
pub struct ExInstant(std::time::Instant);

/// `Instant::now` reads the clock of the machine: nothing is claimed of what it
/// gives.
pub assume_specification[ std::time::Instant::now ]() -> std::time::Instant
;

/// What `Instant::saturating_duration_since` gives for the two instants.
pub uninterp spec fn time_between(
    later: std::time::Instant,
    earlier: std::time::Instant,
) -> std::time::Duration;

/// `Instant::saturating_duration_since` gives the time from `earlier` to
/// `instant`, and no time where `earlier` is the later one: the two instants
/// alone determine it.
pub assume_specification[ std::time::Instant::saturating_duration_since ](
    instant: &std::time::Instant,
    earlier: std::time::Instant,
) -> (d: std::time::Duration)
    ensures
        d == time_between(*instant, earlier),
;

/// What `Duration::as_nanos` gives for the duration.
pub uninterp spec fn total_nanos(d: std::time::Duration) -> u128;

/// `Duration::as_nanos` gives the nanoseconds of the whole duration. Its whole
/// seconds are a `u64`, and its last part is less than a second.
pub assume_specification[ std::time::Duration::as_nanos ](d: &std::time::Duration) -> (n: u128)
    ensures
        n == total_nanos(*d),
        n < (u64::MAX + 1) * 1_000_000_000,
;

/// Whether `nanos` are less than 2^64 seconds.
pub open spec fn in_range(nanos: u128) -> bool {
    nanos < (u64::MAX + 1) * 1_000_000_000
}

/// A clock that starts at its creation.
pub struct Clock {
    start: std::time::Instant,
}

impl Clock {
    /// A clock that starts now. Which instant that is, the machine alone
    /// decides.
    pub fn start() -> Self {
        Clock { start: std::time::Instant::now() }
    }

    /// The instant at which the clock was started.
    pub closed spec fn origin(&self) -> std::time::Instant {
        self.start
    }

    /// Whether `now` is what the clock shows at some instant: the nanoseconds
    /// from its start to that instant.
    pub open spec fn can_show(&self, now: u128) -> bool {
        &&& in_range(now)
        &&& exists|t: std::time::Instant|
            now == total_nanos(#[trigger] time_between(t, self.origin()))
    }

    /// The nanoseconds since the clock was started. At which instant the clock
    /// is read, the machine alone decides.
    pub fn now(&self) -> (now: u128)
        ensures
            self.can_show(now),
    {
        let t = std::time::Instant::now();
        let d = t.saturating_duration_since(self.start);
        let now: u128 = d.as_nanos();
        assert(now == total_nanos(time_between(t, self.origin())));
        now
    }
}

/// Time is left behind every reading of a clock: adding a wait of less than
/// 2^64 seconds to it does not overflow, so the deadline is exact.
pub proof fn readings_leave_room(clock: Clock, now: u128, wait: u128)
    requires
        clock.can_show(now),
        in_range(wait),
    ensures
        now + wait <= u128::MAX,
{
}

/// The time between two instants takes one from the first to the second, and is
/// none where the second is the earlier one.
pub proof fn time_passes_between_instants(since: u128, now: u128, wait: u128)
    ensures
        since <= now ==> since + elapsed(since, now) == now,
        now < since ==> elapsed(since, now) == 0,
        since + wait <= u128::MAX ==> elapsed(since, (since + wait) as u128) == wait,
        elapsed(since, since) == 0,
{
}

} // verus!
