//! The monotonic clock, and the mute that `pause` sets.

use crate::machine::monotonic_clock_showed;
use vstd::prelude::*;

verus! {

/// The longest span of a `std::time::Duration`, in nanoseconds.
pub const MAX_SPAN_NANOS: u128 = 18_446_744_073_709_551_615_999_999_999;

/// The point of tokio's monotonic clock that readings are counted from.
#[verifier::external_type_specification]
#[verifier::external_body]
pub struct ExInstant(tokio::time::Instant);

/// A clock that never goes backwards. It reads the nanoseconds since it was started.
#[derive(Clone, Copy)]
pub struct MonotonicClock {
    pub start: tokio::time::Instant,
}

impl MonotonicClock {
    /// A clock that starts now.
    pub fn new() -> (r: MonotonicClock) {
        MonotonicClock { start: instant_now() }
    }

    /// The nanoseconds since the clock was started.
    pub fn read(&self) -> (r: u128)
        ensures
            monotonic_clock_showed(self.start, r),
            r <= MAX_SPAN_NANOS,
    {
        nanos_elapsed(self.start)
    }
}

/// Calls `tokio::time::Instant::now`. Nothing is claimed of the instant that the clock shows.
#[verifier::external_body]
fn instant_now() -> (r: tokio::time::Instant) {
    tokio::time::Instant::now()
}

/// Calls `tokio::time::Instant::elapsed` and `Duration::as_nanos`. Claims that the result is
/// what the clock showed since the instant, the length of a `Duration`. How much time has passed depends on the clock.
#[verifier::external_body]
fn nanos_elapsed(since: tokio::time::Instant) -> (r: u128)
    ensures
        monotonic_clock_showed(since, r),
        r <= MAX_SPAN_NANOS,
{
    since.elapsed().as_nanos()
}

/// Whether the output of ringing alarms is muted, and until when.
///
/// The alarm manager keeps the mute up to date. It is for whoever makes the noise to look at it
/// and to keep silent. This is a plain value: a mute that is set on one copy does not show in
/// another. Whoever runs the manager shares the current value with those who make the noise.
#[derive(Clone, Copy)]
pub struct MuteStatus {
    clock: MonotonicClock,
    until: Option<u128>,
}

impl MuteStatus {
    /// The reading of the clock at which the mute ends, if one was ever set.
    pub closed spec fn spec_until(self) -> Option<u128> {
        self.until
    }

    /// The clock that the mute goes by.
    pub closed spec fn spec_clock(self) -> MonotonicClock {
        self.clock
    }

    /// The output is muted when the clock reads `now`.
    pub open spec fn mutes_at(self, now: u128) -> bool {
        self.spec_until() matches Some(until) && now < until
    }

    /// A status that mutes nothing.
    pub fn new(clock: MonotonicClock) -> (r: MuteStatus)
        ensures
            r.spec_until() is None,
            r.spec_clock() == clock,
    {
        MuteStatus { clock, until: None }
    }

    /// The clock that the mute goes by.
    pub fn clock(&self) -> (r: MonotonicClock)
        ensures
            r == self.spec_clock(),
    {
        self.clock
    }

    /// The reading of the clock at which the mute ends, if one was ever set.
    pub fn until(&self) -> (r: Option<u128>)
        ensures
            r == self.spec_until(),
    {
        self.until
    }

    /// Whether the output is muted when the clock reads `now`.
    pub fn is_muted_at(&self, now: u128) -> (r: bool)
        ensures
            r == self.mutes_at(now),
    {
        match self.until {
            Some(until) => now < until,
            None => false,
        }
    }

    /// Whether the output is muted now.
    pub fn is_muted(&self) -> (r: bool)
        ensures
            exists|now: u128|
                now <= MAX_SPAN_NANOS && monotonic_clock_showed(self.spec_clock().start, now) && r
                    == #[trigger] self.mutes_at(now),
            self.spec_until() is None ==> !r,
            self.spec_until() matches Some(until) && until > MAX_SPAN_NANOS ==> r,
    {
        let now: u128 = self.clock.read();
        self.is_muted_at(now)
    }

    /// Mutes the output until the clock reads `until`, whatever mute was set before.
    pub fn set_muted_until(&mut self, until: u128)
        ensures
            final(self).spec_until() == Some(until),
            final(self).spec_clock() == old(self).spec_clock(),
    {
        self.until = Some(until);
    }
}

impl Default for MuteStatus {
    fn default() -> (r: MuteStatus)
        ensures
            r.spec_until() is None,
    {
        MuteStatus::new(MonotonicClock::new())
    }
}

} // verus!
