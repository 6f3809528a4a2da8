//! The ringer that writes a line to the log.

use crate::machine::monotonic_clock_showed;
use crate::mute::{MuteStatus, MAX_SPAN_NANOS};
use vstd::prelude::*;

verus! {

/// Rings by writing a line to the log every second, except while the output is muted.
pub struct LogRinger;

/// One turn of a ringing alarm: whether to write the line, and how long to wait for the next
/// turn.
#[derive(Clone, Copy, Debug, PartialEq, Eq, Structural)]
pub struct RingTurn {
    pub announce: bool,
    pub wait_seconds: u64,
}

impl LogRinger {
    /// The turn to take when the clock reads `now`.
    pub fn turn_at(&self, mute: &MuteStatus, now: u128) -> (r: RingTurn)
        ensures
            r == (RingTurn { announce: !mute.mutes_at(now), wait_seconds: 1 }),
    {
        RingTurn { announce: !mute.is_muted_at(now), wait_seconds: 1 }
    }

    /// The turn to take now.
    pub fn ring(&self, mute: &MuteStatus) -> (r: RingTurn)
        ensures
            r.wait_seconds == 1,
            mute.spec_until() is None ==> r.announce,
            mute.spec_until() matches Some(until) && until > MAX_SPAN_NANOS ==> !r.announce,
            exists|now: u128|
                now <= MAX_SPAN_NANOS && monotonic_clock_showed(mute.spec_clock().start, now)
                    && r.announce == !#[trigger] mute.mutes_at(now),
    {
        let now: u128 = mute.clock().read();
        self.turn_at(mute, now)
    }
}

} // verus!
