//! What the machine answered.
//!
//! The time zone, the clocks and the source of chance answer differently on different machines
//! and at different times, so there is no saying in advance what they answer. What can be said
//! is that an answer is one: each of these holds of whatever the call it speaks of gave back.
//! Their definitions say what is true of every answer, and are not seen outside this module. So
//! elsewhere an answer can only be had by asking: nothing that was made up, left over or changed
//! can be shown to be one.

use crate::calendar::{
    is_date, LocalDateTime, NaiveTime, NANOS_PER_SECOND, SECONDS_PER_DAY, UNIX_EPOCH_DATE,
};
use crate::mute::MAX_SPAN_NANOS;
use vstd::prelude::*;

verus! {

/// The time zone that the machine is set to answered that local clocks show the time on the date
/// exactly once, at this offset from UTC, or, with none, that they do not.
pub closed spec fn zone_answered(date: int, time: NaiveTime, offset: Option<i32>) -> bool {
    &&& is_date(date)
    &&& time.wf()
    &&& offset matches Some(ahead) ==> (LocalDateTime { date: date as i32, time, offset: ahead }).wf()
}

/// The time zone that the machine is set to answered that this is how local clocks show the
/// instant.
pub closed spec fn zone_showed(moment: LocalDateTime) -> bool {
    moment.wf()
}

/// The local clock of the machine showed this moment.
pub closed spec fn local_clock_showed(moment: LocalDateTime) -> bool {
    &&& moment.wf()
    &&& moment.instant() >= UNIX_EPOCH_DATE * SECONDS_PER_DAY
    &&& moment.time.nanos < NANOS_PER_SECOND
}

/// The monotonic clock of the machine showed that so many nanoseconds had passed since `start`.
pub closed spec fn monotonic_clock_showed(start: tokio::time::Instant, reading: u128) -> bool {
    reading <= MAX_SPAN_NANOS
}

/// The ID was drawn as a new random UUID.
pub closed spec fn was_drawn(id: u128) -> bool {
    (id >> 76) & 0xf == 4 && (id >> 62) & 0x3 == 2
}

} // verus!
