//! Wall-clock times, weekdays and local moments, and the questions that are put to `chrono`
//! about them.
//!
//! A date is the number of days since the start of the proleptic Gregorian calendar, January 1
//! of year 1 being day 1. A moment keeps its local date, its local time of day and the offset
//! of local time from UTC.

use crate::machine::{local_clock_showed, zone_answered, zone_showed};
use chrono::{Datelike, TimeZone, Timelike};
use core::cmp::Ordering;
use vstd::prelude::*;

verus! {

/// The first date that `chrono` can represent: January 1, -262143.
pub const MIN_DATE: i32 = -95_746_129;

/// The last date that `chrono` can represent: December 31, 262142.
pub const MAX_DATE: i32 = 95_745_399;

pub const SECONDS_PER_DAY: i64 = 86_400;

pub const NANOS_PER_SECOND: u32 = 1_000_000_000;

/// The date of January 1, 1970.
pub const UNIX_EPOCH_DATE: i32 = 719_163;

/// `date` lies in the calendar that `chrono` can represent.
pub open spec fn is_date(date: int) -> bool {
    MIN_DATE <= date <= MAX_DATE
}

/// A UTC offset that `chrono` can represent: less than a day in either direction.
pub open spec fn is_offset(offset: int) -> bool {
    -SECONDS_PER_DAY < offset < SECONDS_PER_DAY
}

/// A count of seconds since the start of day 0 that falls on a date of the calendar.
pub open spec fn is_calendar_second(seconds: int) -> bool {
    MIN_DATE * SECONDS_PER_DAY <= seconds < (MAX_DATE + 1) * SECONDS_PER_DAY
}

/// The day of the week of a date, counted from Monday: day 1 of the calendar is a Monday.
pub open spec fn weekday_index(date: int) -> int {
    (date - 1) % 7
}

/// A time of day: seconds since midnight and nanoseconds within the second. As in `chrono`, a
/// nanosecond count of a billion or more stands for a leap second, which only the last second
/// of a minute can have.
#[derive(Clone, Copy, Debug, PartialEq, Eq, Structural)]
pub struct NaiveTime {
    pub seconds: u32,
    pub nanos: u32,
}

impl NaiveTime {
    pub open spec fn wf(self) -> bool {
        &&& self.seconds < SECONDS_PER_DAY
        &&& self.nanos < 2 * NANOS_PER_SECOND
        &&& self.nanos >= NANOS_PER_SECOND ==> self.seconds % 60 == 59
    }

    /// The time of day with the seconds dropped: what `HH:MM` keeps of it.
    pub open spec fn to_the_minute(self) -> NaiveTime {
        NaiveTime { seconds: (self.seconds - self.seconds % 60) as u32, nanos: 0 }
    }

    pub open spec fn spec_at_or_before(self, other: NaiveTime) -> bool {
        self.seconds < other.seconds || (self.seconds == other.seconds && self.nanos
            <= other.nanos)
    }

    /// The time of day `seconds` seconds and `nanos` nanoseconds after midnight, if there is one.
    pub fn new(seconds: u32, nanos: u32) -> (r: Option<NaiveTime>)
        ensures
            r is Some <==> (NaiveTime { seconds, nanos }).wf(),
            r matches Some(time) ==> time == (NaiveTime { seconds, nanos }),
    {
        if seconds >= 86_400 || nanos >= 2_000_000_000 || (nanos >= 1_000_000_000 && seconds % 60
            != 59) {
            return None;
        }
        Some(NaiveTime { seconds, nanos })
    }

    /// Whether this time of day comes no later than `other`.
    pub fn at_or_before(&self, other: &NaiveTime) -> (r: bool)
        ensures
            r == self.spec_at_or_before(*other),
    {
        self.seconds < other.seconds || (self.seconds == other.seconds && self.nanos
            <= other.nanos)
    }
}

#[derive(Clone, Copy, Debug, PartialEq, Eq, Structural)]
pub enum Weekday {
    Mon,
    Tue,
    Wed,
    Thu,
    Fri,
    Sat,
    Sun,
}

impl Weekday {
    /// The position of the day in a week that starts on Monday.
    pub open spec fn index(self) -> int {
        match self {
            Weekday::Mon => 0,
            Weekday::Tue => 1,
            Weekday::Wed => 2,
            Weekday::Thu => 3,
            Weekday::Fri => 4,
            Weekday::Sat => 5,
            Weekday::Sun => 6,
        }
    }

    /// The day that stands `index` days after Monday in the week.
    pub fn from_monday_index(index: u32) -> (r: Option<Weekday>)
        ensures
            r is Some <==> index < 7,
            r matches Some(day) ==> day.index() == index,
    {
        match index {
            0 => Some(Weekday::Mon),
            1 => Some(Weekday::Tue),
            2 => Some(Weekday::Wed),
            3 => Some(Weekday::Thu),
            4 => Some(Weekday::Fri),
            5 => Some(Weekday::Sat),
            6 => Some(Weekday::Sun),
            _ => None,
        }
    }

    /// How many days after Monday the day stands in the week.
    pub fn monday_index(&self) -> (r: u32)
        ensures
            r == self.index(),
    {
        match self {
            Weekday::Mon => 0,
            Weekday::Tue => 1,
            Weekday::Wed => 2,
            Weekday::Thu => 3,
            Weekday::Fri => 4,
            Weekday::Sat => 5,
            Weekday::Sun => 6,
        }
    }
}

/// A moment as local clocks show it. Moments compare by the instant they denote, whatever
/// their offsets.
#[derive(Clone, Copy, Debug)]
pub struct LocalDateTime {
    pub date: i32,
    pub time: NaiveTime,
    pub offset: i32,
}

impl LocalDateTime {
    /// Seconds from the start of day 0 to this moment, in UTC.
    pub open spec fn instant(self) -> int {
        self.date * SECONDS_PER_DAY + self.time.seconds - self.offset
    }

    pub open spec fn wf(self) -> bool {
        &&& is_date(self.date as int)
        &&& self.time.wf()
        &&& is_offset(self.offset as int)
        &&& is_calendar_second(self.instant())
    }

    /// This moment comes strictly after `other`.
    pub open spec fn spec_after(self, other: LocalDateTime) -> bool {
        self.instant() > other.instant() || (self.instant() == other.instant() && self.time.nanos
            > other.time.nanos)
    }

    /// The two moments are the same instant.
    pub open spec fn same_instant(self, other: LocalDateTime) -> bool {
        self.instant() == other.instant() && self.time.nanos == other.time.nanos
    }

    /// `later` is `seconds` whole seconds after this moment. Going on from a leap second leaves
    /// it.
    pub open spec fn is_followed_by(self, seconds: int, later: LocalDateTime) -> bool {
        &&& later.instant() == self.instant() + seconds
        &&& later.time.nanos == self.time.nanos % NANOS_PER_SECOND
    }

    /// One second after this moment is still later than `now`.
    pub open spec fn spec_second_after_exceeds(self, now: LocalDateTime) -> bool {
        self.instant() + 1 > now.instant() || (self.instant() + 1 == now.instant()
            && self.time.nanos % NANOS_PER_SECOND > now.time.nanos)
    }

    /// The later of this moment and `now`; `now` where they are the same instant.
    pub open spec fn spec_latest(self, now: LocalDateTime) -> LocalDateTime {
        if self.spec_after(now) {
            self
        } else {
            now
        }
    }

    /// Two seconds after this moment there is a local date in the calendar, whatever offset local
    /// time then has.
    pub open spec fn spec_clear_of_limits(self) -> bool {
        &&& is_calendar_second(self.instant() + 2 - (SECONDS_PER_DAY - 1))
        &&& is_calendar_second(self.instant() + 2 + (SECONDS_PER_DAY - 1))
    }

    /// The second of the UTC day.
    pub open spec fn utc_second_of_day(self) -> int {
        self.instant() % (SECONDS_PER_DAY as int)
    }

    /// The nanoseconds from `earlier` to this moment, negative where `earlier` is the later one.
    /// A leap second counts as one where the seconds of the UTC day show that it lies between.
    pub open spec fn nanos_since(self, earlier: LocalDateTime) -> int {
        let leap: int = if self.utc_second_of_day() > earlier.utc_second_of_day()
            && earlier.time.nanos >= NANOS_PER_SECOND {
            1
        } else if self.utc_second_of_day() < earlier.utc_second_of_day() && self.time.nanos
            >= NANOS_PER_SECOND {
            -1
        } else {
            0
        };
        (self.instant() - earlier.instant() + leap) * NANOS_PER_SECOND + self.time.nanos
            - earlier.time.nanos
    }

    /// The nanoseconds left until this moment at the time `now`: none once it has passed.
    pub open spec fn nanos_left(self, now: LocalDateTime) -> int {
        if self.nanos_since(now) < 0 {
            0
        } else {
            self.nanos_since(now)
        }
    }

    /// Seconds from the start of day 0 to this moment, in UTC.
    pub fn utc_seconds(&self) -> (r: i64)
        ensures
            r == self.instant(),
    {
        self.date as i64 * 86_400 + self.time.seconds as i64 - self.offset as i64
    }

    /// Whether this moment comes strictly after `other`.
    pub fn is_after(&self, other: &LocalDateTime) -> (r: bool)
        ensures
            r == self.spec_after(*other),
    {
        let mine: i64 = self.utc_seconds();
        let theirs: i64 = other.utc_seconds();
        mine > theirs || (mine == theirs && self.time.nanos > other.time.nanos)
    }

    /// Whether one second after this moment is still later than `now`.
    pub fn second_after_exceeds(&self, now: &LocalDateTime) -> (r: bool)
        requires
            self.wf(),
        ensures
            r == self.spec_second_after_exceeds(*now),
    {
        let mine: i64 = self.utc_seconds() + 1;
        let theirs: i64 = now.utc_seconds();
        mine > theirs || (mine == theirs && self.time.nanos % 1_000_000_000 > now.time.nanos)
    }

    /// The later of this moment and `now`; `now` where they are the same instant.
    pub fn latest(self, now: LocalDateTime) -> (r: LocalDateTime)
        ensures
            r == self.spec_latest(now),
    {
        if self.is_after(&now) {
            self
        } else {
            now
        }
    }

    /// Whether there is a local date in the calendar two seconds after this moment, whatever
    /// offset local time then has.
    pub fn is_clear_of_limits(&self) -> (r: bool)
        ensures
            r == self.spec_clear_of_limits(),
    {
        let then: i64 = self.utc_seconds() + 2;
        let first: i64 = MIN_DATE as i64 * 86_400;
        let end: i64 = (MAX_DATE as i64 + 1) * 86_400;
        first <= then - 86_399 && then + 86_399 < end
    }

    /// Two seconds after this moment, as local clocks show it then.
    pub fn two_seconds_later(&self) -> (r: LocalDateTime)
        requires
            self.wf(),
            self.spec_clear_of_limits(),
        ensures
            zone_showed(r),
            r.wf(),
            self.is_followed_by(2, r),
    {
        local_plus_seconds(*self, 2)
    }

    /// How many nanoseconds are left until this moment at the time `now`.
    pub fn nanos_until(&self, now: &LocalDateTime) -> (r: u128)
        requires
            self.wf(),
            now.wf(),
        ensures
            r == self.nanos_left(*now),
    {
        match nanos_between(*now, *self) {
            Some(left) => left,
            None => 0,
        }
    }
}

impl PartialEq for LocalDateTime {
    fn eq(&self, other: &LocalDateTime) -> (r: bool) {
        self.utc_seconds() == other.utc_seconds() && self.time.nanos == other.time.nanos
    }
}

impl vstd::std_specs::cmp::PartialEqSpecImpl for LocalDateTime {
    open spec fn obeys_eq_spec() -> bool {
        true
    }

    open spec fn eq_spec(&self, other: &LocalDateTime) -> bool {
        self.same_instant(*other)
    }
}

impl PartialOrd for LocalDateTime {
    fn partial_cmp(&self, other: &LocalDateTime) -> (r: Option<Ordering>) {
        if self.is_after(other) {
            Some(Ordering::Greater)
        } else if other.is_after(self) {
            Some(Ordering::Less)
        } else {
            Some(Ordering::Equal)
        }
    }
}

impl vstd::std_specs::cmp::PartialOrdSpecImpl for LocalDateTime {
    open spec fn obeys_partial_cmp_spec() -> bool {
        true
    }

    open spec fn partial_cmp_spec(&self, other: &LocalDateTime) -> Option<Ordering> {
        if self.spec_after(*other) {
            Some(Ordering::Greater)
        } else if other.spec_after(*self) {
            Some(Ordering::Less)
        } else {
            Some(Ordering::Equal)
        }
    }
}

/// The day of the week of a date.
pub fn weekday_of(date: i32) -> (r: Weekday)
    requires
        is_date(date as int),
    ensures
        r.index() == weekday_index(date as int),
{
    match Weekday::from_monday_index(monday_offset(date)) {
        Some(day) => day,
        None => {
            assert(false);
            Weekday::Mon
        },
    }
}

/// The date after `date`, or `date` itself where the calendar ends.
pub fn next_date(date: i32) -> (r: i32)
    requires
        is_date(date as int),
    ensures
        r == if date < MAX_DATE {
            date + 1
        } else {
            date as int
        },
{
    match following_date(date) {
        Some(next) => next,
        None => date,
    }
}

/// Calls `NaiveDate::weekday` and `Weekday::num_days_from_monday`. Claims that the weekday of a
/// date follows from its number in the calendar, day 1 being a Monday.
#[verifier::external_body]
fn monday_offset(date: i32) -> (r: u32)
    requires
        is_date(date as int),
    ensures
        r == weekday_index(date as int),
{
    let day = chrono::NaiveDate::from_num_days_from_ce_opt(date).unwrap();
    day.weekday().num_days_from_monday()
}

/// Calls `NaiveDate::succ_opt`. Claims that it gives the next date of the calendar, and none
/// after the last one.
#[verifier::external_body]
fn following_date(date: i32) -> (r: Option<i32>)
    requires
        is_date(date as int),
    ensures
        date < MAX_DATE ==> r == Some((date + 1) as i32),
        date == MAX_DATE ==> r == None::<i32>,
{
    let day = chrono::NaiveDate::from_num_days_from_ce_opt(date).unwrap();
    day.succ_opt().map(|next| next.num_days_from_ce())
}

/// Calls `NaiveDateTime::and_local_timezone` with `Local`, and `single` on what it returns.
/// Claims of what comes back that it is what the time zone answered about the given local date
/// and time, and that an offset belongs to a moment which `chrono` can represent. Which offset
/// that is, and whether there is exactly one, depends on the time zone that the machine is set
/// to, and is left unsaid.
#[verifier::external_body]
pub(crate) fn sole_local_offset(date: i32, time: NaiveTime) -> (r: Option<i32>)
    requires
        is_date(date as int),
        time.wf(),
    ensures
        zone_answered(date as int, time, r),
        r matches Some(offset) ==> (LocalDateTime { date, time, offset }).wf(),
{
    let day = chrono::NaiveDate::from_num_days_from_ce_opt(date).unwrap();
    let at = chrono::NaiveTime::from_num_seconds_from_midnight_opt(time.seconds, time.nanos);
    let moment = day.and_time(at.unwrap()).and_local_timezone(chrono::Local).single();
    moment.map(|found| found.offset().local_minus_utc())
}

/// Calls `Local::now`. Claims that the result is what the clock showed, a moment that `chrono`
/// can represent, not before the Unix epoch and never within a leap second. Which moment it is depends on the
/// clock and on the time zone that the machine is set to.
#[verifier::external_body]
pub(crate) fn local_now() -> (r: LocalDateTime)
    ensures
        local_clock_showed(r),
        r.wf(),
        r.instant() >= UNIX_EPOCH_DATE * SECONDS_PER_DAY,
        r.time.nanos < NANOS_PER_SECOND,
{
    let now = chrono::Local::now();
    let time = now.time();
    LocalDateTime {
        date: now.date_naive().num_days_from_ce(),
        time: NaiveTime { seconds: time.num_seconds_from_midnight(), nanos: time.nanosecond() },
        offset: now.offset().local_minus_utc(),
    }
}

/// Calls the `+` of `DateTime<Local>` and a `TimeDelta` of whole seconds. Claims that the sum
/// is the instant that many seconds later, out of any leap second, as the time zone that the
/// machine is set to answered that local clocks show it. Which offset they then have is left
/// unsaid.
#[verifier::external_body]
fn local_plus_seconds(at: LocalDateTime, count: u32) -> (r: LocalDateTime)
    requires
        at.wf(),
        0 < count,
        is_calendar_second(at.instant() + count - (SECONDS_PER_DAY - 1)),
        is_calendar_second(at.instant() + count + (SECONDS_PER_DAY - 1)),
    ensures
        zone_showed(r),
        r.wf(),
        at.is_followed_by(count as int, r),
{
    let day = chrono::NaiveDate::from_num_days_from_ce_opt(at.date).unwrap();
    let clock = chrono::NaiveTime::from_num_seconds_from_midnight_opt(at.time.seconds, at.time.nanos);
    let zone = chrono::FixedOffset::east_opt(at.offset).unwrap();
    let start = zone.from_local_datetime(&day.and_time(clock.unwrap())).unwrap();
    let sum = start.with_timezone(&chrono::Local) + chrono::Duration::seconds(count as i64);
    let time = sum.time();
    LocalDateTime {
        date: sum.date_naive().num_days_from_ce(),
        time: NaiveTime { seconds: time.num_seconds_from_midnight(), nanos: time.nanosecond() },
        offset: sum.offset().local_minus_utc(),
    }
}

/// Calls the `-` of two `DateTime`s, `TimeDelta::to_std` and `Duration::as_nanos`. Claims that
/// they give the nanoseconds from one instant to the other, leap seconds counted as `chrono`
/// counts them, and none where the span is negative.
#[verifier::external_body]
fn nanos_between(from: LocalDateTime, to: LocalDateTime) -> (r: Option<u128>)
    requires
        from.wf(),
        to.wf(),
    ensures
        to.nanos_since(from) >= 0 ==> r == Some(to.nanos_since(from) as u128),
        to.nanos_since(from) < 0 ==> r is None,
{
    let chrono_of = |at: LocalDateTime| {
        let day = chrono::NaiveDate::from_num_days_from_ce_opt(at.date).unwrap();
        let time = chrono::NaiveTime::from_num_seconds_from_midnight_opt(
            at.time.seconds,
            at.time.nanos,
        );
        let zone = chrono::FixedOffset::east_opt(at.offset).unwrap();
        zone.from_local_datetime(&day.and_time(time.unwrap())).unwrap()
    };
    let span = chrono_of(to) - chrono_of(from);
    span.to_std().ok().map(|left| left.as_nanos())
}

} // verus!
