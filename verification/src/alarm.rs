//! Alarms, and the moment at which an alarm rings next.

use crate::calendar::{
    is_date, next_date, sole_local_offset, weekday_index, weekday_of, LocalDateTime, NaiveTime,
    Weekday, MAX_DATE,
};
use crate::machine::zone_answered;
use vstd::prelude::*;

verus! {

/// How many days, today included, are searched for the next ring.
pub const SEARCH_DAYS: usize = 8;

/// An alarm that rings at a time of day on some days of the week.
#[derive(Debug, PartialEq, Eq)]
pub struct Alarm {
    /// The UUID of the alarm, as a number.
    pub id: u128,
    pub time: NaiveTime,
    /// The days on which the alarm rings. On no day at all, it never rings by itself.
    pub days_of_week: Vec<Weekday>,
    pub is_enabled: bool,
    /// An identifier that the app gives the alarm. It is kept and handed back as it is.
    pub stop_method_id: Option<String>,
}

/// What an [`Alarm`] says, with mathematical sequences.
pub struct AlarmView {
    pub id: u128,
    pub time: NaiveTime,
    pub days_of_week: Seq<Weekday>,
    pub is_enabled: bool,
    pub stop_method_id: Option<Seq<char>>,
}

impl View for Alarm {
    type V = AlarmView;

    open spec fn view(&self) -> AlarmView {
        AlarmView {
            id: self.id,
            time: self.time,
            days_of_week: self.days_of_week@,
            is_enabled: self.is_enabled,
            stop_method_id: match self.stop_method_id {
                Some(text) => Some(text@),
                None => None,
            },
        }
    }
}

/// A time of day on a date, as local clocks show it: one occasion for an alarm to ring.
#[derive(Clone, Copy, Debug, PartialEq, Eq, Structural)]
pub struct Slot {
    pub date: i32,
    pub time: NaiveTime,
}

/// The date that is searched `day` days into the search, which stays on the last date of the
/// calendar once it gets there.
pub open spec fn search_date(now: LocalDateTime, day: int) -> int {
    if now.date + day <= MAX_DATE {
        now.date + day
    } else {
        MAX_DATE as int
    }
}

impl AlarmView {
    pub open spec fn wf(self) -> bool {
        self.time.wf()
    }

    /// The alarm as it is read back from where it was written: its time of day is written to the
    /// minute.
    pub open spec fn as_written(self) -> AlarmView {
        AlarmView { time: self.time.to_the_minute(), ..self }
    }

    /// The alarm is switched on and has a day to ring on.
    pub open spec fn can_ring(self) -> bool {
        self.is_enabled && self.days_of_week.len() > 0
    }

    /// The alarm rings on this day of the week, counted from Monday.
    pub open spec fn rings_on_weekday(self, index: int) -> bool {
        exists|i: int|
            0 <= i < self.days_of_week.len() && (#[trigger] self.days_of_week[i]).index() == index
    }

    /// The alarm rings on the day of the week of `date`.
    pub open spec fn rings_on(self, date: int) -> bool {
        self.rings_on_weekday(weekday_index(date))
    }

    /// The alarm's time on `date`, where local time is `offset` seconds ahead of UTC.
    pub open spec fn slot(self, date: int, offset: int) -> LocalDateTime {
        LocalDateTime { date: date as i32, time: self.time, offset: offset as i32 }
    }

    /// `offsets` holds, for each day of a search from `now`, a possible offset of local time at
    /// the alarm's time on that day, or none where that time does not occur exactly once.
    pub open spec fn are_offsets(self, now: LocalDateTime, offsets: Seq<Option<i32>>) -> bool {
        &&& offsets.len() == SEARCH_DAYS
        &&& forall|day: int|
            0 <= day < SEARCH_DAYS && (#[trigger] offsets[day]) is Some ==> self.slot(
                search_date(now, day),
                offsets[day]->0 as int,
            ).wf()
    }

    /// The alarm's time on the given day of a search from `now`.
    pub open spec fn candidate(
        self,
        now: LocalDateTime,
        offsets: Seq<Option<i32>>,
        day: int,
    ) -> LocalDateTime {
        self.slot(search_date(now, day), offsets[day]->0 as int)
    }

    /// On the given day of a search from `now` the alarm rings, its time occurs exactly once,
    /// and that moment is yet to come or has passed by less than a second.
    pub open spec fn is_due(self, now: LocalDateTime, offsets: Seq<Option<i32>>, day: int) -> bool {
        &&& self.rings_on(search_date(now, day))
        &&& offsets[day] is Some
        &&& self.candidate(now, offsets, day).spec_second_after_exceeds(now)
    }

    /// The given day is the first of a search from `now` on which the alarm is due.
    pub open spec fn is_first_due(
        self,
        now: LocalDateTime,
        offsets: Seq<Option<i32>>,
        day: int,
    ) -> bool {
        &&& 0 <= day < SEARCH_DAYS
        &&& self.is_due(now, offsets, day)
        &&& forall|earlier: int| 0 <= earlier < day ==> !#[trigger] self.is_due(
            now,
            offsets,
            earlier,
        )
    }

    /// `wakeup` is when the alarm rings next after `now`, given the offsets of local time: on
    /// the first day on which it is due, at once where its time has just passed. It is none
    /// where the alarm cannot ring or is due on no day of the search.
    pub open spec fn is_next_wakeup(
        self,
        now: LocalDateTime,
        offsets: Seq<Option<i32>>,
        wakeup: Option<LocalDateTime>,
    ) -> bool {
        match wakeup {
            Some(moment) => self.can_ring() && exists|day: int|
                #[trigger] self.is_first_due(now, offsets, day) && moment == self.candidate(
                    now,
                    offsets,
                    day,
                ).spec_latest(now),
            None => !self.can_ring() || forall|day: int|
                0 <= day < SEARCH_DAYS ==> !#[trigger] self.is_due(now, offsets, day),
        }
    }

    /// The alarm's slot today, if the alarm can ring today and its time has come.
    pub open spec fn spec_slot_today(self, now: LocalDateTime) -> Option<Slot> {
        if self.is_enabled && self.rings_on(now.date as int) && self.time.spec_at_or_before(
            now.time,
        ) {
            Some(Slot { date: now.date, time: self.time })
        } else {
            None
        }
    }

    /// On the given day of a search from `now`, the alarm's time is the slot `rung`.
    pub open spec fn is_rung(self, now: LocalDateTime, rung: Option<Slot>, day: int) -> bool {
        rung == Some(Slot { date: search_date(now, day) as i32, time: self.time })
    }

    /// The offsets of a search from `now` in which the slot `rung`, if there is one, is passed
    /// over, as if its time did not occur.
    pub open spec fn passed_over(
        self,
        now: LocalDateTime,
        offsets: Seq<Option<i32>>,
        rung: Option<Slot>,
    ) -> Seq<Option<i32>> {
        Seq::new(
            offsets.len(),
            |day: int|
                if self.is_rung(now, rung, day) {
                    None
                } else {
                    offsets[day]
                },
        )
    }

    /// `offsets` holds, for each day of a search from `now` on which the alarm rings, what the
    /// time zone answered about the alarm's time on that day.
    pub open spec fn are_answers(self, now: LocalDateTime, offsets: Seq<Option<i32>>) -> bool {
        &&& self.are_offsets(now, offsets)
        &&& forall|day: int|
            0 <= day < SEARCH_DAYS && self.rings_on(search_date(now, day)) ==> zone_answered(
                search_date(now, day),
                self.time,
                #[trigger] offsets[day],
            )
    }

    /// `wakeup` is when the alarm rings next after `now`, by what the time zone answered about
    /// its days, where the slot `rung`, if there is one, is passed over.
    pub open spec fn may_wake_but(
        self,
        now: LocalDateTime,
        rung: Option<Slot>,
        wakeup: Option<LocalDateTime>,
    ) -> bool {
        if self.can_ring() {
            exists|offsets: Seq<Option<i32>>| #[trigger]
                self.are_answers(now, offsets) && self.is_next_wakeup(
                    now,
                    self.passed_over(now, offsets, rung),
                    wakeup,
                )
        } else {
            wakeup is None
        }
    }

    /// `wakeup` is when the alarm rings next after `now`, by what the time zone answered about
    /// its days.
    pub open spec fn may_wake_at(self, now: LocalDateTime, wakeup: Option<LocalDateTime>) -> bool {
        if self.can_ring() {
            exists|offsets: Seq<Option<i32>>| #[trigger]
                self.are_answers(now, offsets) && self.is_next_wakeup(now, offsets, wakeup)
        } else {
            wakeup is None
        }
    }
}

/// Whether an alarm is switched on where nothing says so.
pub fn default_true() -> (r: bool)
    ensures
        r == true,
{
    true
}

impl Clone for Alarm {
    fn clone(&self) -> (r: Alarm)
        ensures
            r@ == self@,
    {
        let days_of_week = self.days_of_week.clone();
        assert(days_of_week@ =~= self.days_of_week@);
        Alarm {
            id: self.id,
            time: self.time,
            days_of_week,
            is_enabled: self.is_enabled,
            stop_method_id: match &self.stop_method_id {
                Some(text) => Some(text.clone()),
                None => None,
            },
        }
    }
}

/// The offset of local time at each of the local dates and times, where it occurs exactly once
/// in the time zone that the machine is set to.
fn local_offsets(slots: &Vec<Option<(i32, NaiveTime)>>) -> (r: Vec<Option<i32>>)
    requires
        forall|i: int|
            0 <= i < slots@.len() && (#[trigger] slots@[i]) is Some ==> is_date(
                slots@[i]->Some_0.0 as int,
            ) && slots@[i]->Some_0.1.wf(),
    ensures
        r@.len() == slots@.len(),
        forall|i: int|
            0 <= i < r@.len() && slots@[i] is Some ==> zone_answered(
                slots@[i]->Some_0.0 as int,
                slots@[i]->Some_0.1,
                #[trigger] r@[i],
            ),
        forall|i: int| 0 <= i < r@.len() && slots@[i] is None ==> (#[trigger] r@[i]) is None,
        forall|i: int|
            0 <= i < r@.len() && (#[trigger] r@[i]) is Some ==> (LocalDateTime {
                date: slots@[i]->Some_0.0,
                time: slots@[i]->Some_0.1,
                offset: r@[i]->0,
            }).wf(),
{
    let mut offsets: Vec<Option<i32>> = Vec::new();
    let mut next: usize = 0;
    while next < slots.len()
        invariant
            next <= slots@.len(),
            next == offsets@.len(),
            forall|i: int|
                0 <= i < slots@.len() && (#[trigger] slots@[i]) is Some ==> is_date(
                    slots@[i]->Some_0.0 as int,
                ) && slots@[i]->Some_0.1.wf(),
            forall|i: int|
                0 <= i < next && slots@[i] is Some ==> zone_answered(
                    slots@[i]->Some_0.0 as int,
                    slots@[i]->Some_0.1,
                    #[trigger] offsets@[i],
                ),
            forall|i: int|
                0 <= i < next && slots@[i] is None ==> (#[trigger] offsets@[i]) is None,
            forall|i: int|
                0 <= i < next && (#[trigger] offsets@[i]) is Some ==> (LocalDateTime {
                    date: slots@[i]->Some_0.0,
                    time: slots@[i]->Some_0.1,
                    offset: offsets@[i]->0,
                }).wf(),
        decreases slots.len() - next,
    {
        let offset: Option<i32> = match slots[next] {
            Some((date, time)) => {
                assert(slots@[next as int] is Some);
                sole_local_offset(date, time)
            },
            None => None,
        };
        offsets.push(offset);
        next = next + 1;
    }
    offsets
}

impl Alarm {
    /// The alarm's slot today, if the alarm can ring today and its time has come.
    pub fn slot_today(&self, now: LocalDateTime) -> (r: Option<Slot>)
        requires
            now.wf(),
        ensures
            r == self@.spec_slot_today(now),
    {
        if self.is_enabled && self.has_day(weekday_of(now.date)) && self.time.at_or_before(
            &now.time,
        ) {
            Some(Slot { date: now.date, time: self.time })
        } else {
            None
        }
    }

    /// Whether the alarm rings on the given day of the week.
    fn has_day(&self, day: Weekday) -> (r: bool)
        ensures
            r == self@.rings_on_weekday(day.index()),
    {
        let mut i: usize = 0;
        while i < self.days_of_week.len()
            invariant
                i <= self.days_of_week.len(),
                forall|j: int| 0 <= j < i ==> (#[trigger] self@.days_of_week[j]).index()
                    != day.index(),
            decreases self.days_of_week.len() - i,
        {
            if self.days_of_week[i].monday_index() == day.monday_index() {
                assert(self@.days_of_week[i as int].index() == day.index());
                return true;
            }
            i = i + 1;
        }
        false
    }

    /// When the alarm rings next after `now`, given the offset of local time at its time on
    /// each of the eight days from today on.
    pub fn next_wakeup_with(&self, now: LocalDateTime, offsets: &Vec<Option<i32>>) -> (r: Option<
        LocalDateTime,
    >)
        requires
            self@.wf(),
            now.wf(),
            self@.are_offsets(now, offsets@),
        ensures
            self@.is_next_wakeup(now, offsets@, r),
            r matches Some(moment) ==> moment.wf(),
    {
        if !self.is_enabled || self.days_of_week.len() == 0 {
            return None;
        }
        let mut date: i32 = now.date;
        let mut day: usize = 0;
        while day < SEARCH_DAYS
            invariant
                day <= SEARCH_DAYS,
                self@.wf(),
                self@.can_ring(),
                now.wf(),
                self@.are_offsets(now, offsets@),
                date == search_date(now, day as int),
                forall|earlier: int|
                    0 <= earlier < day ==> !#[trigger] self@.is_due(now, offsets@, earlier),
            decreases SEARCH_DAYS - day,
        {
            if self.has_day(weekday_of(date)) {
                if let Some(offset) = offsets[day] {
                    let candidate = LocalDateTime { date, time: self.time, offset };
                    assert(candidate == self@.candidate(now, offsets@, day as int));
                    if candidate.second_after_exceeds(&now) {
                        assert(self@.is_first_due(now, offsets@, day as int));
                        return Some(candidate.latest(now));
                    }
                }
            }
            date = next_date(date);
            day = day + 1;
        }
        None
    }

    /// The local dates and times that the time zone is to be asked about in a search from `now`:
    /// the alarm's time on each day on which it rings.
    pub fn slots_to_look_up(&self, now: LocalDateTime) -> (r: Vec<Option<(i32, NaiveTime)>>)
        requires
            self@.wf(),
            now.wf(),
        ensures
            r@.len() == SEARCH_DAYS,
            forall|day: int|
                0 <= day < SEARCH_DAYS ==> (#[trigger] r@[day]) == if self@.rings_on(
                    search_date(now, day),
                ) {
                    Some((search_date(now, day) as i32, self@.time))
                } else {
                    None
                },
    {
        let mut slots: Vec<Option<(i32, NaiveTime)>> = Vec::new();
        let mut date: i32 = now.date;
        let mut day: usize = 0;
        while day < SEARCH_DAYS
            invariant
                day <= SEARCH_DAYS,
                day == slots@.len(),
                now.wf(),
                date == search_date(now, day as int),
                forall|i: int|
                    0 <= i < day ==> (#[trigger] slots@[i]) == if self@.rings_on(
                        search_date(now, i),
                    ) {
                        Some((search_date(now, i) as i32, self@.time))
                    } else {
                        None
                    },
            decreases SEARCH_DAYS - day,
        {
            if self.has_day(weekday_of(date)) {
                slots.push(Some((date, self.time)));
            } else {
                slots.push(None);
            }
            date = next_date(date);
            day = day + 1;
        }
        slots
    }

    /// The offsets of a search from `now` in which the slot `rung` is passed over.
    fn pass_over(&self, now: LocalDateTime, offsets: &Vec<Option<i32>>, rung: Option<Slot>) -> (r:
        Vec<Option<i32>>)
        requires
            now.wf(),
            offsets@.len() == SEARCH_DAYS,
        ensures
            r@ == self@.passed_over(now, offsets@, rung),
    {
        let mut kept: Vec<Option<i32>> = Vec::new();
        let mut date: i32 = now.date;
        let mut day: usize = 0;
        while day < SEARCH_DAYS
            invariant
                day <= SEARCH_DAYS,
                day == kept@.len(),
                now.wf(),
                offsets@.len() == SEARCH_DAYS,
                date == search_date(now, day as int),
                forall|i: int|
                    0 <= i < day ==> (#[trigger] kept@[i]) == self@.passed_over(
                        now,
                        offsets@,
                        rung,
                    )[i],
            decreases SEARCH_DAYS - day,
        {
            let is_rung: bool = match rung {
                Some(slot) => slot.date == date && slot.time == self.time,
                None => false,
            };
            assert(is_rung == self@.is_rung(now, rung, day as int));
            if is_rung {
                kept.push(None);
            } else {
                kept.push(offsets[day]);
            }
            date = next_date(date);
            day = day + 1;
        }
        assert(kept@ =~= self@.passed_over(now, offsets@, rung));
        kept
    }

    /// When the alarm rings next after `now`, given the offset of local time at its time on
    /// each of the eight days from today on, where the slot `rung` is passed over.
    pub fn next_wakeup_but_with(
        &self,
        now: LocalDateTime,
        offsets: &Vec<Option<i32>>,
        rung: Option<Slot>,
    ) -> (r: Option<LocalDateTime>)
        requires
            self@.wf(),
            now.wf(),
            self@.are_offsets(now, offsets@),
        ensures
            self@.is_next_wakeup(now, self@.passed_over(now, offsets@, rung), r),
            r matches Some(moment) ==> moment.wf(),
    {
        let kept = self.pass_over(now, offsets, rung);
        assert forall|day: int|
            0 <= day < SEARCH_DAYS && (#[trigger] kept@[day]) is Some implies self@.slot(
            search_date(now, day),
            kept@[day]->0 as int,
        ).wf() by {
            assert(kept@[day] == offsets@[day]);
        }
        self.next_wakeup_with(now, &kept)
    }

    /// When the alarm rings next after `now`, in the time zone that the machine is set to, where
    /// the slot `rung`, if there is one, is passed over.
    ///
    /// The time zone is asked about what [`Alarm::slots_to_look_up`] gives and nothing else, and
    /// the result is what [`Alarm::next_wakeup_but_with`] makes of the offsets that come back.
    pub fn next_wakeup_but(&self, now: LocalDateTime, rung: Option<Slot>) -> (r: Option<
        LocalDateTime,
    >)
        requires
            self@.wf(),
            now.wf(),
        ensures
            self@.may_wake_but(now, rung, r),
            !self@.can_ring() ==> r is None,
            r matches Some(moment) ==> moment.wf(),
    {
        if !self.is_enabled || self.days_of_week.len() == 0 {
            return None;
        }
        let slots = self.slots_to_look_up(now);
        let offsets = local_offsets(&slots);
        proof {
            assert forall|day: int|
                0 <= day < SEARCH_DAYS && self@.rings_on(
                    search_date(now, day),
                ) implies zone_answered(
                search_date(now, day),
                self@.time,
                #[trigger] offsets@[day],
            ) by {
                assert(slots@[day] is Some);
            }
            assert(self@.are_answers(now, offsets@));
        }
        self.next_wakeup_but_with(now, &offsets, rung)
    }

    /// When the alarm rings next after `now`, in the time zone that the machine is set to.
    ///
    /// The time zone is asked about what [`Alarm::slots_to_look_up`] gives and nothing else, and
    /// the result is what [`Alarm::next_wakeup_with`] makes of the offsets that come back.
    pub fn next_wakeup_from(&self, now: LocalDateTime) -> (r: Option<LocalDateTime>)
        requires
            self@.wf(),
            now.wf(),
        ensures
            self@.may_wake_at(now, r),
            !self@.can_ring() ==> r is None,
            r matches Some(moment) ==> moment.wf(),
    {
        let r = self.next_wakeup_but(now, None);
        proof {
            if self@.can_ring() {
                let offsets = choose|offsets: Seq<Option<i32>>| #[trigger]
                    self@.are_answers(now, offsets) && self@.is_next_wakeup(
                        now,
                        self@.passed_over(now, offsets, None),
                        r,
                    );
                assert(self@.passed_over(now, offsets, None) =~= offsets);
            }
        }
        r
    }
}

} // verus!
