//! What holds of the functions that ask the machine: the time zone, the clocks and the source of
//! chance.

use crate::alarm::{search_date, Alarm, AlarmView, Slot};
use crate::calendar::{LocalDateTime, Weekday, MAX_DATE, MIN_DATE};
use crate::laws::what_is_found_is_pending;
use crate::machine::{
    local_clock_showed, monotonic_clock_showed, was_drawn, zone_answered, zone_showed,
};
use crate::manager::{
    are_findings, effect_of, found_rings, is_begun, is_command_handled, is_command_result,
    is_command_step, is_deadline, is_deadline_for, is_event_step, is_event_step_at, is_filled,
    is_full_search, is_marked, is_rescheduled, is_restored, is_restored_now, is_searched, may_find,
    rung_slot, AlarmCommand, CommandOutcome, Effect, Event, ManagerView, Search,
};
use crate::mute::{MonotonicClock, MuteStatus, MAX_SPAN_NANOS};
use crate::request::{command_of, is_handled_as, AlarmRequest, RequestAction};
use crate::schedule::ScheduledAlarm;
use crate::store::PersistedView;
use vstd::prelude::*;

verus! {

/// Nanoseconds from the start of day 0 to the given time of day on a date, in UTC, where local
/// time is `ahead` seconds ahead of it.
pub open spec fn utc_nanos(date: int, seconds: int, nanos: int, ahead: int) -> int {
    (date * 86_400 + seconds - ahead) * 1_000_000_000 + nanos
}

/// Nanoseconds from the start of day 0 to the moment, in UTC.
pub open spec fn moment_nanos(moment: LocalDateTime) -> int {
    utc_nanos(
        moment.date as int,
        moment.time.seconds as int,
        moment.time.nanos as int,
        moment.offset as int,
    )
}

/// Nanoseconds from the start of day 0 to the alarm's time on a date, in UTC, where local time is
/// `ahead` seconds ahead of it.
pub open spec fn slot_nanos(alarm: AlarmView, date: int, ahead: int) -> int {
    utc_nanos(date, alarm.time.seconds as int, alarm.time.nanos as int, ahead)
}

/// The time zone answered about the alarm's time on the date, and by that answer there was no
/// ringing on that date any more: the time does not occur exactly once, or had passed by a
/// second or more.
pub open spec fn is_passed_by(
    alarm: AlarmView,
    now: LocalDateTime,
    date: int,
    answer: Option<i32>,
) -> bool {
    &&& zone_answered(date, alarm.time, answer)
    &&& answer matches Some(ahead) ==> slot_nanos(alarm, date, ahead as int) + 1_000_000_000
        <= moment_nanos(now)
}

/// The next ring is not after a day of the alarm in the coming week, unless the time zone
/// answered that the alarm's time does not occur exactly once on that day, or it had passed by a
/// second or more. In particular, an alarm that can ring has no next ring only where that is so
/// of each of its days.
pub proof fn no_day_is_passed_by_without_an_answer(
    alarm: AlarmView,
    now: LocalDateTime,
    rung: Option<Slot>,
    wakeup: Option<LocalDateTime>,
    date: int,
    i: int,
)
    requires
        alarm.wf(),
        now.wf(),
        alarm.time.nanos < 1_000_000_000,
        now.time.nanos < 1_000_000_000,
        alarm.may_wake_but(now, rung, wakeup),
        alarm.is_enabled,
        0 <= i < alarm.days_of_week.len(),
        alarm.days_of_week[i].index() == (date - 1) % 7,
        now.date <= date <= now.date + 7,
        date <= MAX_DATE,
        rung != Some(Slot { date: date as i32, time: alarm.time }),
        wakeup matches Some(moment) ==> date < moment.date,
    ensures
        exists|answer: Option<i32>| #[trigger] is_passed_by(alarm, now, date, answer),
{
    let offsets = choose|offsets: Seq<Option<i32>>| #[trigger]
        alarm.are_answers(now, offsets) && alarm.is_next_wakeup(
            now,
            alarm.passed_over(now, offsets, rung),
            wakeup,
        );
    let kept = alarm.passed_over(now, offsets, rung);
    let day = date - now.date;
    assert(search_date(now, day) == date);
    assert(alarm.rings_on(date));
    assert(zone_answered(date, alarm.time, offsets[day]));
    assert(!alarm.is_rung(now, rung, day));
    assert(kept[day] == offsets[day]);
    assert(!alarm.is_due(now, kept, day)) by {
        if let Some(moment) = wakeup {
            let first = choose|first: int| #[trigger]
                alarm.is_first_due(now, kept, first) && moment == alarm.candidate(
                    now,
                    kept,
                    first,
                ).spec_latest(now);
            assert(day < first);
        }
    }
    if let Some(ahead) = offsets[day] {
        let slot = alarm.candidate(now, offsets, day);
        assert(slot.wf());
        assert(slot == alarm.candidate(now, kept, day));
        assert(!slot.spec_second_after_exceeds(now));
    }
    assert(is_passed_by(alarm, now, date, offsets[day]));
}

/// The same of an alarm of which no slot is passed over.
pub proof fn an_alarm_rings_on_the_first_day_that_the_zone_allows(
    alarm: AlarmView,
    now: LocalDateTime,
    wakeup: Option<LocalDateTime>,
    date: int,
    i: int,
)
    requires
        alarm.wf(),
        now.wf(),
        alarm.time.nanos < 1_000_000_000,
        now.time.nanos < 1_000_000_000,
        alarm.may_wake_at(now, wakeup),
        alarm.is_enabled,
        0 <= i < alarm.days_of_week.len(),
        alarm.days_of_week[i].index() == (date - 1) % 7,
        now.date <= date <= now.date + 7,
        date <= MAX_DATE,
        wakeup matches Some(moment) ==> date < moment.date,
    ensures
        exists|answer: Option<i32>| #[trigger] is_passed_by(alarm, now, date, answer),
{
    let offsets = choose|offsets: Seq<Option<i32>>| #[trigger]
        alarm.are_answers(now, offsets) && alarm.is_next_wakeup(now, offsets, wakeup);
    assert(alarm.passed_over(now, offsets, None) =~= offsets);
    assert(alarm.may_wake_but(now, None, wakeup));
    no_day_is_passed_by_without_an_answer(alarm, now, None, wakeup, date, i);
}

/// An alarm rings at its time on one of its days by what the time zone answered about that day,
/// or at once where that time has passed by less than a second. It is enabled, and the slot that
/// is to be passed over is not the one.
pub proof fn an_alarm_rings_at_its_time_by_the_zone(
    alarm: AlarmView,
    now: LocalDateTime,
    rung: Option<Slot>,
    wakeup: LocalDateTime,
) -> (place: (int, int, i32))
    requires
        alarm.wf(),
        now.wf(),
        alarm.time.nanos < 1_000_000_000,
        now.time.nanos < 1_000_000_000,
        alarm.may_wake_but(now, rung, Some(wakeup)),
    ensures
        alarm.is_enabled,
        now.date <= place.0 <= now.date + 7,
        0 <= place.1 < alarm.days_of_week.len(),
        alarm.days_of_week[place.1].index() == (place.0 - 1) % 7,
        zone_answered(place.0, alarm.time, Some(place.2)),
        rung != Some(Slot { date: place.0 as i32, time: alarm.time }),
        slot_nanos(alarm, place.0, place.2 as int) + 1_000_000_000 > moment_nanos(now),
        slot_nanos(alarm, place.0, place.2 as int) > moment_nanos(now) ==> wakeup == (
        LocalDateTime { date: place.0 as i32, time: alarm.time, offset: place.2 }),
        slot_nanos(alarm, place.0, place.2 as int) <= moment_nanos(now) ==> wakeup == now,
{
    let offsets = choose|offsets: Seq<Option<i32>>| #[trigger]
        alarm.are_answers(now, offsets) && alarm.is_next_wakeup(
            now,
            alarm.passed_over(now, offsets, rung),
            Some(wakeup),
        );
    let kept = alarm.passed_over(now, offsets, rung);
    let day = choose|day: int| #[trigger]
        alarm.is_first_due(now, kept, day) && wakeup == alarm.candidate(
            now,
            kept,
            day,
        ).spec_latest(now);
    let date = search_date(now, day);
    assert(alarm.is_due(now, kept, day));
    assert(kept[day] is Some);
    assert(kept[day] == offsets[day]);
    let slot = alarm.candidate(now, kept, day);
    assert(slot.wf());
    let i = choose|i: int|
        0 <= i < alarm.days_of_week.len() && (#[trigger] alarm.days_of_week[i]).index() == (date
            - 1) % 7;
    (date, i, offsets[day]->0)
}

/// A deadline is the present reading of the manager's own clock plus the time that is left until
/// the moment at the present time, or that reading itself where the moment has passed. So it
/// never lies before the present reading.
pub proof fn a_deadline_lies_the_time_left_after_the_present_reading(
    clock: MonotonicClock,
    wakeup: LocalDateTime,
    deadline: u128,
)
    requires
        wakeup.wf(),
        wakeup.time.nanos < 1_000_000_000,
        is_deadline_for(clock, wakeup, deadline),
    ensures
        exists|now: LocalDateTime, reading: u128| #[trigger]
            is_time_left_after(clock, wakeup, now, reading, deadline),
{
    let (now, reading) = choose|now: LocalDateTime, reading: u128|
        now.wf() && now.time.nanos < 1_000_000_000 && reading <= MAX_SPAN_NANOS
            && local_clock_showed(now) && monotonic_clock_showed(clock.start, reading)
            && #[trigger] is_deadline(wakeup, now, reading, deadline);
    assert(is_time_left_after(clock, wakeup, now, reading, deadline));
}

/// The local clock showed `now`, the monotonic clock read `reading`, and the deadline lies the
/// time that is left until `wakeup` after that, or is that reading where none is left.
pub open spec fn is_time_left_after(
    clock: MonotonicClock,
    wakeup: LocalDateTime,
    now: LocalDateTime,
    reading: u128,
    deadline: u128,
) -> bool {
    &&& local_clock_showed(now)
    &&& monotonic_clock_showed(clock.start, reading)
    &&& moment_nanos(wakeup) >= moment_nanos(now) ==> deadline - reading == moment_nanos(wakeup)
        - moment_nanos(now)
    &&& moment_nanos(wakeup) <= moment_nanos(now) ==> deadline == reading
    &&& reading <= deadline
}

/// Of two moments, at the same time and reading, the later one has the later deadline, by just
/// as much where both are yet to come.
pub proof fn deadlines_are_as_far_apart_as_the_moments(
    sooner: LocalDateTime,
    later: LocalDateTime,
    now: LocalDateTime,
    reading: u128,
    first: u128,
    second: u128,
)
    requires
        sooner.wf(),
        later.wf(),
        now.wf(),
        sooner.time.nanos < 1_000_000_000,
        later.time.nanos < 1_000_000_000,
        now.time.nanos < 1_000_000_000,
        moment_nanos(sooner) <= moment_nanos(later),
        is_deadline(sooner, now, reading, first),
        is_deadline(later, now, reading, second),
    ensures
        first <= second,
        moment_nanos(now) <= moment_nanos(sooner) ==> second - first == moment_nanos(later)
            - moment_nanos(sooner),
{
}

/// The alarm is pending for today by what the time zone answered about its time today, if by
/// that answer its time today is yet to come.
pub open spec fn is_pending_for_today(
    manager: ManagerView,
    id: u128,
    now: LocalDateTime,
    answer: Option<i32>,
) -> bool {
    let alarm = manager.alarms[id];
    &&& zone_answered(now.date as int, alarm.time, answer)
    &&& answer matches Some(ahead) ==> (slot_nanos(alarm, now.date as int, ahead as int)
        > moment_nanos(now) ==> manager.queue.contains(
        ScheduledAlarm {
            alarm_id: id,
            next_wakeup: LocalDateTime { date: now.date, time: alarm.time, offset: ahead },
        },
    ))
}

/// An alarm that was searched for from `now` on is pending for today if it rings today and its
/// time is yet to come, unless that is the slot which is passed over.
proof fn lemma_searched_for_today(
    start: ManagerView,
    searches: Seq<Search>,
    k: int,
    after: ManagerView,
)
    requires
        is_rescheduled(start, searches, after),
        0 <= k < searches.len(),
        searches[k].base.wf(),
        searches[k].base.time.nanos < 1_000_000_000,
        start.alarms.contains_key(searches[k].alarm_id),
        start.alarms[searches[k].alarm_id].wf(),
        start.alarms[searches[k].alarm_id].is_enabled,
        start.alarms[searches[k].alarm_id].time.nanos < 1_000_000_000,
        is_not_over(start, searches[k].alarm_id, searches[k].base),
    ensures
        rings_today_if_it_should(after, searches[k].alarm_id, searches[k].base),
{
    let id = searches[k].alarm_id;
    let now = searches[k].base;
    let alarm = start.alarms[id];
    let rung = rung_slot(start.rung, id);
    let wakeups = choose|wakeups: Seq<Option<LocalDateTime>>| #[trigger]
        are_findings(start, searches, wakeups) && is_filled(
            start.queue,
            found_rings(searches, wakeups),
            after.queue,
        );
    assert(may_find(start, searches[k], wakeups[k]));
    assert forall|i: int|
        0 <= i < alarm.days_of_week.len() && (#[trigger] alarm.days_of_week[i]).index() == (now.date
            - 1) % 7 implies exists|answer: Option<i32>| #[trigger]
        is_pending_for_today(after, id, now, answer) by {
        let offsets = choose|offsets: Seq<Option<i32>>| #[trigger]
            alarm.are_answers(now, offsets) && alarm.is_next_wakeup(
                now,
                alarm.passed_over(now, offsets, rung),
                wakeups[k],
            );
        let kept = alarm.passed_over(now, offsets, rung);
        assert(search_date(now, 0) == now.date);
        assert(alarm.rings_on(now.date as int));
        assert(zone_answered(now.date as int, alarm.time, offsets[0]));
        assert(kept[0] == offsets[0]);
        if let Some(ahead) = offsets[0] {
            let slot = alarm.candidate(now, offsets, 0);
            assert(slot.wf());
            assert(slot == alarm.candidate(now, kept, 0));
            if slot_nanos(alarm, now.date as int, ahead as int) > moment_nanos(now) {
                assert(slot.spec_after(now));
                assert(alarm.is_due(now, kept, 0));
                if let Some(moment) = wakeups[k] {
                    let day = choose|day: int| #[trigger]
                        alarm.is_first_due(now, kept, day) && moment == alarm.candidate(
                            now,
                            kept,
                            day,
                        ).spec_latest(now);
                    assert(day == 0);
                }
                assert(wakeups[k] == Some(slot));
                what_is_found_is_pending(start.queue, searches, wakeups, after.queue, k);
            }
        }
        assert(is_pending_for_today(after, id, now, offsets[0]));
    }
}

/// The alarm has not rung, nor been stopped, for its slot on the date of `now`.
pub open spec fn is_not_over(manager: ManagerView, id: u128, now: LocalDateTime) -> bool {
    rung_slot(manager.rung, id) != Some(Slot { date: now.date, time: manager.alarms[id].time })
}

/// After a restart, an alarm that rings today and whose time is yet to come is pending for
/// today, today being the date that the local clock showed.
pub proof fn the_ring_of_today_survives_a_restart(
    path: Seq<u8>,
    state: PersistedView,
    manager: ManagerView,
    id: u128,
)
    requires
        manager.wf(),
        is_restored_now(path, state, manager),
        manager.alarms.contains_key(id),
        manager.alarms[id].is_enabled,
        manager.alarms[id].time.nanos < 1_000_000_000,
    ensures
        exists|now: LocalDateTime| #[trigger]
            local_clock_showed(now) && rings_today_if_it_should(manager, id, now),
{
    let now = choose|now: LocalDateTime|
        now.wf() && now.time.nanos < 1_000_000_000 && local_clock_showed(now)
            && #[trigger] is_restored(path, state, now, manager);
    let start = ManagerView { queue: Seq::empty(), ..manager };
    let searches = choose|searches: Seq<Search>| #[trigger]
        is_full_search(manager.alarms, now, Set::empty(), now, searches) && is_rescheduled(
            start,
            searches,
            manager,
        );
    assert(is_searched(searches, id));
    let k = choose|k: int| 0 <= k < searches.len() && (#[trigger] searches[k]).alarm_id == id;
    lemma_searched_for_today(start, searches, k, manager);
}

/// An alarm that is added or edited and rings today, at a time that is yet to come, is pending
/// for today. So is each other alarm after an edit or a deletion, and each that did not ring
/// after a stop.
pub proof fn the_ring_of_today_survives_a_command(
    before: ManagerView,
    cmd: AlarmCommand,
    now: LocalDateTime,
    reading: u128,
    after: ManagerView,
    id: u128,
)
    requires
        after.wf(),
        now.wf(),
        now.time.nanos < 1_000_000_000,
        is_command_step(before, cmd, now, reading, after),
        match cmd {
            AlarmCommand::Add(alarm) => alarm.id == id,
            AlarmCommand::Edit(_) => true,
            AlarmCommand::Delete(_) => true,
            AlarmCommand::StopAll => !before.ringing.contains(id),
            _ => false,
        },
        after.alarms.contains_key(id),
        after.alarms[id].is_enabled,
        after.alarms[id].time.nanos < 1_000_000_000,
        is_not_over(after, id, now),
    ensures
        rings_today_if_it_should(after, id, now),
{
    let (begun, searches) = choose|begun: ManagerView, searches: Seq<Search>| #[trigger]
        is_begun(before, cmd, now, reading, begun, searches) && is_rescheduled(
            begun,
            searches,
            after,
        );
    assert(is_searched(searches, id)) by {
        if cmd is Add {
            assert(searches[0].alarm_id == id);
        }
    }
    let k = choose|k: int| 0 <= k < searches.len() && (#[trigger] searches[k]).alarm_id == id;
    assert(searches[k].base == now);
    lemma_searched_for_today(begun, searches, k, after);
}

/// The day of the week that the date falls on is among the days of the alarm. Day 1 is a Monday.
pub open spec fn falls_on_a_day_of(alarm: AlarmView, date: int) -> bool {
    let day: Weekday = if date % 7 == 1 {
        Weekday::Mon
    } else if date % 7 == 2 {
        Weekday::Tue
    } else if date % 7 == 3 {
        Weekday::Wed
    } else if date % 7 == 4 {
        Weekday::Thu
    } else if date % 7 == 5 {
        Weekday::Fri
    } else if date % 7 == 6 {
        Weekday::Sat
    } else {
        Weekday::Sun
    };
    alarm.days_of_week.contains(day)
}

/// The alarm is ringing at `now` when all alarms are stopped, and its time today has come: it is
/// switched on, rings on this day of the week, and its time of day is not later than that of
/// `now`.
pub open spec fn is_stopped_today(manager: ManagerView, now: LocalDateTime, id: u128) -> bool {
    let alarm = manager.alarms[id];
    &&& manager.ringing.contains(id)
    &&& alarm.is_enabled
    &&& falls_on_a_day_of(alarm, now.date as int)
    &&& alarm.time.seconds * 1_000_000_000 + alarm.time.nanos <= now.time.seconds * 1_000_000_000
        + now.time.nanos
}

/// A stop is remembered for just those ringing alarms whose time today has come, and for today.
/// What was remembered of the others stays as it is. In particular, a ringing alarm whose time
/// today is yet to come is not kept from ringing today.
pub proof fn a_stop_is_remembered_where_the_time_has_come(
    before: ManagerView,
    now: LocalDateTime,
    reading: u128,
    after: ManagerView,
    id: u128,
)
    requires
        before.wf(),
        now.wf(),
        now.time.nanos < 1_000_000_000,
        before.alarms.contains_key(id),
        before.alarms[id].time.nanos < 1_000_000_000,
        is_command_step(before, AlarmCommand::StopAll, now, reading, after),
    ensures
        is_stopped_today(before, now, id) ==> after.rung.contains_key(id) && after.rung[id] == (
        Slot { date: now.date, time: before.alarms[id].time }),
        !is_stopped_today(before, now, id) ==> (after.rung.contains_key(id)
            <==> before.rung.contains_key(id)) && (before.rung.contains_key(id)
            ==> after.rung[id] == before.rung[id]),
{
    let alarm = before.alarms[id];
    let (begun, searches) = choose|begun: ManagerView, searches: Seq<Search>| #[trigger]
        is_begun(before, AlarmCommand::StopAll, now, reading, begun, searches) && is_rescheduled(
            begun,
            searches,
            after,
        );
    assert(after.rung == begun.rung);
    assert(is_stopped_today(before, now, id) <==> is_marked(
        before.alarms,
        before.ringing,
        now,
        id,
    )) by {
        lemma_rings_on_day(alarm, now.date as int);
    }
}

/// An alarm rings on a date if the day of the week that the date falls on is among its days.
proof fn lemma_rings_on_day(alarm: AlarmView, date: int)
    ensures
        alarm.rings_on(date) <==> falls_on_a_day_of(alarm, date),
{
    let days = alarm.days_of_week;
    if alarm.rings_on(date) {
        let i = choose|i: int|
            0 <= i < days.len() && (#[trigger] days[i]).index() == (date - 1) % 7;
        assert(days.contains(days[i]));
    }
    assert forall|day: Weekday| #[trigger] days.contains(day) && day.index() == (date - 1)
        % 7 implies alarm.rings_on(date) by {
        let i = choose|i: int| 0 <= i < days.len() && days[i] == day;
        assert(days[i].index() == (date - 1) % 7);
    }
}

/// An alarm that was ringing when all alarms were stopped, and that rings today, is pending for
/// today if its time is yet to come two seconds later, unless it rang or was stopped for today.
pub proof fn the_ring_of_today_survives_a_stop(
    before: ManagerView,
    now: LocalDateTime,
    reading: u128,
    after: ManagerView,
    id: u128,
)
    requires
        after.wf(),
        now.wf(),
        is_command_step(before, AlarmCommand::StopAll, now, reading, after),
        before.ringing.contains(id),
        after.alarms.contains_key(id),
        after.alarms[id].is_enabled,
        after.alarms[id].time.nanos < 1_000_000_000,
    ensures
        exists|later: LocalDateTime| #[trigger]
            zone_showed(later) && later.instant() == now.instant() + 2 && (is_not_over(
                after,
                id,
                later,
            ) ==> rings_today_if_it_should(after, id, later)),
{
    let (begun, searches) = choose|begun: ManagerView, searches: Seq<Search>| #[trigger]
        is_begun(before, AlarmCommand::StopAll, now, reading, begun, searches) && is_rescheduled(
            begun,
            searches,
            after,
        );
    let later = choose|later: LocalDateTime| #[trigger]
        now.is_followed_by(2, later) && later.wf() && zone_showed(later) && is_full_search(
            before.alarms,
            now,
            before.ringing,
            later,
            searches,
        );
    assert(before.alarms.contains_key(id));
    assert(is_searched(searches, id));
    let k = choose|k: int| 0 <= k < searches.len() && (#[trigger] searches[k]).alarm_id == id;
    assert(searches[k].base == later);
    if is_not_over(after, id, later) {
        lemma_searched_for_today(begun, searches, k, after);
    }
    assert(zone_showed(later));
}

/// Whatever the manager waited for is acted on. When the moment comes, the alarm of the soonest
/// pending ring rings, on every date but those at the ends of the calendar, and that ring is no
/// longer pending. A command is taken in, and a manager that nobody can command any more comes
/// to its end. Nothing happens where nothing is pending.
pub proof fn every_event_is_acted_on(
    before: ManagerView,
    event: Event,
    after: ManagerView,
    effect: Effect,
)
    requires
        before.wf(),
        is_event_step(before, event, after, effect),
    ensures
        event is Deadline && before.queue.len() == 0 ==> effect is Nothing && after == before,
        event is Deadline && before.queue.len() > 0 && MIN_DATE + 2
            < before.queue[0].next_wakeup.date < MAX_DATE - 2 ==> (effect matches Effect::Fired(
            outcome,
        ) && outcome.ring matches Some(alarm) && alarm.id == before.queue[0].alarm_id
            && after.ringing.contains(alarm.id) && after.alarms == before.alarms),
        event matches Event::Command(AlarmCommand::Add(alarm)) ==> effect is Handled
            && after.alarms == before.alarms.insert(alarm.id, alarm@),
        event matches Event::Command(AlarmCommand::Edit(alarm)) ==> effect is Handled
            && after.alarms == before.alarms.insert(alarm.id, alarm@),
        event matches Event::Command(AlarmCommand::Delete(id)) ==> effect is Handled
            && after.alarms == before.alarms.remove(id),
        event matches Event::Command(AlarmCommand::List) ==> (effect matches Effect::Handled(
            outcome,
        ) && outcome.reply is Alarms && after == before),
        event matches Event::Command(AlarmCommand::RingingStatus) ==> (
        effect matches Effect::Handled(outcome) && outcome.reply is Ringing && after == before),
        event matches Event::Command(AlarmCommand::StopAll) ==> (effect is Handled
            ==> after.ringing == Set::<u128>::empty()) && (effect !is Handled
            ==> effect is EndOfCalendar && after == before),
        event is Closed ==> effect is Stop && after == before,
{
    let (now, reading) = choose|now: LocalDateTime, reading: u128|
        now.wf() && reading <= MAX_SPAN_NANOS && local_clock_showed(now) && monotonic_clock_showed(
            before.clock.start,
            reading,
        ) && #[trigger] is_event_step_at(before, event, now, reading, after, effect);
    if before.queue.len() > 0 {
        assert(before.queue[0].next_wakeup.wf());
        assert(before.alarms.contains_key(before.queue[0].alarm_id));
    }
    if let Event::Command(cmd) = event {
        let result = choose|result: Option<CommandOutcome>| #[trigger]
            is_command_result(before, cmd, now, reading, after, result) && effect == effect_of(
                result,
            );
        assert(cmd !is StopAll ==> result is Some);
    }
}

/// Where the alarm rings on the day of the week that `now` falls on, it is pending for today if
/// its time is yet to come.
pub open spec fn rings_today_if_it_should(
    manager: ManagerView,
    id: u128,
    now: LocalDateTime,
) -> bool {
    forall|i: int|
        0 <= i < manager.alarms[id].days_of_week.len() && (
        #[trigger] manager.alarms[id].days_of_week[i]).index() == (now.date - 1) % 7
            ==> exists|answer: Option<i32>| #[trigger]
            is_pending_for_today(manager, id, now, answer)
}

/// A pause that is taken in now mutes the output until the span has passed after the reading
/// that the manager's own clock showed: from then on for the whole span, however long the clock
/// had been running, and no longer. Nothing else changes.
pub proof fn a_pause_mutes_for_its_span_from_the_present_reading(
    before: ManagerView,
    span: u128,
    after: ManagerView,
    effect: Effect,
)
    requires
        before.wf(),
        span <= MAX_SPAN_NANOS,
        is_event_step(before, Event::Command(AlarmCommand::Pause(span)), after, effect),
    ensures
        effect is Handled,
        exists|reading: u128| #[trigger] is_muted_from(before, after, reading, span),
{
    let (now, reading) = choose|now: LocalDateTime, reading: u128|
        now.wf() && reading <= MAX_SPAN_NANOS && local_clock_showed(now) && monotonic_clock_showed(
            before.clock.start,
            reading,
        ) && #[trigger] is_event_step_at(
            before,
            Event::Command(AlarmCommand::Pause(span)),
            now,
            reading,
            after,
            effect,
        );
    assert(is_muted_from(before, after, reading, span));
}

/// The same of a pause that is handed to the manager as a command.
pub proof fn a_pause_command_mutes_for_its_span_from_the_present_reading(
    before: ManagerView,
    span: u128,
    after: ManagerView,
    result: Option<CommandOutcome>,
)
    requires
        before.wf(),
        span <= MAX_SPAN_NANOS,
        is_command_handled(before, AlarmCommand::Pause(span), after, result),
    ensures
        result is Some,
        exists|reading: u128| #[trigger] is_muted_from(before, after, reading, span),
{
    let (now, reading) = choose|now: LocalDateTime, reading: u128|
        now.wf() && reading <= MAX_SPAN_NANOS && local_clock_showed(now) && monotonic_clock_showed(
            before.clock.start,
            reading,
        ) && #[trigger] is_command_result(
            before,
            AlarmCommand::Pause(span),
            now,
            reading,
            after,
            result,
        );
    assert(is_muted_from(before, after, reading, span));
}

/// The manager's own clock showed `reading`, and the output is muted from then on until the span
/// has passed. A mute that goes by the same clock is on at every reading up to then, and off
/// from then on.
pub open spec fn is_muted_from(
    before: ManagerView,
    after: ManagerView,
    reading: u128,
    span: u128,
) -> bool {
    &&& monotonic_clock_showed(before.clock.start, reading)
    &&& after.clock == before.clock
    &&& after.muted_until is Some
    &&& after.muted_until->0 - span == reading
    &&& forall|mute: MuteStatus, passed: u128|
        #![trigger mute.mutes_at((reading + passed) as u128)]
        mute.spec_until() == after.muted_until && passed <= MAX_SPAN_NANOS && reading
            <= MAX_SPAN_NANOS ==> (mute.mutes_at((reading + passed) as u128) <==> passed < span)
    &&& after.alarms == before.alarms
    &&& after.queue == before.queue
    &&& after.ringing == before.ringing
}

/// A stop is taken in, and leaves nothing that rings, on every date but those at the ends of the
/// calendar.
pub proof fn a_stop_stops_on_every_ordinary_date(
    before: ManagerView,
    now: LocalDateTime,
    reading: u128,
    after: ManagerView,
    result: Option<CommandOutcome>,
)
    requires
        now.wf(),
        MIN_DATE + 2 < now.date < MAX_DATE - 2,
        is_command_result(before, AlarmCommand::StopAll, now, reading, after, result),
    ensures
        result is Some,
        after.ringing == Set::<u128>::empty(),
        after.alarms == before.alarms,
        forall|id: u128| #[trigger]
            before.ringing.contains(id) ==> result->0.stopped@.contains(id),
{
    if let Some(outcome) = result {
        assert forall|id: u128| #[trigger] before.ringing.contains(
            id,
        ) implies outcome.stopped@.contains(id) by {
            assert(outcome.stopped@.to_set().contains(id));
        }
    }
}

/// A request to delete, to pause or to stop does just that; those that ask are answered on their
/// own topics.
pub proof fn each_request_does_what_it_says(
    request: AlarmRequest,
    action: RequestAction,
    cmd: AlarmCommand,
    before: ManagerView,
    now: LocalDateTime,
    reading: u128,
    after: ManagerView,
)
    requires
        is_handled_as(request, action),
        reading <= MAX_SPAN_NANOS,
        command_of(action) == Some(cmd) ==> is_command_step(before, cmd, now, reading, after),
    ensures
        command_of(action) == Some(cmd) ==> match request {
            AlarmRequest::Delete { id } => !after.alarms.contains_key(id),
            AlarmRequest::Pause { duration_ms } => after.muted_until is Some
                && after.muted_until->0 - reading == duration_ms * 1_000_000,
            AlarmRequest::Stop => after.ringing == Set::<u128>::empty() && after.alarms
                == before.alarms,
            AlarmRequest::List => after == before,
            AlarmRequest::RingingStatus => after == before,
            _ => true,
        },
        command_of(action) is None <==> request is Status,
        request is List ==> (action matches RequestAction::Ask(AlarmCommand::List, topic)
            && topic.spec_name() == "eager-alarm/pi/alarms"@),
        request is RingingStatus ==> (action matches RequestAction::Ask(
            AlarmCommand::RingingStatus,
            topic,
        ) && topic.spec_name() == "eager-alarm/pi/ringing_status"@),
        request is Status ==> (action matches RequestAction::Publish(status, topic) && status.online
            && topic.spec_name() == "eager-alarm/pi/status"@),
{
}

/// A request to add an alarm adds just that alarm, under an ID that was drawn for it.
pub proof fn an_added_alarm_gets_a_drawn_id(request: AlarmRequest, action: RequestAction)
    requires
        is_handled_as(request, action),
    ensures
        request matches AlarmRequest::Add { time, days_of_week, is_enabled, stop_method_id } ==> (
        action matches RequestAction::Tell(AlarmCommand::Add(alarm)) && was_drawn(alarm.id)
            && alarm.time == time && alarm.days_of_week == days_of_week && alarm.is_enabled
            == is_enabled && alarm.stop_method_id == stop_method_id),
{
}

/// Two requests to add an alarm, whatever they say, leave two more alarms than before, as they
/// were described, where the two draws differ from each other and from the IDs of the alarms
/// that were there. The other alarms stay as they are.
pub proof fn two_additions_leave_two_more_alarms(
    first: AlarmRequest,
    first_action: RequestAction,
    one: Alarm,
    second: AlarmRequest,
    second_action: RequestAction,
    other: Alarm,
    before: ManagerView,
    first_now: LocalDateTime,
    first_reading: u128,
    between: ManagerView,
    second_now: LocalDateTime,
    second_reading: u128,
    after: ManagerView,
)
    requires
        first is Add,
        second is Add,
        is_handled_as(first, first_action),
        is_handled_as(second, second_action),
        first_action == RequestAction::Tell(AlarmCommand::Add(one)),
        second_action == RequestAction::Tell(AlarmCommand::Add(other)),
        one.id != other.id,
        !before.alarms.contains_key(one.id),
        !before.alarms.contains_key(other.id),
        before.alarms.dom().finite(),
        is_command_step(before, AlarmCommand::Add(one), first_now, first_reading, between),
        is_command_step(between, AlarmCommand::Add(other), second_now, second_reading, after),
    ensures
        was_drawn(one.id),
        was_drawn(other.id),
        after.alarms.len() == before.alarms.len() + 2,
        after.alarms.contains_key(one.id),
        after.alarms[one.id].time == first->Add_time,
        after.alarms[one.id].days_of_week == first->Add_days_of_week@,
        after.alarms.contains_key(other.id),
        after.alarms[other.id].time == second->Add_time,
        after.alarms[other.id].days_of_week == second->Add_days_of_week@,
        forall|id: u128| #[trigger]
            before.alarms.contains_key(id) ==> after.alarms.contains_key(id) && after.alarms[id]
                == before.alarms[id],
{
    assert(between.alarms == before.alarms.insert(one.id, one@));
    assert(after.alarms == between.alarms.insert(other.id, other@));
    assert(between.alarms.dom() =~= before.alarms.dom().insert(one.id));
    assert(after.alarms.dom() =~= between.alarms.dom().insert(other.id));
}

} // verus!
