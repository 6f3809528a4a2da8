//! What holds of alarms and of their manager as a whole.

use crate::alarm::{search_date, Alarm, AlarmView, Slot, SEARCH_DAYS};
use crate::calendar::{weekday_index, LocalDateTime, MAX_DATE, SECONDS_PER_DAY};
use crate::machine::{zone_answered, zone_showed};
use crate::manager::{
    are_distinct_searches, are_findings, base_of, found_rings, has_ring, is_begun, is_by_time,
    is_command_outcome, is_command_step, is_filled, is_fire_begun, is_fire_outcome, is_fire_step,
    is_full_search, is_listed, is_listing, is_rescheduled, is_restored, is_ringing_status,
    is_searched, is_snapshot, may_find, resumed, resumed_ids, rung_slot, slot_of, AlarmCommand,
    CommandOutcome, CommandReply, FireOutcome, ManagerView, RingingStatusReply, Search,
};
use crate::mute::{MonotonicClock, MuteStatus, MAX_SPAN_NANOS};
use crate::request::{action_for, command_of, AlarmRequest};
use crate::schedule::{lemma_rings_of_others, rings_of_others, stale_count, ScheduledAlarm};
use crate::store::{
    alarm_views, alarms_by_id, is_default_alarms_file, is_first_entry, joined_path, loaded_view,
    save_plan, temporary_path, PersistedState, PersistedView, SaveStepView, StoreRead, COLON, SLASH,
};
use vstd::prelude::*;
use vstd::string::StringSliceAdditionalSpecFns;

verus! {

/// An alarm that is switched off, or has no day to ring on, never rings.
pub proof fn an_alarm_that_cannot_ring_never_wakes(
    alarm: AlarmView,
    now: LocalDateTime,
    wakeup: Option<LocalDateTime>,
)
    requires
        !alarm.can_ring(),
        alarm.may_wake_at(now, wakeup),
    ensures
        wakeup is None,
{
}

/// Given the offsets of local time, an alarm has one next ring.
pub proof fn the_next_wakeup_is_unique(
    alarm: AlarmView,
    now: LocalDateTime,
    offsets: Seq<Option<i32>>,
    one: Option<LocalDateTime>,
    other: Option<LocalDateTime>,
)
    requires
        alarm.is_next_wakeup(now, offsets, one),
        alarm.is_next_wakeup(now, offsets, other),
    ensures
        one == other,
{
    if let Some(first) = one {
        let day = choose|day: int| #[trigger]
            alarm.is_first_due(now, offsets, day) && first == alarm.candidate(
                now,
                offsets,
                day,
            ).spec_latest(now);
        if let Some(second) = other {
            let same = choose|same: int| #[trigger]
                alarm.is_first_due(now, offsets, same) && second == alarm.candidate(
                    now,
                    offsets,
                    same,
                ).spec_latest(now);
            assert(alarm.is_due(now, offsets, day));
            assert(alarm.is_due(now, offsets, same));
        } else {
            assert(alarm.is_due(now, offsets, day));
        }
    } else if let Some(second) = other {
        let same = choose|same: int| #[trigger]
            alarm.is_first_due(now, offsets, same) && second == alarm.candidate(
                now,
                offsets,
                same,
            ).spec_latest(now);
        assert(alarm.is_due(now, offsets, same));
    }
}

/// `slot` is the alarm's time on one of its days, and the ring at `wakeup` after `now` is the
/// one that belongs to it.
pub open spec fn is_slot_of(
    alarm: AlarmView,
    now: LocalDateTime,
    slot: LocalDateTime,
    wakeup: LocalDateTime,
) -> bool {
    &&& slot.wf()
    &&& slot.time == alarm.time
    &&& alarm.rings_on(slot.date as int)
    &&& slot.spec_second_after_exceeds(now)
    &&& wakeup == slot.spec_latest(now)
}

/// An alarm rings at its time on one of its days, within the eight days from today on. It never
/// rings in the past, and rings at once only where its time has passed by less than a second.
pub proof fn a_ring_belongs_to_a_slot(
    alarm: AlarmView,
    now: LocalDateTime,
    wakeup: LocalDateTime,
) -> (slot: LocalDateTime)
    requires
        now.wf(),
        alarm.wf(),
        alarm.may_wake_at(now, Some(wakeup)),
    ensures
        is_slot_of(alarm, now, slot, wakeup),
        now.date <= slot.date < now.date + SEARCH_DAYS,
        !now.spec_after(wakeup),
        slot.spec_after(now) ==> wakeup == slot,
        !slot.spec_after(now) ==> wakeup == now,
        zone_answered(slot.date as int, slot.time, Some(slot.offset)),
{
    let offsets = choose|offsets: Seq<Option<i32>>| #[trigger]
        alarm.are_answers(now, offsets) && alarm.is_next_wakeup(now, offsets, Some(wakeup));
    let day = choose|day: int| #[trigger]
        alarm.is_first_due(now, offsets, day) && wakeup == alarm.candidate(
            now,
            offsets,
            day,
        ).spec_latest(now);
    assert(offsets[day] is Some);
    alarm.candidate(now, offsets, day)
}

/// Where a slot is passed over, the ring that is found belongs to another slot.
pub proof fn a_ring_belongs_to_another_slot(
    alarm: AlarmView,
    now: LocalDateTime,
    rung: Option<Slot>,
    wakeup: LocalDateTime,
) -> (slot: LocalDateTime)
    requires
        now.wf(),
        alarm.wf(),
        alarm.may_wake_but(now, rung, Some(wakeup)),
    ensures
        is_slot_of(alarm, now, slot, wakeup),
        now.date <= slot.date < now.date + SEARCH_DAYS,
        !now.spec_after(wakeup),
        slot.spec_after(now) ==> wakeup == slot,
        !slot.spec_after(now) ==> wakeup == now,
        rung != Some(Slot { date: slot.date, time: slot.time }),
        zone_answered(slot.date as int, slot.time, Some(slot.offset)),
{
    let offsets = choose|offsets: Seq<Option<i32>>| #[trigger]
        alarm.are_answers(now, offsets) && alarm.is_next_wakeup(
            now,
            alarm.passed_over(now, offsets, rung),
            Some(wakeup),
        );
    let kept = alarm.passed_over(now, offsets, rung);
    let day = choose|day: int| #[trigger]
        alarm.is_first_due(now, kept, day) && wakeup == alarm.candidate(
            now,
            kept,
            day,
        ).spec_latest(now);
    assert(kept[day] is Some);
    assert(kept[day] == offsets[day]);
    assert(alarm.slot(search_date(now, day), offsets[day]->0 as int).wf());
    alarm.candidate(now, kept, day)
}

/// Passing a slot over changes nothing but that slot: where the next ring belongs to another
/// slot, it is the next ring all the same.
pub proof fn only_the_rung_slot_is_passed_over(
    alarm: AlarmView,
    now: LocalDateTime,
    offsets: Seq<Option<i32>>,
    rung: Option<Slot>,
    day: int,
    wakeup: LocalDateTime,
)
    requires
        alarm.can_ring(),
        alarm.are_offsets(now, offsets),
        alarm.is_first_due(now, offsets, day),
        wakeup == alarm.candidate(now, offsets, day).spec_latest(now),
        rung != Some(Slot { date: search_date(now, day) as i32, time: alarm.time }),
    ensures
        alarm.is_next_wakeup(now, offsets, Some(wakeup)),
        alarm.is_next_wakeup(now, alarm.passed_over(now, offsets, rung), Some(wakeup)),
{
    let kept = alarm.passed_over(now, offsets, rung);
    assert(kept[day] == offsets[day]);
    assert forall|earlier: int| 0 <= earlier < day implies !#[trigger] alarm.is_due(
        now,
        kept,
        earlier,
    ) by {
        assert(!alarm.is_due(now, offsets, earlier));
    }
    assert(alarm.is_first_due(now, kept, day));
}

/// The slot that a ring belongs to is the alarm's time on the date of the ring, where local
/// clocks do not lead back to an earlier date: that is the slot which is remembered when the
/// ring comes due.
pub proof fn the_slot_of_a_ring_is_on_its_date(
    alarm: AlarmView,
    now: LocalDateTime,
    slot: LocalDateTime,
    wakeup: LocalDateTime,
)
    requires
        is_slot_of(alarm, now, slot, wakeup),
        now.date <= slot.date,
        keeps_local_order(now, slot),
    ensures
        wakeup.date == slot.date,
        slot.time == alarm.time,
{
}

/// An alarm whose time today has passed by less than a second rings at once.
pub proof fn an_alarm_whose_time_has_just_passed_rings_at_once(
    alarm: AlarmView,
    now: LocalDateTime,
    offsets: Seq<Option<i32>>,
    wakeup: Option<LocalDateTime>,
)
    requires
        now.wf(),
        alarm.can_ring(),
        alarm.rings_on(now.date as int),
        offsets[0] is Some,
        !alarm.slot(now.date as int, offsets[0]->0 as int).spec_after(now),
        alarm.slot(now.date as int, offsets[0]->0 as int).spec_second_after_exceeds(now),
        alarm.is_next_wakeup(now, offsets, wakeup),
    ensures
        wakeup == Some(now),
{
    assert(search_date(now, 0) == now.date);
    assert(alarm.is_due(now, offsets, 0));
    if let Some(moment) = wakeup {
        let day = choose|day: int| #[trigger]
            alarm.is_first_due(now, offsets, day) && moment == alarm.candidate(
                now,
                offsets,
                day,
            ).spec_latest(now);
        assert(day == 0);
    }
}

/// Where local clocks show a later date at `slot` than at `now`, `slot` comes after `now`.
pub open spec fn keeps_local_order(now: LocalDateTime, slot: LocalDateTime) -> bool {
    slot.date > now.date ==> slot.spec_after(now)
}

/// In the week from `now` on, the alarm's time occurs exactly once on each of its days, local
/// clocks do not lead back to an earlier date, and the calendar does not end.
pub open spec fn is_ordinary_week(
    alarm: AlarmView,
    now: LocalDateTime,
    offsets: Seq<Option<i32>>,
) -> bool {
    &&& alarm.are_offsets(now, offsets)
    &&& now.date + 7 <= MAX_DATE
    &&& forall|day: int|
        0 <= day < SEARCH_DAYS && alarm.rings_on(search_date(now, day)) ==> (
        #[trigger] offsets[day]) is Some && keeps_local_order(
            now,
            alarm.candidate(now, offsets, day),
        )
}

/// Each day of the week comes up within the seven days after a date.
proof fn lemma_weekday_ahead(date: int, index: int) -> (ahead: int)
    requires
        0 <= index < 7,
    ensures
        1 <= ahead <= 7,
        weekday_index(date + ahead) == index,
{
    let today = weekday_index(date);
    let ahead: int = if index > today {
        index - today
    } else {
        index - today + 7
    };
    assert((date + ahead - 1) % 7 == index);
    ahead
}

/// In an ordinary week, an alarm that can ring rings again within the week, also where a slot
/// that has come already is passed over.
#[verifier::spinoff_prover]
pub proof fn an_alarm_that_can_ring_rings_within_a_week(
    alarm: AlarmView,
    now: LocalDateTime,
    offsets: Seq<Option<i32>>,
    rung: Option<Slot>,
    wakeup: Option<LocalDateTime>,
)
    requires
        now.wf(),
        alarm.wf(),
        alarm.can_ring(),
        is_ordinary_week(alarm, now, offsets),
        rung matches Some(slot) ==> slot.date <= now.date,
        alarm.is_next_wakeup(now, alarm.passed_over(now, offsets, rung), wakeup),
    ensures
        wakeup matches Some(moment) && moment.date <= now.date + 7,
{
    let kept = alarm.passed_over(now, offsets, rung);
    let index = alarm.days_of_week[0].index();
    let ahead = lemma_weekday_ahead(now.date as int, index);
    assert(alarm.rings_on_weekday(index));
    assert(search_date(now, ahead) == now.date + ahead);
    assert(alarm.rings_on(search_date(now, ahead)));
    assert(offsets[ahead] is Some);
    assert(!alarm.is_rung(now, rung, ahead));
    assert(kept[ahead] == offsets[ahead]);
    let slot = alarm.candidate(now, kept, ahead);
    assert(slot == alarm.candidate(now, offsets, ahead));
    assert(keeps_local_order(now, slot));
    assert(alarm.is_due(now, kept, ahead));
    if let Some(moment) = wakeup {
        let day = choose|day: int| #[trigger]
            alarm.is_first_due(now, kept, day) && moment == alarm.candidate(
                now,
                kept,
                day,
            ).spec_latest(now);
        assert(search_date(now, day) == now.date + day);
    }
}

/// A search that starts two seconds after a ring never comes back to the slot of that ring: the
/// next ring belongs to a later slot.
pub proof fn a_slot_is_rung_once(
    alarm: AlarmView,
    now: LocalDateTime,
    slot: LocalDateTime,
    wakeup: LocalDateTime,
    later: LocalDateTime,
    next_slot: LocalDateTime,
    next_wakeup: LocalDateTime,
)
    requires
        is_slot_of(alarm, now, slot, wakeup),
        wakeup.is_followed_by(2, later),
        is_slot_of(alarm, later, next_slot, next_wakeup),
    ensures
        next_slot.spec_after(slot),
        next_slot.spec_after(wakeup),
        next_wakeup.instant() >= wakeup.instant() + 2,
{
}

/// The offsets of two searches can come from one time zone: a date that both look at has the
/// same answer in both, and no two answers lie a day apart, less the three seconds that a ring
/// and the search after it may take.
pub open spec fn are_of_one_zone(
    alarm: AlarmView,
    now: LocalDateTime,
    offsets: Seq<Option<i32>>,
    later: LocalDateTime,
    later_offsets: Seq<Option<i32>>,
) -> bool {
    forall|i: int, j: int|
        0 <= i < SEARCH_DAYS && 0 <= j < SEARCH_DAYS && alarm.rings_on(search_date(now, i))
            && alarm.rings_on(search_date(later, j)) ==> is_answered_alike(
            search_date(now, i),
            #[trigger] offsets[i],
            search_date(later, j),
            #[trigger] later_offsets[j],
        )
}

/// The two answers can come from one time zone.
pub open spec fn is_answered_alike(
    date: int,
    offset: Option<i32>,
    other_date: int,
    other_offset: Option<i32>,
) -> bool {
    &&& date == other_date ==> offset == other_offset
    &&& offset is Some && other_offset is Some ==> {
        &&& offset->0 - other_offset->0 < SECONDS_PER_DAY - 3
        &&& other_offset->0 - offset->0 < SECONDS_PER_DAY - 3
    }
}

/// After a ring, a search from two seconds later on finds a ring on a later date, or none,
/// whatever the offsets of the one time zone.
pub proof fn the_next_ring_is_on_a_later_date(
    alarm: AlarmView,
    now: LocalDateTime,
    offsets: Seq<Option<i32>>,
    wakeup: LocalDateTime,
    later: LocalDateTime,
    later_offsets: Seq<Option<i32>>,
    next_wakeup: LocalDateTime,
)
    requires
        alarm.wf(),
        now.wf(),
        later.wf(),
        alarm.are_offsets(now, offsets),
        alarm.are_offsets(later, later_offsets),
        are_of_one_zone(alarm, now, offsets, later, later_offsets),
        alarm.is_next_wakeup(now, offsets, Some(wakeup)),
        wakeup.is_followed_by(2, later),
        alarm.is_next_wakeup(later, later_offsets, Some(next_wakeup)),
    ensures
        next_wakeup.date > wakeup.date,
{
    let day = choose|day: int| #[trigger]
        alarm.is_first_due(now, offsets, day) && wakeup == alarm.candidate(
            now,
            offsets,
            day,
        ).spec_latest(now);
    let next_day = choose|next_day: int| #[trigger]
        alarm.is_first_due(later, later_offsets, next_day) && next_wakeup == alarm.candidate(
            later,
            later_offsets,
            next_day,
        ).spec_latest(later);
    let slot = alarm.candidate(now, offsets, day);
    let next_slot = alarm.candidate(later, later_offsets, next_day);
    assert(is_answered_alike(
        search_date(now, day),
        offsets[day],
        search_date(later, next_day),
        later_offsets[next_day],
    ));
    assert(slot.wf() && next_slot.wf());
    assert(next_slot.spec_after(slot));
    assert(next_slot.date > slot.date);
    assert(next_slot.spec_after(later));
}

/// A search from a later moment never finds an earlier ring, where the offsets come from one
/// time zone and local clocks do not show an earlier date at the later moment.
pub proof fn a_later_search_finds_no_earlier_ring(
    alarm: AlarmView,
    now: LocalDateTime,
    offsets: Seq<Option<i32>>,
    wakeup: LocalDateTime,
    later: LocalDateTime,
    later_offsets: Seq<Option<i32>>,
    later_wakeup: LocalDateTime,
)
    requires
        alarm.wf(),
        now.wf(),
        later.wf(),
        !now.spec_after(later),
        now.date <= later.date,
        alarm.are_offsets(now, offsets),
        alarm.are_offsets(later, later_offsets),
        are_of_one_zone(alarm, now, offsets, later, later_offsets),
        alarm.is_next_wakeup(now, offsets, Some(wakeup)),
        alarm.is_next_wakeup(later, later_offsets, Some(later_wakeup)),
    ensures
        !wakeup.spec_after(later_wakeup),
{
    let day = choose|day: int| #[trigger]
        alarm.is_first_due(now, offsets, day) && wakeup == alarm.candidate(
            now,
            offsets,
            day,
        ).spec_latest(now);
    let later_day = choose|later_day: int| #[trigger]
        alarm.is_first_due(later, later_offsets, later_day) && later_wakeup == alarm.candidate(
            later,
            later_offsets,
            later_day,
        ).spec_latest(later);
    let slot = alarm.candidate(now, offsets, day);
    let later_slot = alarm.candidate(later, later_offsets, later_day);
    assert(is_answered_alike(
        search_date(now, day),
        offsets[day],
        search_date(later, later_day),
        later_offsets[later_day],
    ));
    assert(slot.wf() && later_slot.wf());
    if slot.spec_after(later_slot) {
        assert(later_slot.date < slot.date);
        let same = later_slot.date - now.date;
        assert(search_date(now, same) == later_slot.date);
        assert(is_answered_alike(
            search_date(now, same),
            offsets[same],
            search_date(later, later_day),
            later_offsets[later_day],
        ));
        assert(alarm.candidate(now, offsets, same) == later_slot);
        assert(alarm.is_due(now, offsets, same));
    }
}

/// No two of the rings belong to the same alarm.
pub open spec fn are_distinct_rings(rings: Seq<ScheduledAlarm>) -> bool {
    forall|i: int, j: int|
        0 <= i < j < rings.len() ==> (#[trigger] rings[i]).alarm_id != (
        #[trigger] rings[j]).alarm_id
}

/// The ring is what the given search found.
pub open spec fn is_found_by(
    searches: Seq<Search>,
    wakeups: Seq<Option<LocalDateTime>>,
    ring: ScheduledAlarm,
    k: int,
) -> bool {
    &&& 0 <= k < searches.len()
    &&& searches[k].alarm_id == ring.alarm_id
    &&& wakeups[k] == Some(ring.next_wakeup)
}

/// The ring is what one of the searches found.
pub open spec fn is_found(
    searches: Seq<Search>,
    wakeups: Seq<Option<LocalDateTime>>,
    ring: ScheduledAlarm,
) -> bool {
    exists|k: int| is_found_by(searches, wakeups, ring, k)
}

/// The rings that searches found are what some of them found, one for each that found any, and
/// no two belong to the same alarm where no alarm was searched for twice.
proof fn lemma_found_rings(searches: Seq<Search>, wakeups: Seq<Option<LocalDateTime>>)
    requires
        wakeups.len() == searches.len(),
    ensures
        forall|i: int|
            0 <= i < found_rings(searches, wakeups).len() ==> is_found(
                searches,
                wakeups,
                #[trigger] found_rings(searches, wakeups)[i],
            ),
        forall|ring: ScheduledAlarm, k: int| #[trigger]
            is_found_by(searches, wakeups, ring, k) ==> found_rings(searches, wakeups).contains(
                ring,
            ),
        are_distinct_searches(searches) ==> are_distinct_rings(found_rings(searches, wakeups)),
    decreases searches.len(),
{
    let rings = found_rings(searches, wakeups);
    if searches.len() > 0 {
        let fewer = searches.drop_last();
        let known = wakeups.drop_last();
        let last = searches.len() - 1;
        let earlier = found_rings(fewer, known);
        lemma_found_rings(fewer, known);
        assert forall|i: int| 0 <= i < rings.len() implies is_found(
            searches,
            wakeups,
            #[trigger] rings[i],
        ) by {
            if i < earlier.len() {
                assert(is_found(fewer, known, earlier[i]));
                let k = choose|k: int| is_found_by(fewer, known, earlier[i], k);
                assert(is_found_by(searches, wakeups, rings[i], k));
            } else {
                assert(is_found_by(searches, wakeups, rings[i], last));
            }
        }
        assert forall|ring: ScheduledAlarm, k: int| #[trigger]
            is_found_by(searches, wakeups, ring, k) implies rings.contains(ring) by {
            if k < last {
                assert(is_found_by(fewer, known, ring, k));
                let i = choose|i: int| 0 <= i < earlier.len() && earlier[i] == ring;
                assert(rings[i] == ring);
            } else {
                assert(rings[rings.len() - 1] == ring);
            }
        }
        if are_distinct_searches(searches) {
            assert forall|i: int, j: int| 0 <= i < j < fewer.len() implies (
            #[trigger] fewer[i]).alarm_id != (#[trigger] fewer[j]).alarm_id by {
                assert(searches[i].alarm_id != searches[j].alarm_id);
            }
            assert forall|i: int, j: int| 0 <= i < j < rings.len() implies (
            #[trigger] rings[i]).alarm_id != (#[trigger] rings[j]).alarm_id by {
                if j == earlier.len() {
                    assert(is_found(fewer, known, earlier[i]));
                    let k = choose|k: int| is_found_by(fewer, known, earlier[i], k);
                    assert(searches[k].alarm_id != searches[last].alarm_id);
                }
            }
        }
    }
}

/// A queue that was filled holds what it held and what was put in, and nothing else. Where no
/// two of those belong to the same alarm, no two of its rings do.
proof fn lemma_filled(
    before: Seq<ScheduledAlarm>,
    rings: Seq<ScheduledAlarm>,
    after: Seq<ScheduledAlarm>,
)
    requires
        is_filled(before, rings, after),
    ensures
        forall|ring: ScheduledAlarm| #[trigger]
            after.contains(ring) <==> before.contains(ring) || rings.contains(ring),
        are_distinct_rings(before + rings) ==> are_distinct_rings(after),
{
    let all = before + rings;
    vstd::seq_lib::lemma_multiset_commutative(before, rings);
    assert(after.to_multiset() == all.to_multiset());
    assert forall|ring: ScheduledAlarm| #[trigger] after.contains(ring) <==> before.contains(ring)
        || rings.contains(ring) by {
        broadcast use vstd::seq_lib::group_to_multiset_ensures;

        assert(after.contains(ring) <==> all.to_multiset().count(ring) > 0);
        assert(all.contains(ring) <==> all.to_multiset().count(ring) > 0);
        if before.contains(ring) {
            let i = choose|i: int| 0 <= i < before.len() && before[i] == ring;
            assert(all[i] == ring);
        }
        if rings.contains(ring) {
            let i = choose|i: int| 0 <= i < rings.len() && rings[i] == ring;
            assert(all[before.len() + i] == ring);
        }
    }
    if are_distinct_rings(all) {
        assert(all.no_duplicates());
        all.lemma_multiset_has_no_duplicates();
        after.lemma_multiset_has_no_duplicates_conv();
        assert forall|i: int, j: int| 0 <= i < j < after.len() implies (
        #[trigger] after[i]).alarm_id != (#[trigger] after[j]).alarm_id by {
            assert(after.contains(after[i]));
            assert(after.contains(after[j]));
            let a = lemma_place_in_sum(before, rings, after[i]);
            let b = lemma_place_in_sum(before, rings, after[j]);
            assert(after[i] != after[j]);
        }
    }
}

/// Where an element of one of two sequences stands in their sum.
proof fn lemma_place_in_sum(
    before: Seq<ScheduledAlarm>,
    rings: Seq<ScheduledAlarm>,
    ring: ScheduledAlarm,
) -> (at: int)
    requires
        before.contains(ring) || rings.contains(ring),
    ensures
        0 <= at < (before + rings).len(),
        (before + rings)[at] == ring,
{
    if before.contains(ring) {
        choose|i: int| 0 <= i < before.len() && before[i] == ring
    } else {
        before.len() + choose|i: int| 0 <= i < rings.len() && rings[i] == ring
    }
}

/// The ring is one that some of the searches may have found.
pub open spec fn may_be_found(
    manager: ManagerView,
    searches: Seq<Search>,
    ring: ScheduledAlarm,
) -> bool {
    exists|k: int|
        0 <= k < searches.len() && (#[trigger] searches[k]).alarm_id == ring.alarm_id && may_find(
            manager,
            searches[k],
            Some(ring.next_wakeup),
        )
}

/// What is pending after a search was pending before, or was found by it. Nothing that was
/// pending is lost.
pub proof fn a_search_adds_what_it_finds(
    before: ManagerView,
    searches: Seq<Search>,
    after: ManagerView,
)
    requires
        is_rescheduled(before, searches, after),
    ensures
        forall|ring: ScheduledAlarm| #[trigger]
            after.queue.contains(ring) ==> before.queue.contains(ring) || may_be_found(
                before,
                searches,
                ring,
            ),
        forall|ring: ScheduledAlarm| #[trigger]
            before.queue.contains(ring) ==> after.queue.contains(ring),
{
    let wakeups = choose|wakeups: Seq<Option<LocalDateTime>>| #[trigger]
        are_findings(before, searches, wakeups) && is_filled(
            before.queue,
            found_rings(searches, wakeups),
            after.queue,
        );
    let rings = found_rings(searches, wakeups);
    lemma_found_rings(searches, wakeups);
    lemma_filled(before.queue, rings, after.queue);
    assert forall|ring: ScheduledAlarm| #[trigger] after.queue.contains(
        ring,
    ) implies before.queue.contains(ring) || may_be_found(before, searches, ring) by {
        if rings.contains(ring) {
            let i = choose|i: int| 0 <= i < rings.len() && rings[i] == ring;
            assert(is_found(searches, wakeups, rings[i]));
            let k = choose|k: int| is_found_by(searches, wakeups, ring, k);
            assert(may_find(before, searches[k], wakeups[k]));
        }
    }
}

/// Whatever the searches find is pending from then on, at the moment that was found.
pub proof fn what_is_found_is_pending(
    before: Seq<ScheduledAlarm>,
    searches: Seq<Search>,
    wakeups: Seq<Option<LocalDateTime>>,
    after: Seq<ScheduledAlarm>,
    k: int,
)
    requires
        wakeups.len() == searches.len(),
        is_filled(before, found_rings(searches, wakeups), after),
        0 <= k < searches.len(),
        wakeups[k] is Some,
    ensures
        after.contains(
            ScheduledAlarm { alarm_id: searches[k].alarm_id, next_wakeup: wakeups[k]->0 },
        ),
        has_ring(after, searches[k].alarm_id),
{
    let ring = ScheduledAlarm { alarm_id: searches[k].alarm_id, next_wakeup: wakeups[k]->0 };
    lemma_found_rings(searches, wakeups);
    assert(is_found_by(searches, wakeups, ring, k));
    lemma_filled(before, found_rings(searches, wakeups), after);
    assert(after.contains(ring));
    let i = choose|i: int| 0 <= i < after.len() && after[i] == ring;
    assert(after[i].alarm_id == searches[k].alarm_id);
}

/// An alarm that can ring stays scheduled: whenever it is searched for, after it rang or was
/// stopped, added or edited, it has a pending ring within an ordinary week from then on.
pub proof fn an_alarm_that_can_ring_stays_scheduled(
    alarms: Map<u128, AlarmView>,
    before: Seq<ScheduledAlarm>,
    searches: Seq<Search>,
    wakeups: Seq<Option<LocalDateTime>>,
    after: Seq<ScheduledAlarm>,
    k: int,
    offsets: Seq<Option<i32>>,
    rung: Option<Slot>,
)
    requires
        wakeups.len() == searches.len(),
        is_filled(before, found_rings(searches, wakeups), after),
        0 <= k < searches.len(),
        searches[k].base.wf(),
        alarms[searches[k].alarm_id].wf(),
        alarms[searches[k].alarm_id].can_ring(),
        is_ordinary_week(alarms[searches[k].alarm_id], searches[k].base, offsets),
        rung matches Some(slot) ==> slot.date <= searches[k].base.date,
        alarms[searches[k].alarm_id].is_next_wakeup(
            searches[k].base,
            alarms[searches[k].alarm_id].passed_over(searches[k].base, offsets, rung),
            wakeups[k],
        ),
    ensures
        wakeups[k] matches Some(moment) && moment.date <= searches[k].base.date + 7
            && after.contains(
            ScheduledAlarm { alarm_id: searches[k].alarm_id, next_wakeup: moment },
        ),
{
    an_alarm_that_can_ring_rings_within_a_week(
        alarms[searches[k].alarm_id],
        searches[k].base,
        offsets,
        rung,
        wakeups[k],
    );
    what_is_found_is_pending(before, searches, wakeups, after, k);
}

/// Each alarm has at most one pending ring, and that is a moment at which it may ring, looked
/// for from some moment on, with the slot passed over for which it last rang or was stopped.
pub open spec fn is_tidy(manager: ManagerView) -> bool {
    &&& are_distinct_rings(manager.queue)
    &&& forall|i: int| 0 <= i < manager.queue.len() ==> is_awaited(
        manager,
        #[trigger] manager.queue[i],
    )
}

/// The ring is one that its alarm may have.
pub open spec fn is_awaited(manager: ManagerView, ring: ScheduledAlarm) -> bool {
    exists|base: LocalDateTime| #[trigger] is_awaited_from(manager, ring, base)
}

/// The ring is one that its alarm may have, looked for from `base` on.
pub open spec fn is_awaited_from(
    manager: ManagerView,
    ring: ScheduledAlarm,
    base: LocalDateTime,
) -> bool {
    &&& base.wf()
    &&& manager.alarms[ring.alarm_id].may_wake_but(
        base,
        rung_slot(manager.rung, ring.alarm_id),
        Some(ring.next_wakeup),
    )
}

/// A ring that is awaited stays so while its alarm and what is remembered of it stay the same.
proof fn lemma_still_awaited(before: ManagerView, after: ManagerView, ring: ScheduledAlarm)
    requires
        is_awaited(before, ring),
        after.alarms[ring.alarm_id] == before.alarms[ring.alarm_id],
        rung_slot(after.rung, ring.alarm_id) == rung_slot(before.rung, ring.alarm_id),
    ensures
        is_awaited(after, ring),
{
    let base = choose|base: LocalDateTime| #[trigger] is_awaited_from(before, ring, base);
    assert(is_awaited_from(after, ring, base));
}

/// Searching for alarms that have no pending ring keeps a manager tidy.
proof fn lemma_search_keeps_tidy(
    before: ManagerView,
    searches: Seq<Search>,
    after: ManagerView,
)
    requires
        is_tidy(before),
        are_distinct_searches(searches),
        forall|k: int|
            0 <= k < searches.len() ==> (#[trigger] searches[k]).base.wf() && !has_ring(
                before.queue,
                searches[k].alarm_id,
            ),
        is_rescheduled(before, searches, after),
    ensures
        is_tidy(after),
{
    let wakeups = choose|wakeups: Seq<Option<LocalDateTime>>| #[trigger]
        are_findings(before, searches, wakeups) && is_filled(
            before.queue,
            found_rings(searches, wakeups),
            after.queue,
        );
    let rings = found_rings(searches, wakeups);
    lemma_found_rings(searches, wakeups);
    lemma_filled(before.queue, rings, after.queue);
    let all = before.queue + rings;
    assert forall|i: int, j: int| 0 <= i < j < all.len() implies (#[trigger] all[i]).alarm_id != (
    #[trigger] all[j]).alarm_id by {
        let start = before.queue.len() as int;
        if j < start {
            assert(all[i] == before.queue[i] && all[j] == before.queue[j]);
        } else {
            let found = rings[j - start];
            assert(all[j] == found);
            if i < start {
                assert(is_found(searches, wakeups, found));
                let k = choose|k: int| is_found_by(searches, wakeups, found, k);
                assert(!has_ring(before.queue, searches[k].alarm_id));
                assert(all[i] == before.queue[i]);
            } else {
                assert(all[i] == rings[i - start]);
            }
        }
    }
    a_search_adds_what_it_finds(before, searches, after);
    assert forall|i: int| 0 <= i < after.queue.len() implies is_awaited(
        after,
        #[trigger] after.queue[i],
    ) by {
        let ring = after.queue[i];
        assert(after.queue.contains(ring));
        if before.queue.contains(ring) {
            let j = choose|j: int| 0 <= j < before.queue.len() && before.queue[j] == ring;
            assert(is_awaited(before, before.queue[j]));
            lemma_still_awaited(before, after, ring);
        } else {
            let k = choose|k: int|
                0 <= k < searches.len() && (#[trigger] searches[k]).alarm_id == ring.alarm_id
                    && may_find(before, searches[k], Some(ring.next_wakeup));
            assert(is_awaited_from(after, ring, searches[k].base));
        }
    }
}

/// A queue that was emptied and filled with what a search for each alarm found is tidy.
proof fn lemma_full_search_is_tidy(
    before: ManagerView,
    now: LocalDateTime,
    held: Set<u128>,
    later: LocalDateTime,
    searches: Seq<Search>,
    after: ManagerView,
)
    requires
        now.wf(),
        later.wf(),
        before.queue.len() == 0,
        is_full_search(before.alarms, now, held, later, searches),
        is_rescheduled(before, searches, after),
    ensures
        is_tidy(after),
{
    lemma_search_keeps_tidy(before, searches, after);
}

/// The rings of the other alarms are as distinct as all the rings were.
proof fn lemma_others_are_distinct(rings: Seq<ScheduledAlarm>, id: u128)
    requires
        are_distinct_rings(rings),
    ensures
        are_distinct_rings(rings_of_others(rings, id)),
        !has_ring(rings_of_others(rings, id), id),
    decreases rings.len(),
{
    reveal(Seq::filter);
    lemma_rings_of_others(rings, id);
    let kept = rings_of_others(rings, id);
    if rings.len() > 0 {
        let fewer = rings.drop_last();
        let earlier = rings_of_others(fewer, id);
        assert forall|i: int, j: int| 0 <= i < j < fewer.len() implies (
        #[trigger] fewer[i]).alarm_id != (#[trigger] fewer[j]).alarm_id by {
            assert(rings[i].alarm_id != rings[j].alarm_id);
        }
        lemma_others_are_distinct(fewer, id);
        lemma_rings_of_others(fewer, id);
        assert forall|i: int, j: int| 0 <= i < j < kept.len() implies (
        #[trigger] kept[i]).alarm_id != (#[trigger] kept[j]).alarm_id by {
            assert(kept[i] == earlier[i]);
            if j < earlier.len() {
                assert(kept[j] == earlier[j]);
            } else {
                let k = choose|k: int| 0 <= k < fewer.len() && fewer[k] == earlier[i];
                assert(rings[k].alarm_id != rings[rings.len() - 1].alarm_id);
            }
        }
    }
}

/// A manager that starts, empty or with what was saved, is tidy.
pub proof fn a_manager_starts_tidy(
    clock: MonotonicClock,
    path: Seq<u8>,
    state: PersistedView,
    now: LocalDateTime,
    restored: ManagerView,
)
    requires
        now.wf(),
        is_restored(path, state, now, restored),
    ensures
        is_tidy(ManagerView::empty(clock)),
        is_tidy(restored),
{
    let searches = choose|searches: Seq<Search>| #[trigger]
        is_full_search(restored.alarms, now, Set::empty(), now, searches) && is_rescheduled(
            ManagerView { queue: Seq::empty(), ..restored },
            searches,
            restored,
        );
    lemma_full_search_is_tidy(
        ManagerView { queue: Seq::empty(), ..restored },
        now,
        Set::empty(),
        now,
        searches,
        restored,
    );
}

/// A command keeps the manager tidy.
pub proof fn a_command_keeps_the_manager_tidy(
    before: ManagerView,
    cmd: AlarmCommand,
    now: LocalDateTime,
    reading: u128,
    after: ManagerView,
)
    requires
        before.wf(),
        now.wf(),
        is_tidy(before),
        is_command_step(before, cmd, now, reading, after),
    ensures
        is_tidy(after),
{
    let (begun, searches) = choose|begun: ManagerView, searches: Seq<Search>| #[trigger]
        is_begun(before, cmd, now, reading, begun, searches) && is_rescheduled(
            begun,
            searches,
            after,
        );
    match cmd {
        AlarmCommand::Add(alarm) => {
            lemma_rings_of_others(before.queue, alarm.id);
            lemma_others_are_distinct(before.queue, alarm.id);
            assert forall|i: int| 0 <= i < begun.queue.len() implies is_awaited(
                begun,
                #[trigger] begun.queue[i],
            ) by {
                let ring = begun.queue[i];
                assert(before.queue.contains(ring) && ring.alarm_id != alarm.id);
                let k = choose|k: int| 0 <= k < before.queue.len() && before.queue[k] == ring;
                assert(is_awaited(before, before.queue[k]));
                lemma_still_awaited(before, begun, ring);
            }
            lemma_search_keeps_tidy(begun, searches, after);
        },
        AlarmCommand::Edit(_) => {
            lemma_full_search_is_tidy(begun, now, Set::empty(), now, searches, after);
        },
        AlarmCommand::Delete(_) => {
            lemma_full_search_is_tidy(begun, now, Set::empty(), now, searches, after);
        },
        AlarmCommand::StopAll => {
            let later = choose|later: LocalDateTime| #[trigger]
                now.is_followed_by(2, later) && later.wf() && zone_showed(later) && is_full_search(
                    before.alarms,
                    now,
                    before.ringing,
                    later,
                    searches,
                );
            lemma_full_search_is_tidy(begun, now, before.ringing, later, searches, after);
        },
        AlarmCommand::Pause(_) => {
            assert forall|i: int| 0 <= i < begun.queue.len() implies is_awaited(
                begun,
                #[trigger] begun.queue[i],
            ) by {
                assert(is_awaited(before, before.queue[i]));
                lemma_still_awaited(before, begun, before.queue[i]);
            }
            lemma_search_keeps_tidy(begun, searches, after);
        },
        _ => {
            lemma_search_keeps_tidy(begun, searches, after);
        },
    }
}

/// A ring that comes due keeps the manager tidy. Whatever is pending then comes no sooner than
/// that ring: alarms ring in the order of their moments, whatever the order they were added in.
pub proof fn rings_come_in_order(before: ManagerView, after: ManagerView)
    requires
        before.wf(),
        is_tidy(before),
        before.queue.len() > 0,
        is_fire_step(before, after),
    ensures
        is_tidy(after),
        forall|i: int|
            0 <= i < before.queue.len() ==> !before.queue[0].next_wakeup.spec_after(
                (#[trigger] before.queue[i]).next_wakeup,
            ) && before.queue[0].next_wakeup.instant() <= before.queue[i].next_wakeup.instant(),
        forall|i: int|
            0 <= i < after.queue.len() ==> !before.queue[0].next_wakeup.spec_after(
                (#[trigger] after.queue[i]).next_wakeup,
            ),
        forall|i: int|
            0 <= i < after.queue.len() && (#[trigger] after.queue[i]).alarm_id
                == before.queue[0].alarm_id ==> after.queue[i].next_wakeup.instant()
                >= before.queue[0].next_wakeup.instant() + 2,
{
    let due = before.queue[0];
    let (begun, search) = choose|begun: ManagerView, search: Search| #[trigger]
        is_fire_begun(before, begun, search) && is_rescheduled(begun, seq![search], after);
    let searches = seq![search];
    assert forall|i: int| 0 <= i < begun.queue.len() implies (#[trigger] begun.queue[i])
        == before.queue[i + 1] && is_awaited(begun, begun.queue[i]) && begun.queue[i].alarm_id
        != due.alarm_id by {
        assert(is_awaited(before, before.queue[i + 1]));
        assert(before.queue[0].alarm_id != before.queue[i + 1].alarm_id);
        lemma_still_awaited(before, begun, before.queue[i + 1]);
    }
    assert(before.alarms.contains_key(due.alarm_id));
    lemma_search_keeps_tidy(begun, searches, after);
    a_search_adds_what_it_finds(begun, searches, after);
    assert forall|i: int| 0 <= i < after.queue.len() implies !due.next_wakeup.spec_after(
        (#[trigger] after.queue[i]).next_wakeup,
    ) && (after.queue[i].alarm_id == due.alarm_id ==> after.queue[i].next_wakeup.instant()
        >= due.next_wakeup.instant() + 2) by {
        let ring = after.queue[i];
        assert(after.queue.contains(ring));
        if begun.queue.contains(ring) {
            let k = choose|k: int| 0 <= k < begun.queue.len() && begun.queue[k] == ring;
            assert(before.queue[k + 1] == ring);
        } else {
            assert(may_find(begun, search, Some(ring.next_wakeup)));
            let slot = a_ring_belongs_to_another_slot(
                before.alarms[due.alarm_id],
                search.base,
                rung_slot(begun.rung, due.alarm_id),
                ring.next_wakeup,
            );
        }
    }
}

/// A stop remembers, of each alarm that rang, its slot of the day if that has come. No other
/// command changes what is remembered of an alarm, unless it deletes the alarm.
pub proof fn a_rung_slot_is_remembered(
    before: ManagerView,
    cmd: AlarmCommand,
    now: LocalDateTime,
    reading: u128,
    after: ManagerView,
    id: u128,
)
    requires
        before.wf(),
        is_command_step(before, cmd, now, reading, after),
        cmd != AlarmCommand::Delete(id),
    ensures
        is_stopped_slot(before, cmd, now, id) ==> rung_slot(after.rung, id)
            == before.alarms[id].spec_slot_today(now),
        !is_stopped_slot(before, cmd, now, id) ==> rung_slot(after.rung, id) == rung_slot(
            before.rung,
            id,
        ),
{
}

/// The command stops the alarm while it rings, and its slot of the day has come.
pub open spec fn is_stopped_slot(
    before: ManagerView,
    cmd: AlarmCommand,
    now: LocalDateTime,
    id: u128,
) -> bool {
    cmd is StopAll && before.ringing.contains(id) && before.alarms[id].spec_slot_today(now) is Some
}

/// No pending ring belongs to the slot for which its alarm last rang or was stopped. This holds
/// of every tidy manager, so no command in between brings such a slot back.
pub proof fn a_rung_slot_does_not_come_back(manager: ManagerView, i: int) -> (slot:
    LocalDateTime)
    requires
        manager.wf(),
        is_tidy(manager),
        0 <= i < manager.queue.len(),
    ensures
        slot.wf(),
        slot.time == manager.alarms[manager.queue[i].alarm_id].time,
        manager.alarms[manager.queue[i].alarm_id].rings_on(slot.date as int),
        !slot.spec_after(manager.queue[i].next_wakeup),
        rung_slot(manager.rung, manager.queue[i].alarm_id) != Some(
            Slot { date: slot.date, time: slot.time },
        ),
{
    let ring = manager.queue[i];
    assert(is_awaited(manager, ring));
    let base = choose|base: LocalDateTime| #[trigger] is_awaited_from(manager, ring, base);
    assert(manager.alarms.contains_key(ring.alarm_id));
    a_ring_belongs_to_another_slot(
        manager.alarms[ring.alarm_id],
        base,
        rung_slot(manager.rung, ring.alarm_id),
        ring.next_wakeup,
    )
}

/// No ring is pending of an alarm that is switched off or has no day to ring on.
pub proof fn an_alarm_that_cannot_ring_is_not_pending(manager: ManagerView, id: u128)
    requires
        manager.wf(),
        is_tidy(manager),
        manager.alarms.contains_key(id),
        !manager.alarms[id].can_ring(),
    ensures
        !has_ring(manager.queue, id),
{
    if has_ring(manager.queue, id) {
        let i = choose|i: int|
            0 <= i < manager.queue.len() && (#[trigger] manager.queue[i]).alarm_id == id;
        let ring = manager.queue[i];
        assert(is_awaited(manager, ring));
        let base = choose|base: LocalDateTime| #[trigger] is_awaited_from(manager, ring, base);
    }
}

/// `cmd` adds `alarm`, or puts it in the place of another one.
pub open spec fn writes(cmd: AlarmCommand, alarm: Alarm) -> bool {
    cmd == AlarmCommand::Add(alarm) || cmd == AlarmCommand::Edit(alarm)
}

/// A list of the alarms gives back an alarm just as it was added or edited, and so does the
/// file that the alarms are kept in.
pub proof fn what_was_written_is_read_back(
    before: ManagerView,
    cmd: AlarmCommand,
    alarm: Alarm,
    now: LocalDateTime,
    reading: u128,
    after: ManagerView,
    written: CommandOutcome,
    listed: CommandOutcome,
)
    requires
        writes(cmd, alarm),
        is_command_step(before, cmd, now, reading, after),
        is_command_outcome(before, cmd, after, written),
        is_command_outcome(after, AlarmCommand::List, after, listed),
    ensures
        listed.reply matches CommandReply::Alarms(list) && alarm_views(list@).contains(alarm@)
            && is_by_time(alarm_views(list@)),
        after.store_path is Some ==> written.save is Some
            && written.save->0.state@.alarms.contains(alarm@),
{
    assert(after.alarms.contains_key(alarm.id) && after.alarms[alarm.id] == alarm@);
    if let CommandReply::Alarms(list) = listed.reply {
        lemma_listing_contains(after.alarms, alarm_views(list@), alarm.id);
    }
    if let Some(job) = written.save {
        lemma_listing_contains(after.alarms, job.state@.alarms, alarm.id);
    }
}

/// A list of the alarms holds each alarm once and no other, and none of them has an earlier time
/// of day than one that stands ahead of it.
pub proof fn a_list_is_in_the_order_of_the_day(
    manager: ManagerView,
    outcome: CommandOutcome,
    i: int,
    j: int,
)
    requires
        is_command_outcome(manager, AlarmCommand::List, manager, outcome),
        outcome.reply is Alarms,
        0 <= i < j < outcome.reply->Alarms_0@.len(),
    ensures
        outcome.reply->Alarms_0@[i].time.seconds <= outcome.reply->Alarms_0@[j].time.seconds,
        outcome.reply->Alarms_0@[i].id != outcome.reply->Alarms_0@[j].id,
        manager.alarms.contains_key(outcome.reply->Alarms_0@[i].id),
        manager.alarms[outcome.reply->Alarms_0@[i].id] == outcome.reply->Alarms_0@[i]@,
{
    let list = alarm_views(outcome.reply->Alarms_0@);
    assert(list[i].time.spec_at_or_before(list[j].time));
    assert(list[i].id != list[j].id);
}

/// A list of alarms contains each of them.
proof fn lemma_listing_contains(alarms: Map<u128, AlarmView>, list: Seq<AlarmView>, id: u128)
    requires
        alarms.contains_key(id),
        is_listing(alarms, list),
    ensures
        list.contains(alarms[id]),
{
    assert(is_listed(list, id));
    let i = choose|i: int| 0 <= i < list.len() && (#[trigger] list[i]).id == id;
    assert(list[i] == alarms[id]);
}

/// An edit replaces the whole alarm, keeping nothing of the one that was there, and stops it.
/// The pending ring of the alarm is one of the new alarm, looked for from now on, with only the
/// slot passed over for which it last rang or was stopped. The other alarms stay as they are,
/// and go on ringing.
pub proof fn an_edit_replaces_the_whole_alarm(
    before: ManagerView,
    alarm: Alarm,
    now: LocalDateTime,
    reading: u128,
    after: ManagerView,
)
    requires
        is_command_step(before, AlarmCommand::Edit(alarm), now, reading, after),
    ensures
        after.alarms.contains_key(alarm.id),
        after.alarms[alarm.id] == alarm@,
        !after.ringing.contains(alarm.id),
        forall|i: int|
            0 <= i < after.queue.len() && (#[trigger] after.queue[i]).alarm_id == alarm.id
                ==> alarm@.may_wake_but(
                now,
                rung_slot(before.rung, alarm.id),
                Some(after.queue[i].next_wakeup),
            ),
        forall|id: u128|
            id != alarm.id ==> (#[trigger] after.alarms.contains_key(id)
                <==> before.alarms.contains_key(id)) && after.alarms[id] == before.alarms[id],
        forall|id: u128|
            id != alarm.id ==> (#[trigger] after.ringing.contains(id) <==> before.ringing.contains(
                id,
            )),
{
    let (begun, searches) = choose|begun: ManagerView, searches: Seq<Search>| #[trigger]
        is_begun(before, AlarmCommand::Edit(alarm), now, reading, begun, searches)
            && is_rescheduled(begun, searches, after);
    a_search_adds_what_it_finds(begun, searches, after);
    assert forall|i: int|
        0 <= i < after.queue.len() && (#[trigger] after.queue[i]).alarm_id
            == alarm.id implies alarm@.may_wake_but(
        now,
        rung_slot(before.rung, alarm.id),
        Some(after.queue[i].next_wakeup),
    ) by {
        assert(after.queue.contains(after.queue[i]));
        assert(may_be_found(begun, searches, after.queue[i]));
    }
}

/// Nothing is left of an alarm that was deleted: it is in no list, does not ring, has no pending
/// ring, and no slot of it is remembered. The other alarms stay as they are, and go on ringing.
pub proof fn a_deleted_alarm_is_gone(
    before: ManagerView,
    id: u128,
    now: LocalDateTime,
    reading: u128,
    after: ManagerView,
    outcome: CommandOutcome,
)
    requires
        is_command_step(before, AlarmCommand::Delete(id), now, reading, after),
        is_command_outcome(before, AlarmCommand::Delete(id), after, outcome),
    ensures
        !after.alarms.contains_key(id),
        !after.ringing.contains(id),
        !has_ring(after.queue, id),
        !after.rung.contains_key(id),
        before.ringing.contains(id) ==> outcome.stopped@.contains(id),
        forall|other: u128|
            other != id ==> (#[trigger] after.alarms.contains_key(other)
                <==> before.alarms.contains_key(other)) && after.alarms[other]
                == before.alarms[other],
        forall|other: u128|
            other != id ==> (#[trigger] after.ringing.contains(other)
                <==> before.ringing.contains(other)),
{
    let (begun, searches) = choose|begun: ManagerView, searches: Seq<Search>| #[trigger]
        is_begun(before, AlarmCommand::Delete(id), now, reading, begun, searches)
            && is_rescheduled(begun, searches, after);
    a_search_adds_what_it_finds(begun, searches, after);
    if has_ring(after.queue, id) {
        let i = choose|i: int|
            0 <= i < after.queue.len() && (#[trigger] after.queue[i]).alarm_id == id;
        assert(after.queue.contains(after.queue[i]));
        assert(may_be_found(begun, searches, after.queue[i]));
    }
    if before.ringing.contains(id) {
        assert(outcome.stopped@[0] == id);
    }
}

/// A stop silences every alarm and deletes none. The next ring of each alarm is searched for
/// anew, and the alarms that were ringing ring again two seconds later at the earliest.
pub proof fn a_stop_silences_every_alarm_and_keeps_it(
    before: ManagerView,
    now: LocalDateTime,
    reading: u128,
    begun: ManagerView,
    searches: Seq<Search>,
    after: ManagerView,
    outcome: CommandOutcome,
)
    requires
        before.wf(),
        now.wf(),
        is_begun(before, AlarmCommand::StopAll, now, reading, begun, searches),
        is_rescheduled(begun, searches, after),
        is_command_outcome(before, AlarmCommand::StopAll, after, outcome),
    ensures
        after.alarms == before.alarms,
        after.ringing == Set::<u128>::empty(),
        forall|id: u128| #[trigger]
            before.ringing.contains(id) <==> outcome.stopped@.contains(id),
        forall|id: u128| #[trigger]
            before.alarms.contains_key(id) ==> is_searched(searches, id),
        forall|k: int|
            0 <= k < searches.len() && !before.ringing.contains(
                (#[trigger] searches[k]).alarm_id,
            ) ==> searches[k].base == now,
        forall|k: int|
            0 <= k < searches.len() && before.ringing.contains((#[trigger] searches[k]).alarm_id)
                ==> searches[k].base.instant() == now.instant() + 2,
        forall|i: int|
            0 <= i < after.queue.len() && before.ringing.contains(
                (#[trigger] after.queue[i]).alarm_id,
            ) ==> after.queue[i].next_wakeup.instant() >= now.instant() + 2,
{
    let later = choose|later: LocalDateTime| #[trigger]
        now.is_followed_by(2, later) && later.wf() && zone_showed(later) && is_full_search(
            before.alarms,
            now,
            before.ringing,
            later,
            searches,
        );
    a_search_adds_what_it_finds(begun, searches, after);
    assert forall|i: int|
        0 <= i < after.queue.len() && before.ringing.contains(
            (#[trigger] after.queue[i]).alarm_id,
        ) implies after.queue[i].next_wakeup.instant() >= now.instant() + 2 by {
        let ring = after.queue[i];
        assert(after.queue.contains(ring));
        assert(may_be_found(begun, searches, ring));
        let k = choose|k: int|
            0 <= k < searches.len() && (#[trigger] searches[k]).alarm_id == ring.alarm_id
                && may_find(begun, searches[k], Some(ring.next_wakeup));
        assert(searches[k].base == base_of(ring.alarm_id, now, before.ringing, later));
        assert(before.alarms.contains_key(ring.alarm_id));
        let slot = a_ring_belongs_to_another_slot(
            before.alarms[ring.alarm_id],
            later,
            rung_slot(begun.rung, ring.alarm_id),
            ring.next_wakeup,
        );
    }
    assert forall|id: u128| #[trigger]
        before.ringing.contains(id) <==> outcome.stopped@.contains(id) by {
        assert(before.ringing.contains(id) <==> outcome.stopped@.to_set().contains(id));
    }
}

/// A pause takes the place of an earlier one instead of adding to it, ends by itself once its
/// span has passed, and leaves the alarms, their pending rings and those that ring alone.
pub proof fn a_pause_replaces_the_one_before(
    before: ManagerView,
    first_span: u128,
    first_now: LocalDateTime,
    first_reading: u128,
    between: ManagerView,
    span: u128,
    now: LocalDateTime,
    reading: u128,
    after: ManagerView,
    mute: MuteStatus,
)
    requires
        reading <= MAX_SPAN_NANOS,
        span <= MAX_SPAN_NANOS,
        is_command_step(before, AlarmCommand::Pause(first_span), first_now, first_reading, between),
        is_command_step(between, AlarmCommand::Pause(span), now, reading, after),
        mute.spec_until() == after.muted_until,
    ensures
        forall|at: u128| #[trigger] mute.mutes_at(at) <==> at < reading + span,
        after.alarms == before.alarms,
        after.queue == before.queue,
        after.ringing == before.ringing,
        after.clock == before.clock,
{
}

/// Asking for the alarms or for what rings changes nothing, and saves nothing.
pub proof fn a_question_changes_nothing(
    before: ManagerView,
    cmd: AlarmCommand,
    now: LocalDateTime,
    reading: u128,
    after: ManagerView,
    outcome: CommandOutcome,
)
    requires
        cmd is List || cmd is RingingStatus,
        is_command_step(before, cmd, now, reading, after),
        is_command_outcome(before, cmd, after, outcome),
    ensures
        after == before,
        outcome.stopped@.len() == 0,
        outcome.save is None,
{
}

/// An alarm that rings goes on ringing until it is edited or deleted, or all are stopped.
pub proof fn an_alarm_rings_until_it_is_stopped(
    before: ManagerView,
    id: u128,
    cmd: AlarmCommand,
    now: LocalDateTime,
    reading: u128,
    after: ManagerView,
    outcome: CommandOutcome,
)
    requires
        before.ringing.contains(id),
        is_command_step(before, cmd, now, reading, after),
        is_command_outcome(before, cmd, after, outcome),
    ensures
        after.ringing.contains(id) <==> !ends_ringing(cmd, id),
        outcome.stopped@.contains(id) <==> ends_ringing(cmd, id),
{
    match cmd {
        AlarmCommand::Edit(alarm) => {
            if alarm.id == id {
                assert(outcome.stopped@[0] == id);
            }
        },
        AlarmCommand::Delete(deleted) => {
            if deleted == id {
                assert(outcome.stopped@[0] == id);
            }
        },
        AlarmCommand::StopAll => {
            assert(outcome.stopped@.to_set().contains(id));
        },
        _ => {},
    }
}

/// The command edits or deletes the alarm with this ID, or stops all alarms.
pub open spec fn ends_ringing(cmd: AlarmCommand, id: u128) -> bool {
    match cmd {
        AlarmCommand::Edit(alarm) => alarm.id == id,
        AlarmCommand::Delete(deleted) => deleted == id,
        AlarmCommand::StopAll => true,
        _ => false,
    }
}

/// The status says that something rings if and only if some alarm does.
pub proof fn a_status_tells_whether_anything_rings(
    ringing: Set<u128>,
    status: RingingStatusReply,
)
    requires
        is_ringing_status(ringing, status),
    ensures
        status.is_ringing <==> exists|id: u128| #[trigger] ringing.contains(id),
        forall|id: u128| #[trigger]
            status.ringing_ids@.contains(id) <==> ringing.contains(id),
{
    let ids = status.ringing_ids@;
    assert forall|id: u128| #[trigger] ids.contains(id) <==> ringing.contains(id) by {
        assert(ids.to_set().contains(id) <==> ids.contains(id));
    }
    if ids.len() > 0 {
        assert(ids.contains(ids[0]));
        assert(ringing.contains(ids[0]));
    }
}

/// What a due ring does. The alarm whose pending ring was soonest is rung once, as it is kept,
/// and is the one that rings besides those that rang before; no alarm changes; its pending ring
/// gives way to what a search from two seconds later on found, if it found any; its slot is
/// remembered; and the file says from then on that it rings.
pub proof fn a_due_ring_rings_and_is_replaced(
    before: ManagerView,
    begun: ManagerView,
    search: Search,
    wakeup: Option<LocalDateTime>,
    after: ManagerView,
    outcome: FireOutcome,
)
    requires
        before.wf(),
        before.queue.len() > 0,
        is_fire_begun(before, begun, search),
        is_filled(begun.queue, found_rings(seq![search], seq![wakeup]), after.queue),
        after == (ManagerView { queue: after.queue, ..begun }),
        is_fire_outcome(before, after, outcome),
    ensures
        outcome.ring matches Some(alarm) && alarm.id == before.queue[0].alarm_id && alarm@
            == before.alarms[alarm.id],
        after.alarms == before.alarms,
        after.ringing == before.ringing.insert(before.queue[0].alarm_id),
        search.alarm_id == before.queue[0].alarm_id,
        before.queue[0].next_wakeup.is_followed_by(2, search.base),
        search.base.instant() == before.queue[0].next_wakeup.instant() + 2,
        after.rung == before.rung.insert(search.alarm_id, slot_of(before, before.queue[0])),
        forall|ring: ScheduledAlarm| #[trigger]
            after.queue.contains(ring) <==> before.queue.drop_first().contains(ring) || (
            ring.alarm_id == search.alarm_id && wakeup == Some(ring.next_wakeup)),
        after.store_path is Some ==> outcome.save is Some
            && outcome.save->0.state@.ringing_ids.contains(before.queue[0].alarm_id),
{
    let id = before.queue[0].alarm_id;
    assert(before.alarms.contains_key(id));
    if let Some(job) = outcome.save {
        assert(job.state@.ringing_ids.to_set().contains(id));
    }
    let searches = seq![search];
    let wakeups = seq![wakeup];
    let rings = found_rings(searches, wakeups);
    lemma_found_rings(searches, wakeups);
    lemma_filled(begun.queue, rings, after.queue);
    assert forall|ring: ScheduledAlarm| #[trigger] after.queue.contains(ring)
        <==> before.queue.drop_first().contains(ring) || (ring.alarm_id == search.alarm_id
        && wakeup == Some(ring.next_wakeup)) by {
        if rings.contains(ring) {
            let i = choose|i: int| 0 <= i < rings.len() && rings[i] == ring;
            assert(is_found(searches, wakeups, rings[i]));
        }
        if ring.alarm_id == search.alarm_id && wakeup == Some(ring.next_wakeup) {
            assert(is_found_by(searches, wakeups, ring, 0));
        }
    }
}

/// A pause neither delays nor drops a ring: an alarm that comes due during a pause is rung and
/// counts as ringing, and the mute holds until the span of the pause has passed, and ends then
/// without any command.
pub proof fn a_pause_does_not_hold_up_a_ring(
    before: ManagerView,
    span: u128,
    now: LocalDateTime,
    reading: u128,
    paused: ManagerView,
    after: ManagerView,
    outcome: FireOutcome,
    mute: MuteStatus,
)
    requires
        before.wf(),
        before.queue.len() > 0,
        reading <= MAX_SPAN_NANOS,
        span <= MAX_SPAN_NANOS,
        is_command_step(before, AlarmCommand::Pause(span), now, reading, paused),
        is_fire_step(paused, after),
        is_fire_outcome(paused, after, outcome),
        mute.spec_until() == after.muted_until,
    ensures
        paused.queue == before.queue,
        outcome.ring matches Some(alarm) && alarm.id == before.queue[0].alarm_id,
        after.ringing.contains(before.queue[0].alarm_id),
        after.clock == before.clock,
        forall|at: u128| #[trigger] mute.mutes_at(at) <==> at < reading + span,
{
    assert(before.alarms.contains_key(before.queue[0].alarm_id));
}

/// The alarms of a list, by their IDs, are the alarms that were listed.
proof fn lemma_listed_by_id(alarms: Map<u128, AlarmView>, list: Seq<AlarmView>)
    requires
        is_listing(alarms, list),
    ensures
        alarms_by_id(list) == alarms,
    decreases list.len(),
{
    if list.len() == 0 {
        assert forall|id: u128| !alarms.contains_key(id) by {
            if alarms.contains_key(id) {
                assert(is_listed(list, id));
            }
        }
        assert(alarms =~= Map::empty());
    } else {
        let last = list.last();
        let rest = list.drop_last();
        let fewer = alarms.remove(last.id);
        assert(list[list.len() - 1] == last);
        assert forall|i: int| 0 <= i < rest.len() implies fewer.contains_key(
            (#[trigger] rest[i]).id,
        ) && fewer[rest[i].id] == rest[i] by {
            assert(rest[i] == list[i]);
        }
        assert forall|id: u128| #[trigger] fewer.contains_key(id) implies is_listed(rest, id) by {
            assert(alarms.contains_key(id));
            assert(is_listed(list, id));
            let i = choose|i: int| 0 <= i < list.len() && (#[trigger] list[i]).id == id;
            assert(rest[i] == list[i]);
        }
        lemma_listed_by_id(fewer, rest);
        assert(fewer.insert(last.id, last) =~= alarms);
    }
}

/// The alarms as they are read back from where they were written.
pub open spec fn written(alarms: Map<u128, AlarmView>) -> Map<u128, AlarmView> {
    alarms.map_values(|alarm: AlarmView| alarm.as_written())
}

/// What is saved of a manager is read back as what would be saved of it with its alarms as they
/// are written.
pub(crate) proof fn lemma_written_snapshot(manager: ManagerView, state: PersistedView)
    requires
        is_snapshot(manager, state),
    ensures
        is_snapshot(
            ManagerView { alarms: written(manager.alarms), ..manager },
            state.as_written(),
        ),
{
    let list = state.as_written().alarms;
    let alarms = written(manager.alarms);
    assert forall|i: int| 0 <= i < list.len() implies alarms.contains_key(
        (#[trigger] list[i]).id,
    ) && alarms[list[i].id] == list[i] by {
        assert(list[i] == state.alarms[i].as_written());
    }
    assert forall|i: int, j: int| 0 <= i < j < list.len() implies (#[trigger] list[i]).id != (
    #[trigger] list[j]).id by {
        assert(state.alarms[i].id != state.alarms[j].id);
    }
    assert forall|id: u128| #[trigger] alarms.contains_key(id) implies is_listed(list, id) by {
        assert(manager.alarms.contains_key(id));
        assert(is_listed(state.alarms, id));
        let i = choose|i: int| 0 <= i < state.alarms.len() && (#[trigger] state.alarms[i]).id == id;
        assert(list[i].id == id);
    }
}

/// A manager that starts with what another one saved has the same alarms, with their times to
/// the minute as they are written, and the same ones ring.
pub proof fn a_restart_brings_everything_back(
    manager: ManagerView,
    path: Seq<u8>,
    state: PersistedView,
    now: LocalDateTime,
    restored: ManagerView,
)
    requires
        manager.wf(),
        is_snapshot(manager, state),
        is_restored(path, state.as_written(), now, restored),
    ensures
        restored.alarms == written(manager.alarms),
        restored.ringing == manager.ringing,
{
    lemma_written_snapshot(manager, state);
    lemma_listed_by_id(written(manager.alarms), state.as_written().alarms);
    assert forall|id: u128| restored.ringing.contains(id) <==> manager.ringing.contains(id) by {
        assert(state.ringing_ids.to_set().contains(id) <==> state.ringing_ids.contains(id));
    }
    assert(restored.ringing =~= manager.ringing);
}

/// An alarm with a time to the minute is read back just as it was written.
pub proof fn a_time_to_the_minute_is_written_in_full(alarm: AlarmView)
    requires
        alarm.time == alarm.time.to_the_minute(),
    ensures
        alarm.as_written() == alarm,
{
}

/// Writing an alarm and reading it back drops the seconds of its time, and nothing else.
pub proof fn only_seconds_are_lost_in_writing(alarm: AlarmView)
    requires
        alarm.wf(),
    ensures
        alarm.as_written().wf(),
        alarm.as_written().time.seconds / 60 == alarm.time.seconds / 60,
        alarm.as_written().time.seconds % 60 == 0,
        alarm.as_written().time.nanos == 0,
        alarm.as_written().id == alarm.id,
        alarm.as_written().days_of_week == alarm.days_of_week,
        alarm.as_written().is_enabled == alarm.is_enabled,
        alarm.as_written().stop_method_id == alarm.stop_method_id,
{
}

/// Of several alarms in the file with the same ID, the last one counts. No alarm is made up.
pub proof fn the_last_alarm_of_an_id_counts(alarms: Seq<AlarmView>, i: int)
    requires
        0 <= i < alarms.len(),
        forall|j: int| i < j < alarms.len() ==> (#[trigger] alarms[j]).id != alarms[i].id,
    ensures
        alarms_by_id(alarms).contains_key(alarms[i].id),
        alarms_by_id(alarms)[alarms[i].id] == alarms[i],
        forall|id: u128| #[trigger]
            alarms_by_id(alarms).contains_key(id) ==> is_listed(alarms, id),
    decreases alarms.len(),
{
    let fewer = alarms.drop_last();
    assert(alarms.last() == alarms[alarms.len() - 1]);
    if i < fewer.len() {
        assert(fewer[i] == alarms[i]);
        assert forall|j: int| i < j < fewer.len() implies (#[trigger] fewer[j]).id
            != fewer[i].id by {
            assert(fewer[j] == alarms[j]);
        }
        the_last_alarm_of_an_id_counts(fewer, i);
    } else if fewer.len() > 0 {
        the_last_alarm_of_an_id_counts(fewer, fewer.len() - 1);
    }
    assert forall|id: u128| #[trigger] alarms_by_id(alarms).contains_key(id) implies is_listed(
        alarms,
        id,
    ) by {
        if id == alarms.last().id {
            assert(alarms[alarms.len() - 1].id == id);
        } else {
            assert(alarms_by_id(fewer).contains_key(id));
            assert(is_listed(fewer, id));
            let k = choose|k: int| 0 <= k < fewer.len() && (#[trigger] fewer[k]).id == id;
            assert(alarms[k].id == id);
        }
    }
}

/// The rings at the head of the queue that are passed over belong to no alarm, and the first one
/// that is left, if there is one, belongs to an alarm.
pub proof fn only_rings_of_no_alarm_are_passed_over(
    rings: Seq<ScheduledAlarm>,
    known: Set<u128>,
)
    ensures
        stale_count(rings, known) <= rings.len(),
        forall|i: int|
            0 <= i < stale_count(rings, known) ==> !known.contains((#[trigger] rings[i]).alarm_id),
        stale_count(rings, known) < rings.len() ==> known.contains(
            rings[stale_count(rings, known) as int].alarm_id,
        ),
    decreases rings.len(),
{
    if rings.len() > 0 && !known.contains(rings[0].alarm_id) {
        let rest = rings.drop_first();
        only_rings_of_no_alarm_are_passed_over(rest, known);
        assert forall|i: int| 0 <= i < stale_count(rings, known) implies !known.contains(
            (#[trigger] rings[i]).alarm_id,
        ) by {
            if i > 0 {
                assert(rest[i - 1] == rings[i]);
            }
        }
    }
}

/// A file whose contents are decoded as they were written is loaded as the state that was saved:
/// the same alarms in the same order, each with its ID, days, switch and stop method and with
/// its time to the minute, and the same ringing ones.
pub proof fn what_is_decoded_as_written_is_loaded(
    state: PersistedState,
    decoded: PersistedState,
    legacy: Option<Vec<Alarm>>,
    i: int,
)
    requires
        decoded@ == state@.as_written(),
        0 <= i < state@.alarms.len(),
    ensures
        loaded_view(StoreRead::Contents { state: Some(decoded), legacy }).ringing_ids
            == state@.ringing_ids,
        loaded_view(StoreRead::Contents { state: Some(decoded), legacy }).alarms.len()
            == state@.alarms.len(),
        loaded_view(StoreRead::Contents { state: Some(decoded), legacy }).alarms[i] == (AlarmView {
            time: state@.alarms[i].time.to_the_minute(),
            ..state@.alarms[i]
        }),
{
}

/// Each alarm that a manager starts with as ringing is rung at once.
pub proof fn a_ringing_alarm_resumes(alarms: Map<u128, AlarmView>, ids: Seq<u128>, id: u128)
    requires
        resumed_ids(alarms, ids).contains(id),
    ensures
        resumed(alarms, ids).contains(alarms[id]),
    decreases ids.len(),
{
    let rest = ids.drop_last();
    let rung = resumed(alarms, ids);
    if ids.last() == id && !rest.contains(id) {
        assert(rung[rung.len() - 1] == alarms[id]);
    } else {
        if !rest.contains(id) {
            let k = choose|k: int| 0 <= k < ids.len() && ids[k] == id;
            assert(rest[k] == id);
        }
        a_ringing_alarm_resumes(alarms, rest, id);
        let earlier = resumed(alarms, rest);
        let i = choose|i: int| 0 <= i < earlier.len() && earlier[i] == alarms[id];
        assert(rung[i] == alarms[id]);
    }
}

/// A file that is not there, cannot be read or has neither form starts with nothing, and one of
/// the older form starts with its alarms and none ringing.
pub proof fn a_file_of_no_use_starts_empty(alarms: Vec<Alarm>)
    ensures
        loaded_view(StoreRead::Missing).alarms.len() == 0,
        loaded_view(StoreRead::Missing).ringing_ids.len() == 0,
        loaded_view(StoreRead::Unreadable).alarms.len() == 0,
        loaded_view(StoreRead::Unreadable).ringing_ids.len() == 0,
        loaded_view(StoreRead::Contents { state: None, legacy: None }).alarms.len() == 0,
        loaded_view(StoreRead::Contents { state: None, legacy: None }).ringing_ids.len() == 0,
        loaded_view(StoreRead::Contents { state: None, legacy: Some(alarms) }).alarms
            == alarm_views(alarms@),
        loaded_view(StoreRead::Contents { state: None, legacy: Some(alarms) }).ringing_ids.len()
            == 0,
{
}

/// The default place of the alarms file is in the first state directory that is named, whatever
/// empty entries stand ahead of it and whatever follows it.
pub proof fn the_file_lies_in_the_first_state_directory(
    empty: Seq<u8>,
    directory: Seq<u8>,
    others: Seq<u8>,
    state_home: Option<Seq<u8>>,
    path: Seq<u8>,
)
    requires
        forall|i: int| 0 <= i < empty.len() ==> #[trigger] empty[i] == 0x3a,
        directory.len() > 0,
        directory.last() != 0x2f,
        forall|i: int| 0 <= i < directory.len() ==> #[trigger] directory[i] != 0x3a,
        others.len() > 0 ==> others[0] == 0x3a,
        is_default_alarms_file(Some(empty + directory + others), state_home, path),
    ensures
        path == directory + seq![0x2fu8] + "alarms.json".spec_bytes(),
{
    let list = empty + directory + others;
    let at: int = empty.len() as int;
    let end: int = at + directory.len();
    assert(list[at] == directory[0] && directory[0] != COLON);
    assert(exists|from: int, to: int| #[trigger]
        is_first_entry(list, from, to) && path == joined_path(
            list.subrange(from, to),
            "alarms.json".spec_bytes(),
        )) by {
        assert(is_default_alarms_file(Some(list), state_home, path));
        assert(!(forall|i: int| 0 <= i < list.len() ==> #[trigger] list[i] == COLON));
    }
    assert forall|i: int| 0 <= i < at implies #[trigger] list[i] == COLON by {
        assert(list[i] == empty[i]);
    }
    assert forall|i: int| at <= i < end implies #[trigger] list[i] != COLON by {
        assert(list[i] == directory[i - at]);
    }
    if end < list.len() {
        assert(list[end] == others[0]);
    }
    let (from, to) = choose|from: int, to: int| #[trigger]
        is_first_entry(list, from, to) && path == joined_path(
            list.subrange(from, to),
            "alarms.json".spec_bytes(),
        );
    assert(is_first_entry(list, from, to));
    assert(from == at) by {
        if from < at {
            assert(list[from] == COLON);
        } else if from > at {
            assert(list[at] == COLON);
        }
    }
    assert(to == end) by {
        if to < end {
            assert(list[to] != COLON);
        } else if to > end {
            assert(list[end] != COLON);
        }
    }
    assert(list.subrange(from, to) =~= directory);
    assert(directory.push(0x2fu8) =~= directory + seq![0x2fu8]);
}

/// Where no state directory is named, the default place of the alarms file is under the user's
/// directory for state, and under the current directory where there is none.
pub proof fn the_file_lies_under_the_home_for_state(
    empty: Seq<u8>,
    state_home: Seq<u8>,
    path: Seq<u8>,
    local_path: Seq<u8>,
)
    requires
        forall|i: int| 0 <= i < empty.len() ==> #[trigger] empty[i] == 0x3a,
        state_home.len() > 0,
        state_home.last() != 0x2f,
        is_default_alarms_file(None, Some(state_home), path) || is_default_alarms_file(
            Some(empty),
            Some(state_home),
            path,
        ),
        is_default_alarms_file(None, None, local_path) || is_default_alarms_file(
            Some(empty),
            None,
            local_path,
        ),
    ensures
        path == state_home + seq![0x2fu8] + "eager-alarm-edge".spec_bytes() + seq![0x2fu8]
            + "alarms.json".spec_bytes(),
        local_path == seq![0x2eu8, 0x2fu8] + "eager-alarm-edge".spec_bytes() + seq![0x2fu8]
            + "alarms.json".spec_bytes(),
{
    reveal_strlit("eager-alarm-edge");
    reveal_strlit(".");
    assert(vstd::string::is_ascii("eager-alarm-edge"));
    assert(vstd::string::is_ascii("."));
    let name = "eager-alarm-edge".spec_bytes();
    let file = "alarms.json".spec_bytes();
    assert(name.len() == 16 && name.last() == 0x65);
    assert(".".spec_bytes() =~= seq![0x2eu8]);
    assert forall|from: int, to: int| !#[trigger] is_first_entry(empty, from, to) by {
        if is_first_entry(empty, from, to) {
            assert(empty[from] == 0x3a);
        }
    }
    assert(joined_path(joined_path(state_home, name), file) =~= state_home + seq![0x2fu8] + name
        + seq![0x2fu8] + file);
    assert(joined_path(joined_path(seq![0x2eu8], name), file) =~= seq![0x2eu8, 0x2fu8] + name
        + seq![0x2fu8] + file);
}

/// The step changes what the path names.
pub open spec fn changes(step: SaveStepView, path: Seq<u8>) -> bool {
    match step {
        SaveStepView::CreateDirectory(_) => false,
        SaveStepView::Encode => false,
        SaveStepView::Write(target) => target == path,
        SaveStepView::Rename(from, to) => from == path || to == path,
    }
}

/// A save changes the alarms file in its last step alone, by giving its name to another file,
/// which the step before has written. That file lies in the same directory.
pub proof fn a_save_replaces_the_file_in_one_step(path: Seq<u8>, parent: Option<Seq<u8>>)
    ensures
        save_plan(path, parent).last() == SaveStepView::Rename(temporary_path(path), path),
        save_plan(path, parent)[save_plan(path, parent).len() - 2] == SaveStepView::Write(
            temporary_path(path),
        ),
        forall|i: int|
            0 <= i < save_plan(path, parent).len() - 1 ==> !changes(
                #[trigger] save_plan(path, parent)[i],
                path,
            ),
        parent is Some && parent->0.len() > 0 ==> save_plan(path, parent)[0]
            == SaveStepView::CreateDirectory(parent->0),
        temporary_path(path) == path + seq![0x2eu8, 0x74u8, 0x6du8, 0x70u8],
        temporary_path(path).take(path.len() as int) == path,
        forall|i: int|
            path.len() <= i < temporary_path(path).len() ==> #[trigger] temporary_path(path)[i]
                != SLASH,
{
    reveal_strlit(".tmp");
    assert(vstd::string::is_ascii(".tmp"));
    assert(temporary_path(path).len() == path.len() + 4);
    assert(temporary_path(path) =~= path + seq![0x2eu8, 0x74u8, 0x6du8, 0x70u8]);
    assert(temporary_path(path).take(path.len() as int) =~= path);
}

/// An alarm is kept as the request describes it. A request to edit that names no stop method
/// leaves the alarm without one.
pub proof fn a_request_is_kept_as_it_is(
    request: AlarmRequest,
    new_id: u128,
    cmd: AlarmCommand,
    before: ManagerView,
    now: LocalDateTime,
    reading: u128,
    after: ManagerView,
)
    requires
        command_of(action_for(request, new_id)) == Some(cmd),
        is_command_step(before, cmd, now, reading, after),
    ensures
        request matches AlarmRequest::Add { time, days_of_week, is_enabled, stop_method_id }
            ==> after.alarms.contains_key(new_id) && after.alarms[new_id] == (Alarm {
            id: new_id,
            time,
            days_of_week,
            is_enabled,
            stop_method_id,
        })@,
        request matches AlarmRequest::Edit { id, time, days_of_week, is_enabled, stop_method_id }
            ==> after.alarms.contains_key(id) && after.alarms[id] == (Alarm {
            id,
            time,
            days_of_week,
            is_enabled,
            stop_method_id,
        })@,
        request matches AlarmRequest::Edit { id, stop_method_id: None, .. }
            ==> after.alarms[id].stop_method_id is None,
{
}

} // verus!
