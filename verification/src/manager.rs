//! The alarm manager: the alarms, their pending rings, the alarms that are ringing, and what
//! each command and each due ring makes of them.

use crate::alarm::{Alarm, AlarmView, Slot};
use crate::calendar::{local_now, LocalDateTime, NANOS_PER_SECOND};
use crate::handle::AlarmHandle;
use crate::machine::{local_clock_showed, monotonic_clock_showed, zone_showed};
use crate::mute::{MonotonicClock, MuteStatus, MAX_SPAN_NANOS};
use crate::schedule::{
    is_insertion, is_insertion_at, is_soonest_first, lemma_rings_of_others, rings_of_others,
    stale_count, ScheduledAlarm, WakeupQueue,
};
use crate::store::{alarm_views, alarms_by_id, copy_path, PersistedState, PersistedView};
use std::collections::{HashMap, HashSet};
use vstd::prelude::*;

verus! {

broadcast use vstd::std_specs::hash::group_hash_axioms;

/// What the alarm manager holds, in mathematical terms.
pub struct ManagerView {
    /// The alarms by their IDs.
    pub alarms: Map<u128, AlarmView>,
    /// The pending rings, soonest first.
    pub queue: Seq<ScheduledAlarm>,
    /// The IDs of the alarms that are ringing.
    pub ringing: Set<u128>,
    /// For each alarm that rang or was stopped, the slot for which it last did. Such a slot is
    /// passed over in searches, so that it does not come back.
    pub rung: Map<u128, Slot>,
    /// The monotonic clock that the mute goes by.
    pub clock: MonotonicClock,
    /// The reading of the monotonic clock at which the mute ends, if one was ever set.
    pub muted_until: Option<u128>,
    /// The path of the alarms file, if the alarms are kept in one.
    pub store_path: Option<Seq<u8>>,
}

impl ManagerView {
    /// Each alarm is filed under its own ID; the pending rings stand in order; and whatever
    /// rings, rang or is pending is an alarm that exists.
    pub open spec fn wf(self) -> bool {
        &&& forall|id: u128| #[trigger]
            self.alarms.contains_key(id) ==> self.alarms[id].id == id && self.alarms[id].wf()
        &&& is_soonest_first(self.queue)
        &&& forall|i: int|
            0 <= i < self.queue.len() ==> (#[trigger] self.queue[i]).next_wakeup.wf()
                && self.alarms.contains_key(self.queue[i].alarm_id)
        &&& forall|id: u128| #[trigger]
            self.ringing.contains(id) ==> self.alarms.contains_key(id)
        &&& forall|id: u128| #[trigger]
            self.rung.contains_key(id) ==> self.alarms.contains_key(id)
    }
}

impl ManagerView {
    /// No alarms, no mute, and no file to keep alarms in.
    pub open spec fn empty(clock: MonotonicClock) -> ManagerView {
        ManagerView {
            alarms: Map::empty(),
            queue: Seq::empty(),
            ringing: Set::empty(),
            rung: Map::empty(),
            clock,
            muted_until: None,
            store_path: None,
        }
    }
}

/// The queue holds a pending ring of the alarm.
pub open spec fn has_ring(queue: Seq<ScheduledAlarm>, id: u128) -> bool {
    exists|i: int| 0 <= i < queue.len() && (#[trigger] queue[i]).alarm_id == id
}

/// `after` is `before` with a ring of the alarm at `wakeup`, if there is such a moment.
pub open spec fn is_enqueued(
    id: u128,
    wakeup: Option<LocalDateTime>,
    before: Seq<ScheduledAlarm>,
    after: Seq<ScheduledAlarm>,
) -> bool {
    match wakeup {
        Some(moment) => is_insertion(
            before,
            ScheduledAlarm { alarm_id: id, next_wakeup: moment },
            after,
        ),
        None => after == before,
    }
}

/// A search for the next ring of an alarm, from `base` on.
#[derive(Clone, Copy, Debug)]
pub struct Search {
    pub alarm_id: u128,
    pub base: LocalDateTime,
}

/// From when on the next ring of an alarm is looked for: from `later` for the alarms that were
/// `held`, from `now` for the others.
pub open spec fn base_of(
    id: u128,
    now: LocalDateTime,
    held: Set<u128>,
    later: LocalDateTime,
) -> LocalDateTime {
    if held.contains(id) {
        later
    } else {
        now
    }
}

/// The slot for which the alarm last rang or was stopped, if there is one.
pub open spec fn rung_slot(rung: Map<u128, Slot>, id: u128) -> Option<Slot> {
    if rung.contains_key(id) {
        Some(rung[id])
    } else {
        None
    }
}

/// The alarm is among those that are searched for.
pub open spec fn is_searched(searches: Seq<Search>, id: u128) -> bool {
    exists|i: int| 0 <= i < searches.len() && (#[trigger] searches[i]).alarm_id == id
}

/// No alarm is searched for twice.
pub open spec fn are_distinct_searches(searches: Seq<Search>) -> bool {
    forall|i: int, j: int|
        0 <= i < j < searches.len() ==> (#[trigger] searches[i]).alarm_id != (
        #[trigger] searches[j]).alarm_id
}

/// Each alarm is searched for once, from its base on.
pub open spec fn is_full_search(
    alarms: Map<u128, AlarmView>,
    now: LocalDateTime,
    held: Set<u128>,
    later: LocalDateTime,
    searches: Seq<Search>,
) -> bool {
    &&& forall|i: int|
        0 <= i < searches.len() ==> alarms.contains_key((#[trigger] searches[i]).alarm_id)
            && searches[i].base == base_of(searches[i].alarm_id, now, held, later)
    &&& are_distinct_searches(searches)
    &&& forall|id: u128| #[trigger] alarms.contains_key(id) ==> is_searched(searches, id)
}

/// `wakeup` can be what the search finds. It passes the slot over for which the alarm last rang
/// or was stopped, and finds nothing where there is no such alarm.
pub open spec fn may_find(
    manager: ManagerView,
    search: Search,
    wakeup: Option<LocalDateTime>,
) -> bool {
    if manager.alarms.contains_key(search.alarm_id) {
        manager.alarms[search.alarm_id].may_wake_but(
            search.base,
            rung_slot(manager.rung, search.alarm_id),
            wakeup,
        )
    } else {
        wakeup is None
    }
}

/// `wakeups` can be what the searches find.
pub open spec fn are_findings(
    manager: ManagerView,
    searches: Seq<Search>,
    wakeups: Seq<Option<LocalDateTime>>,
) -> bool {
    &&& wakeups.len() == searches.len()
    &&& forall|i: int|
        0 <= i < searches.len() ==> may_find(manager, #[trigger] searches[i], wakeups[i])
}

/// The rings that the searches found.
pub open spec fn found_rings(searches: Seq<Search>, wakeups: Seq<Option<LocalDateTime>>) -> Seq<
    ScheduledAlarm,
>
    decreases searches.len(),
{
    if searches.len() == 0 {
        Seq::empty()
    } else {
        let earlier = found_rings(searches.drop_last(), wakeups.drop_last());
        match wakeups.last() {
            Some(moment) => earlier.push(
                ScheduledAlarm { alarm_id: searches.last().alarm_id, next_wakeup: moment },
            ),
            None => earlier,
        }
    }
}

/// `after` holds what `before` held, and the rings besides, soonest first. Where there are no
/// rings to put in, nothing is moved.
pub open spec fn is_filled(
    before: Seq<ScheduledAlarm>,
    rings: Seq<ScheduledAlarm>,
    after: Seq<ScheduledAlarm>,
) -> bool {
    &&& is_soonest_first(after)
    &&& after.to_multiset() == before.to_multiset().add(rings.to_multiset())
    &&& rings.len() == 0 ==> after == before
}

/// `after` is `before` with what the searches find put into the queue.
pub open spec fn is_rescheduled(
    before: ManagerView,
    searches: Seq<Search>,
    after: ManagerView,
) -> bool {
    &&& after == (ManagerView { queue: after.queue, ..before })
    &&& exists|wakeups: Seq<Option<LocalDateTime>>| #[trigger]
        are_findings(before, searches, wakeups) && is_filled(
            before.queue,
            found_rings(searches, wakeups),
            after.queue,
        )
}

/// A command to the alarm manager.
#[derive(Debug, PartialEq, Eq)]
pub enum AlarmCommand {
    Add(Alarm),
    Edit(Alarm),
    Delete(u128),
    List,
    /// Asks which alarms are ringing.
    RingingStatus,
    /// Mutes the output for so many nanoseconds.
    Pause(u128),
    StopAll,
}

impl AlarmCommand {
    pub open spec fn wf(self) -> bool {
        match self {
            AlarmCommand::Add(alarm) => alarm@.wf(),
            AlarmCommand::Edit(alarm) => alarm@.wf(),
            AlarmCommand::Pause(span) => span <= MAX_SPAN_NANOS,
            _ => true,
        }
    }
}

/// The answer to [`AlarmCommand::RingingStatus`].
#[derive(Debug, PartialEq, Eq)]
pub struct RingingStatusReply {
    /// Whether any alarm is ringing.
    pub is_ringing: bool,
    /// The IDs of the alarms that are ringing.
    pub ringing_ids: Vec<u128>,
}

/// What is sent back to whoever gave a command.
#[derive(Debug, PartialEq, Eq)]
pub enum CommandReply {
    Nothing,
    Alarms(Vec<Alarm>),
    Ringing(RingingStatusReply),
}

/// A state to be saved, and the path of the file to save it in.
#[derive(Debug, PartialEq, Eq)]
pub struct SaveJob {
    pub path: Vec<u8>,
    pub state: PersistedState,
}

/// What is to be done about a command once the manager has taken it in.
#[derive(Debug, PartialEq, Eq)]
pub struct CommandOutcome {
    /// The alarms whose ringing is to be cut off.
    pub stopped: Vec<u128>,
    pub reply: CommandReply,
    pub save: Option<SaveJob>,
}

/// What is to be done about a ring that has come due.
#[derive(Debug, PartialEq, Eq)]
pub struct FireOutcome {
    /// The alarm itself, if it was ringing already: its ringing is to be cut off first.
    pub stopped: Vec<u128>,
    /// The alarm that starts to ring.
    pub ring: Option<Alarm>,
    pub save: Option<SaveJob>,
}

/// `list` holds each alarm once.
pub open spec fn is_listing(alarms: Map<u128, AlarmView>, list: Seq<AlarmView>) -> bool {
    &&& forall|i: int|
        0 <= i < list.len() ==> alarms.contains_key((#[trigger] list[i]).id)
            && alarms[list[i].id] == list[i]
    &&& forall|i: int, j: int|
        0 <= i < j < list.len() ==> (#[trigger] list[i]).id != (#[trigger] list[j]).id
    &&& forall|id: u128| #[trigger] alarms.contains_key(id) ==> is_listed(list, id)
}

/// The alarm with this ID is in the list.
pub open spec fn is_listed(list: Seq<AlarmView>, id: u128) -> bool {
    exists|i: int| 0 <= i < list.len() && (#[trigger] list[i]).id == id
}

/// No alarm of the list has an earlier time of day than one that stands ahead of it.
pub open spec fn is_by_time(list: Seq<AlarmView>) -> bool {
    forall|i: int, j: int|
        0 <= i < j < list.len() ==> (#[trigger] list[i]).time.spec_at_or_before(
            (#[trigger] list[j]).time,
        )
}

/// `state` is what is saved of the manager: each alarm once, and the ID of each alarm that is
/// ringing once.
pub open spec fn is_snapshot(manager: ManagerView, state: PersistedView) -> bool {
    &&& is_listing(manager.alarms, state.alarms)
    &&& state.ringing_ids.no_duplicates()
    &&& state.ringing_ids.to_set() == manager.ringing
}

/// `save` saves what the manager holds, if its alarms are kept in a file.
pub open spec fn is_save_of(manager: ManagerView, save: Option<SaveJob>) -> bool {
    match (manager.store_path, save) {
        (Some(path), Some(job)) => job.path@ == path && is_snapshot(manager, job.state@),
        (None, None) => true,
        _ => false,
    }
}

/// The alarm is among those that are stopped at `now`, and its slot of the day has come.
pub open spec fn is_marked(
    alarms: Map<u128, AlarmView>,
    stopped: Set<u128>,
    now: LocalDateTime,
    id: u128,
) -> bool {
    stopped.contains(id) && alarms.contains_key(id) && alarms[id].spec_slot_today(now) is Some
}

/// The slots for which alarms last rang or were stopped, once the alarms of `stopped` have been
/// stopped at `now`, each for its slot of the day if that has come.
pub open spec fn marked(
    rung: Map<u128, Slot>,
    alarms: Map<u128, AlarmView>,
    stopped: Set<u128>,
    now: LocalDateTime,
) -> Map<u128, Slot> {
    Map::new(
        |id: u128| rung.contains_key(id) || is_marked(alarms, stopped, now, id),
        |id: u128|
            if is_marked(alarms, stopped, now, id) {
                alarms[id].spec_slot_today(now)->0
            } else {
                rung[id]
            },
    )
}

/// `after` is what a command given at `now`, when the monotonic clock reads `reading`, makes of
/// `before` at once, and `searches` is what is then to be searched for.
pub open spec fn is_begun(
    before: ManagerView,
    cmd: AlarmCommand,
    now: LocalDateTime,
    reading: u128,
    after: ManagerView,
    searches: Seq<Search>,
) -> bool {
    match cmd {
        AlarmCommand::Add(alarm) => {
            &&& after == (ManagerView {
                alarms: before.alarms.insert(alarm.id, alarm@),
                queue: rings_of_others(before.queue, alarm.id),
                ..before
            })
            &&& searches == seq![Search { alarm_id: alarm.id, base: now }]
        },
        AlarmCommand::Edit(alarm) => {
            &&& after == (ManagerView {
                alarms: before.alarms.insert(alarm.id, alarm@),
                queue: Seq::empty(),
                ringing: before.ringing.remove(alarm.id),
                ..before
            })
            &&& is_full_search(after.alarms, now, Set::empty(), now, searches)
        },
        AlarmCommand::Delete(id) => {
            &&& after == (ManagerView {
                alarms: before.alarms.remove(id),
                queue: Seq::empty(),
                ringing: before.ringing.remove(id),
                rung: before.rung.remove(id),
                ..before
            })
            &&& is_full_search(after.alarms, now, Set::empty(), now, searches)
        },
        AlarmCommand::List => after == before && searches.len() == 0,
        AlarmCommand::RingingStatus => after == before && searches.len() == 0,
        AlarmCommand::Pause(span) => {
            &&& after == (ManagerView { muted_until: Some((reading + span) as u128), ..before })
            &&& searches.len() == 0
        },
        AlarmCommand::StopAll => {
            &&& after == (ManagerView {
                queue: Seq::empty(),
                ringing: Set::empty(),
                rung: marked(before.rung, before.alarms, before.ringing, now),
                ..before
            })
            &&& exists|later: LocalDateTime| #[trigger]
                now.is_followed_by(2, later) && later.wf() && zone_showed(later) && is_full_search(
                    before.alarms,
                    now,
                    before.ringing,
                    later,
                    searches,
                )
        },
    }
}

/// `after` is what a command given at `now`, when the monotonic clock reads `reading`, makes of
/// `before`, with what its searches find in the queue.
pub open spec fn is_command_step(
    before: ManagerView,
    cmd: AlarmCommand,
    now: LocalDateTime,
    reading: u128,
    after: ManagerView,
) -> bool {
    exists|begun: ManagerView, searches: Seq<Search>| #[trigger]
        is_begun(before, cmd, now, reading, begun, searches) && is_rescheduled(
            begun,
            searches,
            after,
        )
}

/// What is done about a command before anything is searched for.
#[derive(Debug)]
pub struct CommandStart {
    /// The alarms whose ringing is to be cut off.
    pub stopped: Vec<u128>,
    pub reply: CommandReply,
    /// What is to be searched for.
    pub searches: Vec<Search>,
    /// Whether what the manager holds in the end is to be saved.
    pub saves: bool,
}

/// The command changes what is kept in the alarms file.
pub open spec fn is_saved(cmd: AlarmCommand) -> bool {
    match cmd {
        AlarmCommand::Add(_) => true,
        AlarmCommand::Edit(_) => true,
        AlarmCommand::Delete(_) => true,
        AlarmCommand::StopAll => true,
        _ => false,
    }
}

/// `stopped` names the alarms that the command stops, and `reply` is the answer to it.
pub open spec fn is_answer(
    before: ManagerView,
    cmd: AlarmCommand,
    stopped: Seq<u128>,
    reply: CommandReply,
) -> bool {
    &&& match cmd {
        AlarmCommand::Edit(alarm) => is_stop_of(before.ringing, alarm.id, stopped),
        AlarmCommand::Delete(id) => is_stop_of(before.ringing, id, stopped),
        AlarmCommand::StopAll => stopped.no_duplicates() && stopped.to_set() == before.ringing,
        _ => stopped.len() == 0,
    }
    &&& match cmd {
        AlarmCommand::List => reply matches CommandReply::Alarms(list) && is_listing(
            before.alarms,
            alarm_views(list@),
        ) && is_by_time(alarm_views(list@)),
        AlarmCommand::RingingStatus => reply matches CommandReply::Ringing(status)
            && is_ringing_status(before.ringing, status),
        _ => reply is Nothing,
    }
}

/// `outcome` is what is to be done about a command that took the manager from `before` to
/// `after`.
pub open spec fn is_command_outcome(
    before: ManagerView,
    cmd: AlarmCommand,
    after: ManagerView,
    outcome: CommandOutcome,
) -> bool {
    &&& is_answer(before, cmd, outcome.stopped@, outcome.reply)
    &&& if is_saved(cmd) {
        is_save_of(after, outcome.save)
    } else {
        outcome.save is None
    }
}

/// `stopped` names the alarm if it was ringing, and nothing else.
pub open spec fn is_stop_of(ringing: Set<u128>, id: u128, stopped: Seq<u128>) -> bool {
    stopped == if ringing.contains(id) {
        seq![id]
    } else {
        Seq::empty()
    }
}

/// `status` tells which alarms are ringing.
pub open spec fn is_ringing_status(ringing: Set<u128>, status: RingingStatusReply) -> bool {
    &&& status.is_ringing <==> status.ringing_ids@.len() > 0
    &&& status.ringing_ids@.no_duplicates()
    &&& status.ringing_ids@.to_set() == ringing
}

/// The slot that a ring belongs to: the alarm's time on the date of the ring.
pub open spec fn slot_of(manager: ManagerView, ring: ScheduledAlarm) -> Slot {
    Slot { date: ring.next_wakeup.date, time: manager.alarms[ring.alarm_id].time }
}

/// `after` is what the soonest pending ring makes of `before` at once when it comes due: its
/// alarm rings, and the slot it rings for is remembered. The next ring of that alarm is then to be searched for,
/// from two seconds later on.
pub open spec fn is_fire_begun(before: ManagerView, after: ManagerView, search: Search) -> bool {
    let due = before.queue[0];
    &&& after == (ManagerView {
        queue: before.queue.drop_first(),
        ringing: before.ringing.insert(due.alarm_id),
        rung: before.rung.insert(due.alarm_id, slot_of(before, due)),
        ..before
    })
    &&& search.alarm_id == due.alarm_id
    &&& due.next_wakeup.is_followed_by(2, search.base)
    &&& search.base.wf()
    &&& zone_showed(search.base)
}

/// `after` is what the soonest pending ring makes of `before` when it comes due, with what the
/// search for the next one finds in the queue.
pub open spec fn is_fire_step(before: ManagerView, after: ManagerView) -> bool {
    exists|begun: ManagerView, search: Search| #[trigger]
        is_fire_begun(before, begun, search) && is_rescheduled(begun, seq![search], after)
}

/// What is done about a ring that has come due before anything is searched for.
#[derive(Debug)]
pub struct FireStart {
    /// The alarm itself, if it was ringing already: its ringing is to be cut off first.
    pub stopped: Vec<u128>,
    /// The alarm that starts to ring.
    pub ring: Option<Alarm>,
    pub search: Search,
}

/// What the manager waits for.
#[derive(Clone, Copy, Debug)]
pub enum Wait {
    /// Nothing is pending: the next command.
    ForCommand,
    /// The next command, or this moment.
    Until(LocalDateTime),
}

/// What the manager waited for.
#[derive(Debug, PartialEq, Eq)]
pub enum Event {
    /// The moment came.
    Deadline,
    Command(AlarmCommand),
    /// Nobody is left who could give a command.
    Closed,
}

/// What is to be done about an event.
#[derive(Debug, PartialEq, Eq)]
pub enum Effect {
    /// Nothing was pending after all.
    Nothing,
    Fired(FireOutcome),
    Handled(CommandOutcome),
    /// The manager has come to its end.
    Stop,
    /// The event falls so close to an end of the calendar that two seconds later has no local
    /// date. Nothing was done about it.
    EndOfCalendar,
}

/// `result` is what comes of a command given at `now`, when the monotonic clock reads `reading`,
/// that took the manager from `before` to `after`. It is none, with nothing done, just where all
/// alarms are to be stopped so close to an end of the calendar that two seconds later has no
/// local date.
pub open spec fn is_command_result(
    before: ManagerView,
    cmd: AlarmCommand,
    now: LocalDateTime,
    reading: u128,
    after: ManagerView,
    result: Option<CommandOutcome>,
) -> bool {
    &&& result is None <==> cmd is StopAll && !now.spec_clear_of_limits()
    &&& match result {
        Some(outcome) => is_command_step(before, cmd, now, reading, after) && is_command_outcome(
            before,
            cmd,
            after,
            outcome,
        ),
        None => after == before,
    }
}

/// `result` is what comes of a command that took the manager from `before` to `after`, at a time
/// that the local clock showed and a reading that the manager's own clock showed.
pub open spec fn is_command_handled(
    before: ManagerView,
    cmd: AlarmCommand,
    after: ManagerView,
    result: Option<CommandOutcome>,
) -> bool {
    exists|now: LocalDateTime, reading: u128|
        now.wf() && reading <= MAX_SPAN_NANOS && local_clock_showed(now) && monotonic_clock_showed(
            before.clock.start,
            reading,
        ) && #[trigger] is_command_result(
            before,
            cmd,
            now,
            reading,
            after,
            result,
        )
}

/// What is left to do about a command, given what came of it.
pub open spec fn effect_of(result: Option<CommandOutcome>) -> Effect {
    match result {
        Some(outcome) => Effect::Handled(outcome),
        None => Effect::EndOfCalendar,
    }
}

/// `effect` is what is to be done about an event at `now`, when the monotonic clock reads
/// `reading`, that took the manager from `before` to `after`.
pub open spec fn is_event_step_at(
    before: ManagerView,
    event: Event,
    now: LocalDateTime,
    reading: u128,
    after: ManagerView,
    effect: Effect,
) -> bool {
    match event {
        Event::Deadline => if before.queue.len() == 0 {
            effect is Nothing && after == before
        } else if !before.queue[0].next_wakeup.spec_clear_of_limits() {
            effect is EndOfCalendar && after == before
        } else {
            effect matches Effect::Fired(outcome) && is_fire_step(before, after) && is_fire_outcome(
                before,
                after,
                outcome,
            )
        },
        Event::Command(cmd) => exists|result: Option<CommandOutcome>| #[trigger]
            is_command_result(before, cmd, now, reading, after, result) && effect == effect_of(
                result,
            ),
        Event::Closed => effect is Stop && after == before,
    }
}

/// `effect` is what is to be done about an event that took the manager from `before` to
/// `after`, at a time that the local clock showed and a reading that the manager's own clock
/// showed.
pub open spec fn is_event_step(
    before: ManagerView,
    event: Event,
    after: ManagerView,
    effect: Effect,
) -> bool {
    exists|now: LocalDateTime, reading: u128|
        now.wf() && reading <= MAX_SPAN_NANOS && local_clock_showed(now) && monotonic_clock_showed(
            before.clock.start,
            reading,
        ) && #[trigger] is_event_step_at(
            before,
            event,
            now,
            reading,
            after,
            effect,
        )
}

/// `outcome` is what is to be done about the soonest pending ring of `before`: its alarm is
/// rung, in place of the ringing that was still going on, and what the manager then holds is
/// saved.
pub open spec fn is_fire_outcome(
    before: ManagerView,
    after: ManagerView,
    outcome: FireOutcome,
) -> bool {
    &&& is_stop_of(before.ringing, before.queue[0].alarm_id, outcome.stopped@)
    &&& outcome.ring matches Some(alarm) && alarm@ == before.alarms[before.queue[0].alarm_id]
    &&& is_save_of(after, outcome.save)
}

/// The alarms among `ids` that exist, in turn, each once.
pub open spec fn resumed(alarms: Map<u128, AlarmView>, ids: Seq<u128>) -> Seq<AlarmView>
    decreases ids.len(),
{
    if ids.len() == 0 {
        Seq::empty()
    } else if alarms.contains_key(ids.last()) && !ids.drop_last().contains(ids.last()) {
        resumed(alarms, ids.drop_last()).push(alarms[ids.last()])
    } else {
        resumed(alarms, ids.drop_last())
    }
}

/// The IDs of the alarms among `ids` that exist.
pub open spec fn resumed_ids(alarms: Map<u128, AlarmView>, ids: Seq<u128>) -> Set<u128> {
    Set::new(|id: u128| ids.contains(id) && alarms.contains_key(id))
}

/// `manager` is one that starts at `now` with what was saved in the file at `path`. The alarms
/// that were ringing are ringing again, and the next ring of each alarm is pending.
pub open spec fn is_restored(
    path: Seq<u8>,
    state: PersistedView,
    now: LocalDateTime,
    manager: ManagerView,
) -> bool {
    &&& manager.alarms == alarms_by_id(state.alarms)
    &&& manager.ringing == resumed_ids(manager.alarms, state.ringing_ids)
    &&& manager.rung == Map::<u128, Slot>::empty()
    &&& manager.muted_until is None
    &&& manager.store_path == Some(path)
    &&& exists|searches: Seq<Search>| #[trigger]
        is_full_search(manager.alarms, now, Set::empty(), now, searches) && is_rescheduled(
            ManagerView { queue: Seq::empty(), ..manager },
            searches,
            manager,
        )
}

/// `manager` is one that starts with what was saved in the file at `path`, at a time that the
/// local clock showed.
pub open spec fn is_restored_now(
    path: Seq<u8>,
    state: PersistedView,
    manager: ManagerView,
) -> bool {
    exists|now: LocalDateTime|
        now.wf() && now.time.nanos < NANOS_PER_SECOND && local_clock_showed(now)
            && #[trigger] is_restored(path, state, now, manager)
}

/// A manager that starts with what was saved, and the alarms that are to be rung at once.
pub struct RestoredManager {
    pub manager: AlarmManager,
    pub resumed: Vec<Alarm>,
}

/// The monotonic clock reads `deadline` when `wakeup` comes, if it reads `reading` when local
/// clocks show `now`. A moment that has passed comes at once.
pub open spec fn is_deadline(
    wakeup: LocalDateTime,
    now: LocalDateTime,
    reading: u128,
    deadline: u128,
) -> bool {
    deadline == reading + wakeup.nanos_left(now)
}

/// The clock reads `deadline` when `wakeup` comes, by a time that the local clock showed and a
/// reading that the clock itself showed.
pub open spec fn is_deadline_for(
    clock: MonotonicClock,
    wakeup: LocalDateTime,
    deadline: u128,
) -> bool {
    exists|now: LocalDateTime, reading: u128|
        now.wf() && now.time.nanos < NANOS_PER_SECOND && reading <= MAX_SPAN_NANOS
            && local_clock_showed(now) && monotonic_clock_showed(clock.start, reading)
            && #[trigger] is_deadline(wakeup, now, reading, deadline)
}

/// Keeps alarms, and decides when they ring.
pub struct AlarmManager {
    alarms: HashMap<u128, Alarm>,
    queue: WakeupQueue,
    ringing: HashSet<u128>,
    rung: HashMap<u128, Slot>,
    mute_status: MuteStatus,
    store_path: Option<Vec<u8>>,
}

/// What each alarm of the map says.
pub open spec fn alarm_map_view(alarms: Map<u128, Alarm>) -> Map<u128, AlarmView> {
    Map::new(|id: u128| alarms.contains_key(id), |id: u128| alarms[id]@)
}

impl View for AlarmManager {
    type V = ManagerView;

    closed spec fn view(&self) -> ManagerView {
        ManagerView {
            alarms: alarm_map_view(self.alarms@),
            queue: self.queue@,
            ringing: self.ringing@,
            rung: self.rung@,
            clock: self.mute_status.spec_clock(),
            muted_until: self.mute_status.spec_until(),
            store_path: match self.store_path {
                Some(path) => Some(path@),
                None => None,
            },
        }
    }
}

/// The keys of the map, each once.
fn keys_of(alarms: &HashMap<u128, Alarm>) -> (r: Vec<u128>)
    ensures
        r@.no_duplicates(),
        r@.to_set() == alarms@.dom(),
{
    let mut ids: Vec<u128> = Vec::new();
    for id in iter: alarms.keys()
        invariant
            ids@.len() == iter.index(),
            forall|i: int| 0 <= i < ids@.len() ==> ids@[i] == *iter.seq()[i],
            iter.seq() == vstd::std_specs::iter::IteratorSpec::remaining(
                &vstd::std_specs::hash::spec_keys_iter(alarms),
            ),
    {
        ids.push(*id);
    }
    assert(ids@ =~= vstd::std_specs::iter::IteratorSpec::remaining(
        &vstd::std_specs::hash::spec_keys_iter(alarms),
    ).unref());
    ids
}

/// The members of the set, each once.
fn members_of(set: &HashSet<u128>) -> (r: Vec<u128>)
    ensures
        r@.no_duplicates(),
        r@.to_set() == set@,
{
    let mut ids: Vec<u128> = Vec::new();
    for id in iter: set.iter()
        invariant
            ids@.len() == iter.index(),
            forall|i: int| 0 <= i < ids@.len() ==> ids@[i] == *iter.seq()[i],
            iter.seq() == vstd::std_specs::iter::IteratorSpec::remaining(
                &vstd::std_specs::hash::spec_hash_keys_iter(set),
            ),
    {
        ids.push(*id);
    }
    assert(ids@ =~= vstd::std_specs::iter::IteratorSpec::remaining(
        &vstd::std_specs::hash::spec_hash_keys_iter(set),
    ).unref());
    ids
}

/// `list` holds each of the alarms with the given IDs once.
spec fn is_partial_listing(
    alarms: Map<u128, AlarmView>,
    ids: Seq<u128>,
    list: Seq<AlarmView>,
) -> bool {
    &&& forall|i: int|
        0 <= i < list.len() ==> ids.contains((#[trigger] list[i]).id) && alarms[list[i].id]
            == list[i]
    &&& forall|i: int, j: int|
        0 <= i < j < list.len() ==> (#[trigger] list[i]).id != (#[trigger] list[j]).id
    &&& forall|k: int| 0 <= k < ids.len() ==> is_listed(list, #[trigger] ids[k])
}

/// Putting one more alarm into a list of some alarms gives a list of those and that one.
proof fn lemma_partial_listing_grows(
    alarms: Map<u128, AlarmView>,
    ids: Seq<u128>,
    before: Seq<AlarmView>,
    id: u128,
    at: int,
    after: Seq<AlarmView>,
)
    requires
        is_partial_listing(alarms, ids, before),
        alarms[id].id == id,
        !ids.contains(id),
        0 <= at <= before.len(),
        after == before.insert(at, alarms[id]),
    ensures
        is_partial_listing(alarms, ids.push(id), after),
{
    assert forall|i: int| 0 <= i < after.len() implies ids.push(id).contains(
        (#[trigger] after[i]).id,
    ) && alarms[after[i].id] == after[i] by {
        if i == at {
            assert(ids.push(id)[ids.len() as int] == id);
        } else {
            let j: int = if i < at {
                i
            } else {
                i - 1
            };
            assert(after[i] == before[j]);
            let k = choose|k: int| 0 <= k < ids.len() && ids[k] == before[j].id;
            assert(ids.push(id)[k] == before[j].id);
        }
    }
    assert forall|i: int, j: int| 0 <= i < j < after.len() implies (#[trigger] after[i]).id != (
    #[trigger] after[j]).id by {
        if i < at {
            assert(after[i] == before[i]);
        } else if i > at {
            assert(after[i] == before[i - 1]);
        }
        if j < at {
            assert(after[j] == before[j]);
        } else if j > at {
            assert(after[j] == before[j - 1]);
        }
    }
    assert forall|k: int| 0 <= k < ids.push(id).len() implies is_listed(
        after,
        #[trigger] ids.push(id)[k],
    ) by {
        if k == ids.len() {
            assert(after[at].id == id);
        } else {
            assert(is_listed(before, ids[k]));
            let i = choose|i: int| 0 <= i < before.len() && (#[trigger] before[i]).id == ids[k];
            if i < at {
                assert(after[i].id == ids[k]);
            } else {
                assert(after[i + 1].id == ids[k]);
            }
        }
    }
}

/// A list of the alarms with all IDs is a list of all alarms.
proof fn lemma_full_listing(
    alarms: Map<u128, AlarmView>,
    ids: Seq<u128>,
    list: Seq<AlarmView>,
)
    requires
        is_partial_listing(alarms, ids, list),
        ids.to_set() == alarms.dom(),
    ensures
        is_listing(alarms, list),
{
    assert forall|i: int| 0 <= i < list.len() implies alarms.contains_key(
        (#[trigger] list[i]).id,
    ) by {
        assert(ids.to_set().contains(list[i].id));
    }
    assert forall|id: u128| #[trigger] alarms.contains_key(id) implies is_listed(list, id) by {
        assert(ids.to_set().contains(id));
        let k = choose|k: int| 0 <= k < ids.len() && ids[k] == id;
        assert(is_listed(list, ids[k]));
    }
}

/// Puts the alarm into a list in the order of times of day, behind those of the same time.
fn insert_by_time(list: &mut Vec<Alarm>, alarm: Alarm) -> (r: usize)
    requires
        is_by_time(alarm_views(old(list)@)),
    ensures
        is_by_time(alarm_views(final(list)@)),
        r <= old(list)@.len(),
        alarm_views(final(list)@) == alarm_views(old(list)@).insert(r as int, alarm@),
{
    let mut at: usize = 0;
    while at < list.len() && list[at].time.at_or_before(&alarm.time)
        invariant
            at <= list@.len(),
            list@ == old(list)@,
            forall|i: int|
                0 <= i < at ==> (#[trigger] alarm_views(list@)[i]).time.spec_at_or_before(
                    alarm.time,
                ),
        decreases list.len() - at,
    {
        at = at + 1;
    }
    let ghost before = alarm_views(list@);
    let ghost view = alarm@;
    list.insert(at, alarm);
    proof {
        let after = alarm_views(list@);
        assert(after =~= before.insert(at as int, view));
        assert forall|i: int, j: int| 0 <= i < j < after.len() implies (
        #[trigger] after[i]).time.spec_at_or_before((#[trigger] after[j]).time) by {
            if j > at {
                assert(after[j] == before[j - 1]);
                assert(view.time.spec_at_or_before(before[at as int].time));
            }
        }
    }
    at
}

/// Filing an alarm under its ID keeps the manager well-formed.
proof fn lemma_filing_keeps_wf(before: ManagerView, alarm: AlarmView)
    requires
        before.wf(),
        alarm.wf(),
    ensures
        (ManagerView { alarms: before.alarms.insert(alarm.id, alarm), ..before }).wf(),
{
    let after = ManagerView { alarms: before.alarms.insert(alarm.id, alarm), ..before };
    assert forall|i: int| 0 <= i < after.queue.len() implies after.alarms.contains_key(
        (#[trigger] after.queue[i]).alarm_id,
    ) by {
        assert(before.alarms.contains_key(before.queue[i].alarm_id));
    }
}

/// Putting in what one more search found, or nothing where it found nothing, goes on with the
/// filling of a queue.
proof fn lemma_filling_goes_on(
    before: Seq<ScheduledAlarm>,
    searches: Seq<Search>,
    wakeups: Seq<Option<LocalDateTime>>,
    next: int,
    filled: Seq<ScheduledAlarm>,
    after: Seq<ScheduledAlarm>,
)
    requires
        0 <= next < searches.len(),
        wakeups.len() == searches.len(),
        is_filled(before, found_rings(searches.take(next), wakeups.take(next)), filled),
        is_enqueued(searches[next].alarm_id, wakeups[next], filled, after),
        is_soonest_first(after),
    ensures
        is_filled(before, found_rings(searches.take(next + 1), wakeups.take(next + 1)), after),
{
    broadcast use vstd::seq_lib::group_to_multiset_ensures;

    let earlier = found_rings(searches.take(next), wakeups.take(next));
    assert(searches.take(next + 1).drop_last() =~= searches.take(next));
    assert(wakeups.take(next + 1).drop_last() =~= wakeups.take(next));
    if let Some(moment) = wakeups[next] {
        let ring = ScheduledAlarm { alarm_id: searches[next].alarm_id, next_wakeup: moment };
        let at = choose|at: int| is_insertion_at(filled, ring, at, after);
        vstd::seq_lib::to_multiset_insert(filled, at, ring);
        assert(found_rings(searches.take(next + 1), wakeups.take(next + 1)) == earlier.push(ring));
        assert(after.to_multiset() =~= before.to_multiset().add(earlier.push(ring).to_multiset()));
    }
}

/// The alarms by their IDs.
fn index_by_id(alarms: Vec<Alarm>) -> (r: HashMap<u128, Alarm>)
    ensures
        alarm_map_view(r@) == alarms_by_id(alarm_views(alarms@)),
{
    let mut by_id: HashMap<u128, Alarm> = HashMap::new();
    let ghost views = alarm_views(alarms@);
    assert(alarm_map_view(by_id@) =~= alarms_by_id(views.take(0)));
    for alarm in iter: alarms
        invariant
            views == alarm_views(iter.seq()),
            alarm_map_view(by_id@) == alarms_by_id(views.take(iter.index() as int)),
    {
        let ghost before = by_id@;
        let ghost view = alarm@;
        let ghost at: int = iter.index() as int;
        let id: u128 = alarm.id;
        by_id.insert(id, alarm);
        proof {
            assert(view == views[at]);
            assert(views.take(at + 1).drop_last() =~= views.take(at));
            assert(alarm_map_view(by_id@) =~= alarm_map_view(before).insert(id, view));
        }
    }
    assert(views.take(views.len() as int) =~= views);
    by_id
}

/// The alarms by their IDs are each filed under their own, and are among those given.
proof fn lemma_alarms_by_id(alarms: Seq<AlarmView>)
    ensures
        forall|id: u128| #[trigger]
            alarms_by_id(alarms).contains_key(id) ==> alarms_by_id(alarms)[id].id == id
                && alarms.contains(alarms_by_id(alarms)[id]),
    decreases alarms.len(),
{
    if alarms.len() > 0 {
        lemma_alarms_by_id(alarms.drop_last());
        assert forall|id: u128| #[trigger] alarms_by_id(alarms).contains_key(id) implies
            alarms_by_id(alarms)[id].id == id && alarms.contains(alarms_by_id(alarms)[id]) by {
            if id == alarms.last().id {
                assert(alarms[alarms.len() - 1] == alarms.last());
            } else {
                let alarm = alarms_by_id(alarms.drop_last())[id];
                let k = choose|k: int|
                    0 <= k < alarms.drop_last().len() && alarms.drop_last()[k] == alarm;
                assert(alarms[k] == alarm);
            }
        }
    }
}

impl AlarmManager {
    /// A manager with no alarms, which keeps its alarms in no file.
    pub fn new() -> (r: AlarmManager)
        ensures
            r@.wf(),
            r@ == ManagerView::empty(r@.clock),
    {
        let r = AlarmManager {
            alarms: HashMap::new(),
            queue: WakeupQueue::new(),
            ringing: HashSet::new(),
            rung: HashMap::new(),
            mute_status: MuteStatus::new(MonotonicClock::new()),
            store_path: None,
        };
        assert(r@.alarms =~= Map::empty());
        r
    }

    /// A manager that starts at `now` with what was saved in the file at `path`, and saves its
    /// alarms there.
    pub fn with_store_at(path: Vec<u8>, state: PersistedState, now: LocalDateTime) -> (r:
        RestoredManager)
        requires
            state@.wf(),
            now.wf(),
        ensures
            r.manager@.wf(),
            is_restored(path@, state@, now, r.manager@),
            alarm_views(r.resumed@) == resumed(r.manager@.alarms, state@.ringing_ids),
    {
        let ghost saved = state@;
        let mut manager = AlarmManager {
            alarms: index_by_id(state.alarms),
            queue: WakeupQueue::new(),
            ringing: HashSet::new(),
            rung: HashMap::new(),
            mute_status: MuteStatus::new(MonotonicClock::new()),
            store_path: Some(path),
        };
        proof {
            lemma_alarms_by_id(saved.alarms);
            assert(manager@.wf());
        }
        let searches: Vec<Search> = manager.rebuild_queue(now);
        let ghost emptied = manager@;
        manager.schedule_alarms(&searches);
        let ghost filled = manager@;
        let ghost alarms = manager@.alarms;
        let ghost queue = manager@.queue;
        let ids: Vec<u128> = state.ringing_ids;
        let mut ringing: Vec<Alarm> = Vec::new();
        let mut next: usize = 0;
        assert(manager@.ringing =~= resumed_ids(alarms, ids@.take(0)));
        assert(alarm_views(ringing@) =~= resumed(alarms, ids@.take(0)));
        while next < ids.len()
            invariant
                next <= ids@.len(),
                manager@.wf(),
                manager@.alarms == alarms,
                manager@.queue == queue,
                manager@.rung == Map::<u128, Slot>::empty(),
                manager@.muted_until is None,
                manager@.store_path == Some(path@),
                manager@.ringing == resumed_ids(alarms, ids@.take(next as int)),
                alarm_views(ringing@) == resumed(alarms, ids@.take(next as int)),
            decreases ids.len() - next,
        {
            let id: u128 = ids[next];
            let ghost before = alarm_views(ringing@);
            let ghost was_ringing = manager@.ringing;
            if !manager.ringing.contains(&id) {
                if let Some(alarm) = manager.start_ringing(id) {
                    ringing.push(alarm);
                }
            }
            proof {
                let done = ids@.take(next as int);
                let more = ids@.take(next + 1);
                assert(more =~= done.push(id));
                assert(more.drop_last() =~= done);
                assert forall|other: u128| more.contains(other) <==> done.contains(other) || other
                    == id by {
                    if done.contains(other) {
                        let k = choose|k: int| 0 <= k < done.len() && done[k] == other;
                        assert(more[k] == other);
                    }
                    if other == id {
                        assert(more[next as int] == id);
                    }
                }
                if alarms.contains_key(id) && !done.contains(id) {
                    assert(alarm_views(ringing@) =~= before.push(alarms[id]));
                    assert(manager@.ringing =~= resumed_ids(alarms, more));
                } else {
                    assert(was_ringing =~= resumed_ids(alarms, more));
                }
            }
            next = next + 1;
        }
        proof {
            assert(ids@.take(next as int) =~= ids@);
            let wakeups = choose|wakeups: Seq<Option<LocalDateTime>>| #[trigger]
                are_findings(emptied, searches@, wakeups) && is_filled(
                    emptied.queue,
                    found_rings(searches@, wakeups),
                    filled.queue,
                );
            let start = ManagerView { queue: Seq::empty(), ..manager@ };
            assert forall|i: int| 0 <= i < searches@.len() implies may_find(
                start,
                #[trigger] searches@[i],
                wakeups[i],
            ) by {
                assert(may_find(emptied, searches@[i], wakeups[i]));
            }
            assert(are_findings(start, searches@, wakeups));
            assert(is_rescheduled(
                ManagerView { queue: Seq::empty(), ..manager@ },
                searches@,
                manager@,
            ));
        }
        RestoredManager { manager, resumed: ringing }
    }

    /// A manager that starts now with what was saved in the file at `path`, and saves its
    /// alarms there.
    pub fn with_store(path: Vec<u8>, state: PersistedState) -> (r: RestoredManager)
        requires
            state@.wf(),
        ensures
            r.manager@.wf(),
            is_restored_now(path@, state@, r.manager@),
            alarm_views(r.resumed@) == resumed(r.manager@.alarms, state@.ringing_ids),
    {
        let now = local_now();
        AlarmManager::with_store_at(path, state, now)
    }

    /// The mute that whoever makes the noise is to look at.
    pub fn mute_status(&self) -> (r: MuteStatus)
        ensures
            r.spec_until() == self@.muted_until,
            r.spec_clock() == self@.clock,
    {
        self.mute_status
    }

    /// A handle to give the manager commands by.
    pub fn handle(&self) -> (r: AlarmHandle)
        ensures
            r == AlarmHandle,
    {
        AlarmHandle
    }

    /// Puts a ring of the alarm at `wakeup` into the queue, if there is such a moment.
    pub fn enqueue(&mut self, alarm_id: u128, wakeup: Option<LocalDateTime>)
        requires
            old(self)@.wf(),
            old(self)@.alarms.contains_key(alarm_id),
            wakeup matches Some(moment) ==> moment.wf(),
        ensures
            final(self)@.wf(),
            is_enqueued(alarm_id, wakeup, old(self)@.queue, final(self)@.queue),
            final(self)@ == (ManagerView { queue: final(self)@.queue, ..old(self)@ }),
    {
        if let Some(next_wakeup) = wakeup {
            let ring = ScheduledAlarm { alarm_id, next_wakeup };
            self.queue.push(ring);
            proof {
                let before = old(self)@.queue;
                let at = choose|at: int| is_insertion_at(before, ring, at, self.queue@);
                assert forall|i: int| 0 <= i < self.queue@.len() implies (
                #[trigger] self.queue@[i]).next_wakeup.wf() && self@.alarms.contains_key(
                    self.queue@[i].alarm_id,
                ) by {
                    if i < at {
                        assert(self.queue@[i] == before[i]);
                    } else if i > at {
                        assert(self.queue@[i] == before[i - 1]);
                    }
                }
            }
        }
    }

    /// Puts what the searches found into the queue.
    pub fn enqueue_all(&mut self, searches: &Vec<Search>, wakeups: &Vec<Option<LocalDateTime>>)
        requires
            old(self)@.wf(),
            wakeups@.len() == searches@.len(),
            forall|i: int|
                0 <= i < searches@.len() && wakeups@[i] is Some ==> old(
                    self,
                )@.alarms.contains_key((#[trigger] searches@[i]).alarm_id)
                    && wakeups@[i]->0.wf(),
        ensures
            final(self)@.wf(),
            final(self)@ == (ManagerView { queue: final(self)@.queue, ..old(self)@ }),
            is_filled(old(self)@.queue, found_rings(searches@, wakeups@), final(self)@.queue),
    {
        let ghost before = self@.queue;
        let mut next: usize = 0;
        proof {
            let none = found_rings(searches@.take(0), wakeups@.take(0));
            assert(none.to_multiset() =~= vstd::multiset::Multiset::empty()) by {
                broadcast use vstd::seq_lib::group_to_multiset_ensures;

            }
            assert(before.to_multiset() =~= before.to_multiset().add(none.to_multiset()));
        }
        while next < searches.len()
            invariant
                next <= searches@.len(),
                wakeups@.len() == searches@.len(),
                before == old(self)@.queue,
                self@.wf(),
                self@ == (ManagerView { queue: self@.queue, ..old(self)@ }),
                forall|i: int|
                    0 <= i < searches@.len() && wakeups@[i] is Some ==> old(
                        self,
                    )@.alarms.contains_key((#[trigger] searches@[i]).alarm_id)
                        && wakeups@[i]->0.wf(),
                is_filled(
                    before,
                    found_rings(searches@.take(next as int), wakeups@.take(next as int)),
                    self@.queue,
                ),
            decreases searches.len() - next,
        {
            let ghost filled = self@.queue;
            let search = searches[next];
            assert(search == searches@[next as int]);
            if let Some(moment) = wakeups[next] {
                self.enqueue(search.alarm_id, Some(moment));
            }
            proof {
                lemma_filling_goes_on(
                    before,
                    searches@,
                    wakeups@,
                    next as int,
                    filled,
                    self@.queue,
                );
            }
            next = next + 1;
        }
        assert(searches@.take(next as int) =~= searches@);
        assert(wakeups@.take(next as int) =~= wakeups@);
    }

    /// The slot for which the alarm last rang or was stopped, if there is one.
    pub fn last_slot(&self, id: u128) -> (r: Option<Slot>)
        ensures
            r == rung_slot(self@.rung, id),
    {
        match self.rung.get(&id) {
            Some(slot) => Some(*slot),
            None => None,
        }
    }

    /// What the searches find.
    pub fn find_wakeups(&self, searches: &Vec<Search>) -> (r: Vec<Option<LocalDateTime>>)
        requires
            self@.wf(),
            forall|i: int| 0 <= i < searches@.len() ==> (#[trigger] searches@[i]).base.wf(),
        ensures
            are_findings(self@, searches@, r@),
            forall|i: int|
                0 <= i < searches@.len() && r@[i] is Some ==> self@.alarms.contains_key(
                    (#[trigger] searches@[i]).alarm_id,
                ) && r@[i]->0.wf(),
    {
        let mut wakeups: Vec<Option<LocalDateTime>> = Vec::new();
        let mut next: usize = 0;
        while next < searches.len()
            invariant
                next <= searches@.len(),
                next == wakeups@.len(),
                self@.wf(),
                forall|i: int| 0 <= i < searches@.len() ==> (#[trigger] searches@[i]).base.wf(),
                forall|i: int|
                    0 <= i < next ==> may_find(self@, #[trigger] searches@[i], wakeups@[i]),
                forall|i: int|
                    0 <= i < next && wakeups@[i] is Some ==> self@.alarms.contains_key(
                        (#[trigger] searches@[i]).alarm_id,
                    ) && wakeups@[i]->0.wf(),
            decreases searches.len() - next,
        {
            let search = searches[next];
            assert(search == searches@[next as int]);
            let wakeup = match self.alarms.get(&search.alarm_id) {
                Some(alarm) => {
                    assert(self@.alarms.contains_key(search.alarm_id));
                    alarm.next_wakeup_but(search.base, self.last_slot(search.alarm_id))
                },
                None => None,
            };
            wakeups.push(wakeup);
            next = next + 1;
        }
        wakeups
    }

    /// Searches, and puts what is found into the queue.
    fn schedule_alarms(&mut self, searches: &Vec<Search>)
        requires
            old(self)@.wf(),
            forall|i: int| 0 <= i < searches@.len() ==> (#[trigger] searches@[i]).base.wf(),
        ensures
            final(self)@.wf(),
            is_rescheduled(old(self)@, searches@, final(self)@),
    {
        let wakeups = self.find_wakeups(searches);
        self.enqueue_all(searches, &wakeups);
    }

    /// A search for each alarm. The alarms that were `held` are looked at from `later` on, the
    /// others from `now` on.
    fn full_search(&self, now: LocalDateTime, held: &HashSet<u128>, later: LocalDateTime) -> (r:
        Vec<Search>)
        requires
            now.wf(),
            later.wf(),
        ensures
            is_full_search(self@.alarms, now, held@, later, r@),
            forall|i: int| 0 <= i < r@.len() ==> (#[trigger] r@[i]).base.wf(),
    {
        let ids: Vec<u128> = keys_of(&self.alarms);
        let mut searches: Vec<Search> = Vec::new();
        let mut next: usize = 0;
        while next < ids.len()
            invariant
                next <= ids@.len(),
                next == searches@.len(),
                now.wf(),
                later.wf(),
                forall|i: int|
                    0 <= i < next ==> (#[trigger] searches@[i]) == (Search {
                        alarm_id: ids@[i],
                        base: base_of(ids@[i], now, held@, later),
                    }),
            decreases ids.len() - next,
        {
            let id: u128 = ids[next];
            let base = if held.contains(&id) {
                later
            } else {
                now
            };
            searches.push(Search { alarm_id: id, base });
            next = next + 1;
        }
        proof {
            assert forall|i: int| 0 <= i < searches@.len() implies self@.alarms.contains_key(
                (#[trigger] searches@[i]).alarm_id,
            ) by {
                assert(ids@.to_set().contains(ids@[i]));
            }
            assert forall|id: u128| #[trigger] self@.alarms.contains_key(id) implies is_searched(
                searches@,
                id,
            ) by {
                assert(ids@.to_set().contains(id));
                let k = choose|k: int| 0 <= k < ids@.len() && ids@[k] == id;
                assert(searches@[k].alarm_id == id);
            }
        }
        searches
    }

    /// Empties the queue. It is then to be filled with what a search for each alarm after `now`
    /// finds.
    fn rebuild_queue(&mut self, now: LocalDateTime) -> (r: Vec<Search>)
        requires
            now.wf(),
        ensures
            final(self)@ == (ManagerView { queue: Seq::empty(), ..old(self)@ }),
            is_full_search(old(self)@.alarms, now, Set::empty(), now, r@),
            forall|i: int| 0 <= i < r@.len() ==> (#[trigger] r@[i]).base.wf(),
    {
        self.queue.clear();
        let held: HashSet<u128> = HashSet::new();
        self.full_search(now, &held, now)
    }

    /// Remembers for each of the alarms, which are stopped at `now`, its slot of the day, if that
    /// has come.
    fn mark_stopped(&mut self, ids: &Vec<u128>, now: LocalDateTime)
        requires
            now.wf(),
        ensures
            final(self)@ == (ManagerView {
                rung: marked(old(self)@.rung, old(self)@.alarms, ids@.to_set(), now),
                ..old(self)@
            }),
    {
        let ghost rung = self@.rung;
        let ghost alarms = self@.alarms;
        let mut next: usize = 0;
        assert(rung =~= marked(rung, alarms, ids@.take(0).to_set(), now));
        while next < ids.len()
            invariant
                next <= ids@.len(),
                now.wf(),
                rung == old(self)@.rung,
                alarms == old(self)@.alarms,
                self@ == (ManagerView {
                    rung: marked(rung, alarms, ids@.take(next as int).to_set(), now),
                    ..old(self)@
                }),
            decreases ids.len() - next,
        {
            let id: u128 = ids[next];
            let slot: Option<Slot> = match self.alarms.get(&id) {
                Some(alarm) => alarm.slot_today(now),
                None => None,
            };
            assert(alarms.contains_key(id) <==> self.alarms@.contains_key(id));
            if let Some(slot) = slot {
                self.rung.insert(id, slot);
            }
            proof {
                let done = ids@.take(next as int);
                let more = ids@.take(next + 1);
                assert(more =~= done.push(id));
                assert forall|other: u128| #[trigger]
                    more.to_set().contains(other) <==> done.to_set().contains(other) || other
                        == id by {
                    if done.contains(other) {
                        let k = choose|k: int| 0 <= k < done.len() && done[k] == other;
                        assert(more[k] == other);
                    }
                    assert(more[next as int] == id);
                }
                assert(self@.rung =~= marked(rung, alarms, more.to_set(), now));
            }
            next = next + 1;
        }
        assert(ids@.take(next as int) =~= ids@);
    }

    /// Counts the alarm as ringing, if it exists. The alarm that is returned is to be rung.
    fn start_ringing(&mut self, alarm_id: u128) -> (r: Option<Alarm>)
        requires
            old(self)@.wf(),
        ensures
            final(self)@.wf(),
            old(self)@.alarms.contains_key(alarm_id) ==> r is Some && r->0@ == old(
                self,
            )@.alarms[alarm_id] && final(self)@ == (ManagerView {
                ringing: old(self)@.ringing.insert(alarm_id),
                ..old(self)@
            }),
            !old(self)@.alarms.contains_key(alarm_id) ==> r is None && final(self)@ == old(self)@,
    {
        let alarm = match self.alarms.get(&alarm_id) {
            Some(alarm) => alarm.clone(),
            None => {
                return None;
            },
        };
        self.ringing.insert(alarm_id);
        Some(alarm)
    }

    /// Counts the alarm as ringing no longer. The IDs that are returned are to be cut off.
    fn stop_ringing(&mut self, id: u128) -> (r: Vec<u128>)
        ensures
            is_stop_of(old(self)@.ringing, id, r@),
            final(self)@ == (ManagerView {
                ringing: old(self)@.ringing.remove(id),
                ..old(self)@
            }),
    {
        let mut stopped: Vec<u128> = Vec::new();
        if self.ringing.remove(&id) {
            stopped.push(id);
        }
        assert(stopped@ =~= if old(self)@.ringing.contains(id) {
            seq![id]
        } else {
            Seq::empty()
        });
        assert(self@.ringing =~= old(self)@.ringing.remove(id));
        stopped
    }

    /// The alarms, each once, in the order of their times of day.
    fn listed_by_time(&self) -> (r: Vec<Alarm>)
        requires
            self@.wf(),
        ensures
            is_listing(self@.alarms, alarm_views(r@)),
            is_by_time(alarm_views(r@)),
    {
        let ids: Vec<u128> = keys_of(&self.alarms);
        let mut list: Vec<Alarm> = Vec::new();
        let mut next: usize = 0;
        while next < ids.len()
            invariant
                next <= ids@.len(),
                self@.wf(),
                ids@.no_duplicates(),
                ids@.to_set() == self.alarms@.dom(),
                is_partial_listing(self@.alarms, ids@.take(next as int), alarm_views(list@)),
                is_by_time(alarm_views(list@)),
            decreases ids.len() - next,
        {
            let id: u128 = ids[next];
            assert(ids@.to_set().contains(id));
            if let Some(alarm) = self.alarms.get(&id) {
                let ghost before = alarm_views(list@);
                let at: usize = insert_by_time(&mut list, alarm.clone());
                proof {
                    assert(self@.alarms.contains_key(id));
                    assert(ids@.take(next + 1) =~= ids@.take(next as int).push(id));
                    assert(!ids@.take(next as int).contains(id));
                    lemma_partial_listing_grows(
                        self@.alarms,
                        ids@.take(next as int),
                        before,
                        id,
                        at as int,
                        alarm_views(list@),
                    );
                }
            }
            next = next + 1;
        }
        proof {
            assert(ids@.take(next as int) =~= ids@);
            assert(self@.alarms.dom() =~= self.alarms@.dom());
            lemma_full_listing(self@.alarms, ids@, alarm_views(list@));
        }
        list
    }

    /// What is to be saved of the manager.
    fn snapshot(&self) -> (r: PersistedState)
        requires
            self@.wf(),
        ensures
            is_snapshot(self@, r@),
    {
        let ids: Vec<u128> = keys_of(&self.alarms);
        let mut list: Vec<Alarm> = Vec::new();
        let mut next: usize = 0;
        while next < ids.len()
            invariant
                next <= ids@.len(),
                self@.wf(),
                ids@.no_duplicates(),
                ids@.to_set() == self.alarms@.dom(),
                is_partial_listing(self@.alarms, ids@.take(next as int), alarm_views(list@)),
            decreases ids.len() - next,
        {
            let id: u128 = ids[next];
            assert(ids@.to_set().contains(id));
            if let Some(alarm) = self.alarms.get(&id) {
                let ghost before = alarm_views(list@);
                list.push(alarm.clone());
                proof {
                    assert(self@.alarms.contains_key(id));
                    assert(ids@.take(next + 1) =~= ids@.take(next as int).push(id));
                    assert(!ids@.take(next as int).contains(id));
                    assert(alarm_views(list@) =~= before.insert(
                        before.len() as int,
                        self@.alarms[id],
                    ));
                    lemma_partial_listing_grows(
                        self@.alarms,
                        ids@.take(next as int),
                        before,
                        id,
                        before.len() as int,
                        alarm_views(list@),
                    );
                }
            }
            next = next + 1;
        }
        proof {
            assert(ids@.take(next as int) =~= ids@);
            assert(self@.alarms.dom() =~= self.alarms@.dom());
            lemma_full_listing(self@.alarms, ids@, alarm_views(list@));
        }
        PersistedState { alarms: list, ringing_ids: members_of(&self.ringing) }
    }

    /// The save that is due, if the alarms are kept in a file.
    fn persist(&self) -> (r: Option<SaveJob>)
        requires
            self@.wf(),
        ensures
            is_save_of(self@, r),
    {
        match &self.store_path {
            Some(path) => Some(SaveJob { path: copy_path(path), state: self.snapshot() }),
            None => None,
        }
    }

    /// Takes in a command given at `now`, when the monotonic clock reads `reading`, up to the
    /// searches that it asks for.
    pub fn begin_command(&mut self, cmd: AlarmCommand, now: LocalDateTime, reading: u128) -> (r:
        CommandStart)
        requires
            old(self)@.wf(),
            cmd.wf(),
            now.wf(),
            cmd is StopAll ==> now.spec_clear_of_limits(),
            reading <= MAX_SPAN_NANOS,
        ensures
            final(self)@.wf(),
            is_begun(old(self)@, cmd, now, reading, final(self)@, r.searches@),
            is_answer(old(self)@, cmd, r.stopped@, r.reply),
            r.saves == is_saved(cmd),
            forall|i: int| 0 <= i < r.searches@.len() ==> (#[trigger] r.searches@[i]).base.wf(),
    {
        let reply = CommandReply::Nothing;
        match cmd {
            AlarmCommand::Add(alarm) => {
                let id: u128 = alarm.id;
                let ghost added = alarm@;
                self.alarms.insert(id, alarm);
                assert(self@.alarms =~= old(self)@.alarms.insert(id, added));
                proof {
                    lemma_filing_keeps_wf(old(self)@, added);
                }
                let ghost filed = self@;
                self.queue.drop_alarm(id);
                proof {
                    lemma_rings_of_others(filed.queue, id);
                    assert(self@ == (ManagerView {
                        queue: rings_of_others(filed.queue, id),
                        ..filed
                    }));
                    assert forall|i: int| 0 <= i < self@.queue.len() implies (
                    #[trigger] self@.queue[i]).next_wakeup.wf() && self@.alarms.contains_key(
                        self@.queue[i].alarm_id,
                    ) by {
                        let k = choose|k: int|
                            0 <= k < filed.queue.len() && filed.queue[k] == self@.queue[i];
                        assert(filed.queue[k].next_wakeup.wf());
                    }
                }
                let search = Search { alarm_id: id, base: now };
                let mut searches: Vec<Search> = Vec::new();
                searches.push(search);
                assert(searches@ =~= seq![search]);
                CommandStart { stopped: Vec::new(), reply, searches, saves: true }
            },
            AlarmCommand::Edit(alarm) => {
                let id: u128 = alarm.id;
                let ghost edited = alarm@;
                self.alarms.insert(id, alarm);
                assert(self@.alarms =~= old(self)@.alarms.insert(id, edited));
                proof {
                    lemma_filing_keeps_wf(old(self)@, edited);
                }
                let stopped: Vec<u128> = self.stop_ringing(id);
                let searches: Vec<Search> = self.rebuild_queue(now);
                CommandStart { stopped, reply, searches, saves: true }
            },
            AlarmCommand::Delete(id) => {
                self.alarms.remove(&id);
                assert(self@.alarms =~= old(self)@.alarms.remove(id));
                let stopped: Vec<u128> = self.stop_ringing(id);
                self.rung.remove(&id);
                assert(self@.rung =~= old(self)@.rung.remove(id));
                proof {
                    assert forall|other: u128| #[trigger]
                        self@.ringing.contains(other) implies self@.alarms.contains_key(other) by {
                        assert(old(self)@.ringing.contains(other));
                    }
                    assert forall|other: u128| #[trigger]
                        self@.rung.contains_key(other) implies self@.alarms.contains_key(other) by {
                        assert(old(self)@.rung.contains_key(other));
                    }
                }
                let searches: Vec<Search> = self.rebuild_queue(now);
                CommandStart { stopped, reply, searches, saves: true }
            },
            AlarmCommand::List => CommandStart {
                stopped: Vec::new(),
                reply: CommandReply::Alarms(self.listed_by_time()),
                searches: Vec::new(),
                saves: false,
            },
            AlarmCommand::RingingStatus => {
                let ringing_ids: Vec<u128> = members_of(&self.ringing);
                let status = RingingStatusReply {
                    is_ringing: ringing_ids.len() > 0,
                    ringing_ids,
                };
                CommandStart {
                    stopped: Vec::new(),
                    reply: CommandReply::Ringing(status),
                    searches: Vec::new(),
                    saves: false,
                }
            },
            AlarmCommand::Pause(span) => {
                self.mute_status.set_muted_until(reading + span);
                assert(self@ == (ManagerView {
                    muted_until: Some((reading + span) as u128),
                    ..old(self)@
                }));
                CommandStart { stopped: Vec::new(), reply, searches: Vec::new(), saves: false }
            },
            AlarmCommand::StopAll => {
                let stopped: Vec<u128> = members_of(&self.ringing);
                let mut held: HashSet<u128> = HashSet::new();
                core::mem::swap(&mut held, &mut self.ringing);
                assert(self@.ringing =~= Set::empty());
                self.mark_stopped(&stopped, now);
                let later = now.two_seconds_later();
                self.queue.clear();
                let searches: Vec<Search> = self.full_search(now, &held, later);
                assert(self@ == (ManagerView {
                    queue: Seq::empty(),
                    ringing: Set::empty(),
                    rung: marked(
                        old(self)@.rung,
                        old(self)@.alarms,
                        old(self)@.ringing,
                        now,
                    ),
                    ..old(self)@
                }));
                CommandStart { stopped, reply, searches, saves: true }
            },
        }
    }

    /// Takes in a command given at `now`, when the monotonic clock reads `reading`. Returns none,
    /// with nothing done, just where all alarms are to be stopped so close to an end of the
    /// calendar that two seconds later has no local date.
    pub fn handle_command_at(&mut self, cmd: AlarmCommand, now: LocalDateTime, reading: u128) -> (r:
        Option<CommandOutcome>)
        requires
            old(self)@.wf(),
            cmd.wf(),
            now.wf(),
            reading <= MAX_SPAN_NANOS,
        ensures
            final(self)@.wf(),
            is_command_result(old(self)@, cmd, now, reading, final(self)@, r),
    {
        if let AlarmCommand::StopAll = cmd {
            if !now.is_clear_of_limits() {
                return None;
            }
        }
        let start = self.begin_command(cmd, now, reading);
        self.schedule_alarms(&start.searches);
        let save = if start.saves {
            self.persist()
        } else {
            None
        };
        Some(CommandOutcome { stopped: start.stopped, reply: start.reply, save })
    }

    /// Takes in a command now, as [`AlarmManager::handle_command_at`] does at a given time.
    pub fn handle_command(&mut self, cmd: AlarmCommand) -> (r: Option<CommandOutcome>)
        requires
            old(self)@.wf(),
            cmd.wf(),
        ensures
            final(self)@.wf(),
            is_command_handled(old(self)@, cmd, final(self)@, r),
    {
        let now = local_now();
        let reading: u128 = self.mute_status.clock().read();
        self.handle_command_at(cmd, now, reading)
    }

    /// Takes the soonest pending ring as due, up to the search for the next one: its alarm
    /// rings.
    pub fn begin_fire(&mut self) -> (r: Option<FireStart>)
        requires
            old(self)@.wf(),
            old(self)@.queue.len() > 0 ==> old(self)@.queue[0].next_wakeup.spec_clear_of_limits(),
        ensures
            final(self)@.wf(),
            r is Some <==> old(self)@.queue.len() > 0,
            r is None ==> final(self)@ == old(self)@,
            r matches Some(start) ==> is_fire_begun(old(self)@, final(self)@, start.search)
                && is_stop_of(
                old(self)@.ringing,
                old(self)@.queue[0].alarm_id,
                start.stopped@,
            ) && start.ring is Some && start.ring->0@ == old(self)@.alarms[old(
                self,
            )@.queue[0].alarm_id],
    {
        match self.queue.pop() {
            Some(due) => {
                proof {
                    let rest = self@.queue;
                    assert(self@ == (ManagerView { queue: rest, ..old(self)@ }));
                    assert forall|i: int| 0 <= i < rest.len() implies (
                    #[trigger] rest[i]).next_wakeup.wf() && self@.alarms.contains_key(
                        rest[i].alarm_id,
                    ) by {
                        assert(rest[i] == old(self)@.queue[i + 1]);
                    }
                    assert(self@.alarms.contains_key(old(self)@.queue[0].alarm_id));
                }
                let stopped: Vec<u128> = self.stop_ringing(due.alarm_id);
                let ring = self.start_ringing(due.alarm_id);
                if let Some(alarm) = &ring {
                    self.rung.insert(
                        due.alarm_id,
                        Slot { date: due.next_wakeup.date, time: alarm.time },
                    );
                }
                let base = due.next_wakeup.two_seconds_later();
                proof {
                    let slot = slot_of(old(self)@, due);
                    assert(self@.ringing =~= old(self)@.ringing.insert(due.alarm_id));
                    assert(self@.rung =~= old(self)@.rung.insert(due.alarm_id, slot));
                    assert(self@ == (ManagerView {
                        queue: old(self)@.queue.drop_first(),
                        ringing: old(self)@.ringing.insert(due.alarm_id),
                        rung: old(self)@.rung.insert(due.alarm_id, slot),
                        ..old(self)@
                    }));
                }
                Some(FireStart { stopped, ring, search: Search { alarm_id: due.alarm_id, base } })
            },
            None => None,
        }
    }

    /// Takes the soonest pending ring as due: its alarm rings, and its next ring is searched for
    /// from two seconds later on, so that it is not the same one again.
    pub fn fire(&mut self) -> (r: Option<FireOutcome>)
        requires
            old(self)@.wf(),
            old(self)@.queue.len() > 0 ==> old(self)@.queue[0].next_wakeup.spec_clear_of_limits(),
        ensures
            final(self)@.wf(),
            r is Some <==> old(self)@.queue.len() > 0,
            r is None ==> final(self)@ == old(self)@,
            r matches Some(outcome) ==> is_fire_step(old(self)@, final(self)@) && is_fire_outcome(
                old(self)@,
                final(self)@,
                outcome,
            ),
    {
        match self.begin_fire() {
            Some(start) => {
                let mut searches: Vec<Search> = Vec::new();
                searches.push(start.search);
                assert(searches@ =~= seq![start.search]);
                self.schedule_alarms(&searches);
                Some(FireOutcome { stopped: start.stopped, ring: start.ring, save: self.persist() })
            },
            None => None,
        }
    }

    /// What to wait for next. Pending rings that belong to no alarm are passed over.
    pub fn next_wait(&mut self) -> (r: Wait)
        requires
            old(self)@.wf(),
        ensures
            final(self)@ == old(self)@,
            r == if old(self)@.queue.len() == 0 {
                Wait::ForCommand
            } else {
                Wait::Until(old(self)@.queue[0].next_wakeup)
            },
    {
        self.queue.drop_stale(&self.alarms);
        proof {
            let queue = old(self)@.queue;
            if queue.len() > 0 {
                assert(old(self)@.alarms.contains_key(queue[0].alarm_id));
            }
            assert(stale_count(queue, self.alarms@.dom()) == 0);
            assert(queue.skip(0) =~= queue);
        }
        match self.queue.peek() {
            Some(soonest) => Wait::Until(soonest.next_wakeup),
            None => Wait::ForCommand,
        }
    }

    /// Takes in what was waited for, at `now`, when the monotonic clock reads `reading`.
    pub fn run_step_at(&mut self, event: Event, now: LocalDateTime, reading: u128) -> (r: Effect)
        requires
            old(self)@.wf(),
            event matches Event::Command(cmd) ==> cmd.wf(),
            now.wf(),
            reading <= MAX_SPAN_NANOS,
        ensures
            final(self)@.wf(),
            is_event_step_at(old(self)@, event, now, reading, final(self)@, r),
    {
        match event {
            Event::Deadline => {
                if let Some(soonest) = self.queue.peek() {
                    if !soonest.next_wakeup.is_clear_of_limits() {
                        return Effect::EndOfCalendar;
                    }
                }
                match self.fire() {
                    Some(outcome) => Effect::Fired(outcome),
                    None => Effect::Nothing,
                }
            },
            Event::Command(cmd) => {
                let result = self.handle_command_at(cmd, now, reading);
                assert(is_command_result(old(self)@, cmd, now, reading, self@, result));
                match result {
                    Some(outcome) => Effect::Handled(outcome),
                    None => Effect::EndOfCalendar,
                }
            },
            Event::Closed => Effect::Stop,
        }
    }

    /// Takes in what was waited for, now.
    pub fn run_step(&mut self, event: Event) -> (r: Effect)
        requires
            old(self)@.wf(),
            event matches Event::Command(cmd) ==> cmd.wf(),
        ensures
            final(self)@.wf(),
            is_event_step(old(self)@, event, final(self)@, r),
    {
        let now = local_now();
        let reading: u128 = self.mute_status.clock().read();
        self.run_step_at(event, now, reading)
    }

    /// The reading of the monotonic clock at which `wakeup` comes, when local clocks show `now`
    /// and the monotonic clock reads `reading`: at once where it has passed.
    pub fn deadline_at(wakeup: LocalDateTime, now: LocalDateTime, reading: u128) -> (r: u128)
        requires
            wakeup.wf(),
            now.wf(),
            reading <= MAX_SPAN_NANOS,
        ensures
            is_deadline(wakeup, now, reading, r),
    {
        let left: u128 = wakeup.nanos_until(&now);
        reading + left
    }

    /// The reading of the monotonic clock at which `wakeup` comes.
    pub fn deadline_for(&self, wakeup: LocalDateTime) -> (r: u128)
        requires
            wakeup.wf(),
        ensures
            is_deadline_for(self@.clock, wakeup, r),
    {
        let now = local_now();
        let reading: u128 = self.mute_status.clock().read();
        AlarmManager::deadline_at(wakeup, now, reading)
    }
}

impl Default for AlarmManager {
    fn default() -> (r: AlarmManager)
        ensures
            r@.wf(),
            r@ == ManagerView::empty(r@.clock),
    {
        AlarmManager::new()
    }
}

} // verus!
