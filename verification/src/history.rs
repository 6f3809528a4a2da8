//! What holds of a manager over any number of commands and rings.

use crate::alarm::{AlarmView, Slot};
use crate::calendar::LocalDateTime;
use crate::laws::{
    a_command_keeps_the_manager_tidy, a_rung_slot_does_not_come_back, a_rung_slot_is_remembered,
    an_alarm_rings_until_it_is_stopped, an_alarm_that_cannot_ring_is_not_pending, ends_ringing,
    is_stopped_slot, is_tidy, lemma_written_snapshot, rings_come_in_order, written,
};
use crate::manager::{
    has_ring, is_command_outcome, is_command_step, is_fire_outcome, is_fire_step, is_snapshot,
    resumed, resumed_ids, rung_slot, AlarmCommand, CommandOutcome, FireOutcome, ManagerView, SaveJob,
};
use crate::store::PersistedView;
use vstd::multiset::Multiset;
use vstd::prelude::*;

verus! {

/// One thing that happens to a manager.
pub enum HistoryStep {
    /// A command is taken in.
    Command { cmd: AlarmCommand, now: LocalDateTime, reading: u128, outcome: CommandOutcome },
    /// The soonest pending ring comes due.
    Ring { fired: FireOutcome },
}

/// The step took the manager from `before` to `after`.
pub open spec fn is_history_step(
    before: ManagerView,
    step: HistoryStep,
    after: ManagerView,
) -> bool {
    match step {
        HistoryStep::Command { cmd, now, reading, outcome } => {
            &&& now.wf()
            &&& is_command_step(before, cmd, now, reading, after)
            &&& is_command_outcome(before, cmd, after, outcome)
        },
        HistoryStep::Ring { fired } => {
            &&& before.queue.len() > 0
            &&& is_fire_step(before, after)
            &&& is_fire_outcome(before, after, fired)
        },
    }
}

/// The steps took the manager through the states, one after the other.
pub open spec fn is_history(states: Seq<ManagerView>, steps: Seq<HistoryStep>) -> bool {
    &&& states.len() == steps.len() + 1
    &&& forall|i: int| 0 <= i < states.len() ==> (#[trigger] states[i]).wf()
    &&& forall|i: int|
        0 <= i < steps.len() ==> is_history_step(states[i], #[trigger] steps[i], states[i + 1])
}

/// The step is a ring of the alarm.
pub open spec fn rings(step: HistoryStep, id: u128) -> bool {
    step matches HistoryStep::Ring { fired } && fired.ring is Some && fired.ring->0.id == id
}

/// The step edits or deletes the alarm, or stops all alarms.
pub open spec fn ends(step: HistoryStep, id: u128) -> bool {
    step matches HistoryStep::Command { cmd, .. } && ends_ringing(cmd, id)
}

/// The step deletes the alarm.
pub open spec fn deletes(step: HistoryStep, id: u128) -> bool {
    step matches HistoryStep::Command { cmd, .. } && cmd == AlarmCommand::Delete(id)
}

/// The step adds or edits an alarm with this ID.
pub open spec fn brings(step: HistoryStep, id: u128) -> bool {
    step matches HistoryStep::Command { cmd, .. } && match cmd {
        AlarmCommand::Add(alarm) => alarm.id == id,
        AlarmCommand::Edit(alarm) => alarm.id == id,
        _ => false,
    }
}

/// A tidy manager stays tidy, whatever happens.
pub proof fn a_history_stays_tidy(
    states: Seq<ManagerView>,
    steps: Seq<HistoryStep>,
    n: int,
)
    requires
        is_history(states, steps),
        is_tidy(states[0]),
        0 <= n < states.len(),
    ensures
        is_tidy(states[n]),
    decreases n,
{
    if n > 0 {
        a_history_stays_tidy(states, steps, n - 1);
        let before = states[n - 1];
        let after = states[n];
        assert(is_history_step(before, steps[n - 1], after));
        match steps[n - 1] {
            HistoryStep::Command { cmd, now, reading, outcome } => {
                a_command_keeps_the_manager_tidy(before, cmd, now, reading, after);
            },
            HistoryStep::Ring { fired } => {
                rings_come_in_order(before, after);
            },
        }
    }
}

/// Whatever happened before, each ring is one of an alarm that exists then, just as it is kept,
/// and that is switched on and has a day to ring on.
pub proof fn only_alarms_that_can_ring_are_rung(
    states: Seq<ManagerView>,
    steps: Seq<HistoryStep>,
    n: int,
)
    requires
        is_history(states, steps),
        is_tidy(states[0]),
        0 <= n < steps.len(),
        steps[n] is Ring,
    ensures
        steps[n]->fired.ring matches Some(alarm) && states[n].alarms.contains_key(alarm.id)
            && states[n].alarms[alarm.id] == alarm@ && alarm@.can_ring(),
{
    a_history_stays_tidy(states, steps, n);
    let manager = states[n];
    assert(manager.wf());
    assert(is_history_step(manager, steps[n], states[n + 1]));
    let id = manager.queue[0].alarm_id;
    assert(manager.alarms.contains_key(id));
    if !manager.alarms[id].can_ring() {
        an_alarm_that_cannot_ring_is_not_pending(manager, id);
        assert(has_ring(manager.queue, id));
    }
}

/// An alarm that was deleted does not ring any more, unless one with its ID is added or edited
/// in again.
pub proof fn a_deleted_alarm_does_not_ring(
    states: Seq<ManagerView>,
    steps: Seq<HistoryStep>,
    id: u128,
    deleted: int,
    n: int,
)
    requires
        is_history(states, steps),
        0 <= deleted < n < steps.len(),
        deletes(steps[deleted], id),
        forall|j: int| deleted < j < n ==> !brings(#[trigger] steps[j], id),
    ensures
        !rings(steps[n], id),
        !states[n].alarms.contains_key(id),
    decreases n,
{
    assert(is_history_step(states[n - 1], steps[n - 1], states[n]));
    if n - 1 > deleted {
        a_deleted_alarm_does_not_ring(states, steps, id, deleted, n - 1);
    }
    assert(is_history_step(states[n], steps[n], states[n + 1]));
    assert(states[n].wf());
    if steps[n] is Ring {
        assert(states[n].alarms.contains_key(states[n].queue[0].alarm_id));
    }
}

/// An alarm rings if and only if it was rung, or rang at the start, and was neither edited nor
/// deleted since, nor all alarms stopped.
pub proof fn an_alarm_rings_from_its_ring_to_its_stop(
    states: Seq<ManagerView>,
    steps: Seq<HistoryStep>,
    id: u128,
    n: int,
)
    requires
        is_history(states, steps),
        0 <= n < states.len(),
    ensures
        states[n].ringing.contains(id) <==> rings_from_the_start(states, steps, id, n) || exists|
            k: int,
        | #[trigger]
            rings_since(steps, id, k, n),
    decreases n,
{
    if n == 0 {
        assert forall|k: int| !rings_since(steps, id, k, n) by {}
    } else {
        let last = steps[n - 1];
        an_alarm_rings_from_its_ring_to_its_stop(states, steps, id, n - 1);
        assert(is_history_step(states[n - 1], last, states[n]));
        assert(states[n - 1].wf());
        if last is Ring {
            assert(states[n - 1].alarms.contains_key(states[n - 1].queue[0].alarm_id));
        }
        if rings(last, id) {
            assert(rings_since(steps, id, n - 1, n));
        } else if states[n].ringing.contains(id) {
            assert(!ends(last, id));
            if !rings_from_the_start(states, steps, id, n - 1) {
                let k = choose|k: int| #[trigger] rings_since(steps, id, k, n - 1);
                assert(rings_since(steps, id, k, n));
            }
        } else {
            if rings_from_the_start(states, steps, id, n) {
                assert(!ends(steps[n - 1], id));
                assert(rings_from_the_start(states, steps, id, n - 1));
            }
            assert forall|k: int| !#[trigger] rings_since(steps, id, k, n) by {
                if rings_since(steps, id, k, n) {
                    assert(rings_since(steps, id, k, n - 1));
                    assert(!ends(steps[n - 1], id));
                }
            }
        }
    }
}

/// The alarm rang at the start, and nothing ended its ringing until the state `n`.
pub open spec fn rings_from_the_start(
    states: Seq<ManagerView>,
    steps: Seq<HistoryStep>,
    id: u128,
    n: int,
) -> bool {
    &&& states[0].ringing.contains(id)
    &&& forall|j: int| 0 <= j < n ==> !ends(#[trigger] steps[j], id)
}

/// The alarm was rung in the given step, and nothing ended its ringing from then on until the
/// state `n`.
pub open spec fn rings_since(steps: Seq<HistoryStep>, id: u128, k: int, n: int) -> bool {
    &&& 0 <= k < n
    &&& rings(steps[k], id)
    &&& forall|j: int| k < j < n ==> !ends(#[trigger] steps[j], id)
}

/// The tasks that make noise after the step, each by the ID of its alarm: those that are cut off
/// are gone, and one is started for the alarm that is rung.
pub open spec fn tasks_after(tasks: Multiset<u128>, step: HistoryStep) -> Multiset<u128> {
    match step {
        HistoryStep::Command { outcome, .. } => tasks.sub(outcome.stopped@.to_multiset()),
        HistoryStep::Ring { fired } => {
            let left = tasks.sub(fired.stopped@.to_multiset());
            match fired.ring {
                Some(alarm) => left.insert(alarm.id),
                None => left,
            }
        },
    }
}

/// The tasks that make noise after the steps.
pub open spec fn tasks_of(start: Multiset<u128>, steps: Seq<HistoryStep>) -> Multiset<u128>
    decreases steps.len(),
{
    if steps.len() == 0 {
        start
    } else {
        tasks_after(tasks_of(start, steps.drop_last()), steps.last())
    }
}

/// There is one task for each alarm that rings, and no other.
pub open spec fn is_one_each(tasks: Multiset<u128>, ringing: Set<u128>) -> bool {
    forall|id: u128| #[trigger]
        tasks.count(id) == if ringing.contains(id) {
            1nat
        } else {
            0nat
        }
}

/// In a sequence that names nothing twice, each member counts once.
proof fn lemma_counts_once(ids: Seq<u128>)
    requires
        ids.no_duplicates(),
    ensures
        forall|id: u128| #[trigger]
            ids.to_multiset().count(id) == if ids.contains(id) {
                1nat
            } else {
                0nat
            },
{
    broadcast use vstd::seq_lib::group_to_multiset_ensures;

    ids.lemma_multiset_has_no_duplicates();
}

/// A step keeps one task for each alarm that rings.
proof fn lemma_step_keeps_one_each(
    tasks: Multiset<u128>,
    before: ManagerView,
    step: HistoryStep,
    after: ManagerView,
)
    requires
        before.wf(),
        is_one_each(tasks, before.ringing),
        is_history_step(before, step, after),
    ensures
        is_one_each(tasks_after(tasks, step), after.ringing),
{
    let stopped = match step {
        HistoryStep::Command { outcome, .. } => outcome.stopped@,
        HistoryStep::Ring { fired } => fired.stopped@,
    };
    assert(stopped.no_duplicates());
    lemma_counts_once(stopped);
    assert forall|id: u128| stopped.contains(id) <==> #[trigger] stopped.to_set().contains(
        id,
    ) by {}
    if let HistoryStep::Ring { fired } = step {
        assert(before.alarms.contains_key(before.queue[0].alarm_id));
    }
    assert forall|id: u128| #[trigger]
        tasks_after(tasks, step).count(id) == if after.ringing.contains(id) {
            1nat
        } else {
            0nat
        } by {
        let left = tasks.sub(stopped.to_multiset());
        assert(tasks.count(id) == if before.ringing.contains(id) {
            1nat
        } else {
            0nat
        });
        assert(stopped.contains(id) <==> stopped.to_set().contains(id));
        assert(stopped.to_multiset().count(id) == if stopped.contains(id) {
            1nat
        } else {
            0nat
        });
        match step {
            HistoryStep::Command { cmd, outcome, .. } => {
                if before.ringing.contains(id) {
                    assert(stopped.contains(id) <==> ends_ringing(cmd, id)) by {
                        an_alarm_rings_until_it_is_stopped(
                            before,
                            id,
                            cmd,
                            step->now,
                            step->reading,
                            after,
                            outcome,
                        );
                    }
                }
            },
            HistoryStep::Ring { fired } => {
                let due = before.queue[0].alarm_id;
                assert(before.alarms[due].id == due);
                assert(tasks_after(tasks, step) == left.insert(due));
                if id == due && before.ringing.contains(id) {
                    assert(stopped[0] == id);
                    assert(stopped.contains(id));
                }
                assert(id != due ==> !stopped.contains(id));
            },
        }
    }
}

/// Every task that was started is accounted for: there is one for each alarm that rings, and no
/// other. So a stop leaves none, whatever happened before.
pub proof fn every_ring_is_cut_off_by_a_stop(
    states: Seq<ManagerView>,
    steps: Seq<HistoryStep>,
    start: Multiset<u128>,
    n: int,
)
    requires
        is_history(states, steps),
        is_one_each(start, states[0].ringing),
        0 <= n < states.len(),
    ensures
        is_one_each(tasks_of(start, steps.take(n)), states[n].ringing),
        n > 0 && (steps[n - 1] matches HistoryStep::Command { cmd, .. } && cmd is StopAll)
            ==> forall|id: u128| #[trigger] tasks_of(start, steps.take(n)).count(id) == 0,
    decreases n,
{
    if n > 0 {
        every_ring_is_cut_off_by_a_stop(states, steps, start, n - 1);
        assert(is_history_step(states[n - 1], steps[n - 1], states[n]));
        assert(states[n - 1].wf());
        assert(steps.take(n).drop_last() =~= steps.take(n - 1));
        lemma_step_keeps_one_each(
            tasks_of(start, steps.take(n - 1)),
            states[n - 1],
            steps[n - 1],
            states[n],
        );
    }
}

/// The IDs of the alarms.
pub open spec fn ids_of(alarms: Seq<AlarmView>) -> Seq<u128> {
    Seq::new(alarms.len(), |i: int| alarms[i].id)
}

/// A manager that starts with alarms that were ringing rings each of them once.
pub proof fn a_restart_rings_each_alarm_once(alarms: Map<u128, AlarmView>, ids: Seq<u128>)
    requires
        forall|id: u128| #[trigger] alarms.contains_key(id) ==> alarms[id].id == id,
    ensures
        is_one_each(ids_of(resumed(alarms, ids)).to_multiset(), resumed_ids(alarms, ids)),
    decreases ids.len(),
{
    broadcast use vstd::seq_lib::group_to_multiset_ensures;

    let rung = ids_of(resumed(alarms, ids));
    let ringing = resumed_ids(alarms, ids);
    if ids.len() == 0 {
        assert(rung =~= Seq::empty());
        assert forall|id: u128| #[trigger] rung.to_multiset().count(id) == 0 by {
            assert(!rung.contains(id));
        }
    } else {
        let rest = ids.drop_last();
        let last = ids.last();
        let earlier = ids_of(resumed(alarms, rest));
        a_restart_rings_each_alarm_once(alarms, rest);
        assert forall|id: u128| ids.contains(id) <==> rest.contains(id) || id == last by {
            if rest.contains(id) {
                let k = choose|k: int| 0 <= k < rest.len() && rest[k] == id;
                assert(ids[k] == id);
            }
            assert(ids[ids.len() - 1] == last);
            if ids.contains(id) && id != last {
                let k = choose|k: int| 0 <= k < ids.len() && ids[k] == id;
                assert(rest[k] == id);
            }
        }
        if alarms.contains_key(last) && !rest.contains(last) {
            assert(rung =~= earlier.push(last));
            assert(!resumed_ids(alarms, rest).contains(last));
        } else {
            assert(rung =~= earlier);
        }
        assert forall|id: u128| #[trigger]
            rung.to_multiset().count(id) == if ringing.contains(id) {
                1nat
            } else {
                0nat
            } by {
            assert(earlier.to_multiset().count(id) == if resumed_ids(alarms, rest).contains(id) {
                1nat
            } else {
                0nat
            });
        }
    }
}

/// The file holds just what there is to keep of the manager: each alarm as it is written, and
/// the ID of each alarm that rings.
pub open spec fn is_file_of(manager: ManagerView, file: PersistedView) -> bool {
    is_snapshot(ManagerView { alarms: written(manager.alarms), ..manager }, file)
}

/// What the file holds once the save, if there is one, has been carried out.
pub open spec fn file_after(file: PersistedView, save: Option<SaveJob>) -> PersistedView {
    match save {
        Some(job) => job.state@.as_written(),
        None => file,
    }
}

/// The save that the step asks for.
pub open spec fn save_of(step: HistoryStep) -> Option<SaveJob> {
    match step {
        HistoryStep::Command { outcome, .. } => outcome.save,
        HistoryStep::Ring { fired } => fired.save,
    }
}

/// What the file holds after the steps.
pub open spec fn file_of(start: PersistedView, steps: Seq<HistoryStep>) -> PersistedView
    decreases steps.len(),
{
    if steps.len() == 0 {
        start
    } else {
        file_after(file_of(start, steps.drop_last()), save_of(steps.last()))
    }
}

/// A manager with a file asks for each save that the file needs: after an addition, an edit, a
/// deletion, a stop or a ring it holds what there is to keep then. Nothing else is written, for
/// nothing else changes what there is to keep.
pub proof fn a_step_keeps_the_file_up_to_date(
    before: ManagerView,
    step: HistoryStep,
    after: ManagerView,
    file: PersistedView,
)
    requires
        before.wf(),
        after.wf(),
        before.store_path is Some,
        is_history_step(before, step, after),
    ensures
        after.store_path == before.store_path,
        save_of(step) matches Some(job) ==> Some(job.path@) == after.store_path,
        save_of(step) is Some ==> is_file_of(after, file_after(file, save_of(step))),
        save_of(step) is None ==> file_after(file, save_of(step)) == file && after.alarms
            == before.alarms && after.ringing == before.ringing,
        save_of(step) is None <==> (step matches HistoryStep::Command { cmd, .. } && (cmd is List
            || cmd is RingingStatus || cmd is Pause)),
{
    if let Some(job) = save_of(step) {
        lemma_written_snapshot(after, job.state@);
    }
}

/// Whatever happens, the file holds what there is to keep of the manager.
pub proof fn the_file_is_always_up_to_date(
    states: Seq<ManagerView>,
    steps: Seq<HistoryStep>,
    start: PersistedView,
    n: int,
)
    requires
        is_history(states, steps),
        states[0].store_path is Some,
        is_file_of(states[0], start),
        0 <= n < states.len(),
    ensures
        states[n].store_path == states[0].store_path,
        is_file_of(states[n], file_of(start, steps.take(n))),
    decreases n,
{
    assert(steps.take(0) =~= Seq::empty());
    if n > 0 {
        the_file_is_always_up_to_date(states, steps, start, n - 1);
        assert(is_history_step(states[n - 1], steps[n - 1], states[n]));
        assert(states[n - 1].wf() && states[n].wf());
        assert(steps.take(n).drop_last() =~= steps.take(n - 1));
        a_step_keeps_the_file_up_to_date(
            states[n - 1],
            steps[n - 1],
            states[n],
            file_of(start, steps.take(n - 1)),
        );
    }
}

/// The step changes what is remembered of the alarm: it rings or deletes the alarm, or stops it
/// while it rings and its slot of the day has come.
pub open spec fn changes_memory(before: ManagerView, step: HistoryStep, id: u128) -> bool {
    ||| rings(step, id)
    ||| deletes(step, id)
    ||| step matches HistoryStep::Command { cmd, now, .. } && is_stopped_slot(before, cmd, now, id)
}

/// A slot for which an alarm rang or was stopped does not come back, whatever else happens: until
/// the alarm rings or is stopped for another slot, or is deleted, its pending ring belongs to a
/// slot of another date or time.
pub proof fn a_rung_or_stopped_slot_stays_behind(
    states: Seq<ManagerView>,
    steps: Seq<HistoryStep>,
    id: u128,
    k: int,
    n: int,
    i: int,
) -> (slot: LocalDateTime)
    requires
        is_history(states, steps),
        is_tidy(states[0]),
        0 <= k <= n < states.len(),
        states[k].rung.contains_key(id),
        forall|j: int| k <= j < n ==> !changes_memory(states[j], #[trigger] steps[j], id),
        0 <= i < states[n].queue.len(),
        states[n].queue[i].alarm_id == id,
    ensures
        slot.wf(),
        slot.time == states[n].alarms[id].time,
        states[n].alarms[id].rings_on(slot.date as int),
        !slot.spec_after(states[n].queue[i].next_wakeup),
        states[k].rung[id] != (Slot { date: slot.date, time: slot.time }),
{
    a_history_stays_tidy(states, steps, n);
    lemma_memory_lasts(states, steps, id, k, n);
    assert(states[n].wf());
    a_rung_slot_does_not_come_back(states[n], i)
}

/// What is remembered of an alarm stays as it is while nothing changes it.
proof fn lemma_memory_lasts(
    states: Seq<ManagerView>,
    steps: Seq<HistoryStep>,
    id: u128,
    k: int,
    n: int,
)
    requires
        is_history(states, steps),
        0 <= k <= n < states.len(),
        forall|j: int| k <= j < n ==> !changes_memory(states[j], #[trigger] steps[j], id),
    ensures
        rung_slot(states[n].rung, id) == rung_slot(states[k].rung, id),
    decreases n - k,
{
    if n > k {
        lemma_memory_lasts(states, steps, id, k, n - 1);
        let before = states[n - 1];
        assert(is_history_step(before, steps[n - 1], states[n]));
        assert(before.wf());
        assert(!changes_memory(before, steps[n - 1], id));
        match steps[n - 1] {
            HistoryStep::Command { cmd, now, reading, outcome } => {
                a_rung_slot_is_remembered(before, cmd, now, reading, states[n], id);
            },
            HistoryStep::Ring { fired } => {
                assert(before.alarms.contains_key(before.queue[0].alarm_id));
            },
        }
    }
}

} // verus!
