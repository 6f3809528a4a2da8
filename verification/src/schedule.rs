//! The queue of pending rings, soonest first.

use crate::alarm::Alarm;
use crate::calendar::LocalDateTime;
use core::cmp::Ordering;
use std::collections::HashMap;
use vstd::prelude::*;

verus! {

broadcast use vstd::std_specs::hash::group_hash_axioms;

/// A pending ring of an alarm. Pending rings are ordered by their moments alone.
#[derive(Clone, Copy, Debug)]
pub struct ScheduledAlarm {
    pub alarm_id: u128,
    pub next_wakeup: LocalDateTime,
}

impl PartialEq for ScheduledAlarm {
    fn eq(&self, other: &ScheduledAlarm) -> (r: bool) {
        self.alarm_id == other.alarm_id && self.next_wakeup == other.next_wakeup
    }
}

impl vstd::std_specs::cmp::PartialEqSpecImpl for ScheduledAlarm {
    open spec fn obeys_eq_spec() -> bool {
        true
    }

    open spec fn eq_spec(&self, other: &ScheduledAlarm) -> bool {
        self.alarm_id == other.alarm_id && self.next_wakeup.same_instant(other.next_wakeup)
    }
}

impl PartialOrd for ScheduledAlarm {
    fn partial_cmp(&self, other: &ScheduledAlarm) -> (r: Option<Ordering>) {
        self.next_wakeup.partial_cmp(&other.next_wakeup)
    }
}

impl vstd::std_specs::cmp::PartialOrdSpecImpl for ScheduledAlarm {
    open spec fn obeys_partial_cmp_spec() -> bool {
        true
    }

    open spec fn partial_cmp_spec(&self, other: &ScheduledAlarm) -> Option<Ordering> {
        if self.next_wakeup.spec_after(other.next_wakeup) {
            Some(Ordering::Greater)
        } else if other.next_wakeup.spec_after(self.next_wakeup) {
            Some(Ordering::Less)
        } else {
            Some(Ordering::Equal)
        }
    }
}

/// No ring in the sequence comes before one that stands ahead of it.
pub open spec fn is_soonest_first(rings: Seq<ScheduledAlarm>) -> bool {
    forall|i: int, j: int|
        0 <= i < j < rings.len() ==> !(#[trigger] rings[i]).next_wakeup.spec_after(
            (#[trigger] rings[j]).next_wakeup,
        )
}

/// `after` is `before` with `ring` put behind every ring that comes no later, and ahead of
/// every ring that comes later.
pub open spec fn is_insertion(
    before: Seq<ScheduledAlarm>,
    ring: ScheduledAlarm,
    after: Seq<ScheduledAlarm>,
) -> bool {
    exists|at: int| #[trigger] is_insertion_at(before, ring, at, after)
}

/// `after` is `before` with `ring` put in at `at`, which parts the rings that come no later
/// from those that come later.
pub open spec fn is_insertion_at(
    before: Seq<ScheduledAlarm>,
    ring: ScheduledAlarm,
    at: int,
    after: Seq<ScheduledAlarm>,
) -> bool {
    &&& 0 <= at <= before.len()
    &&& after == before.insert(at, ring)
    &&& forall|i: int|
        0 <= i < at ==> !(#[trigger] before[i]).next_wakeup.spec_after(ring.next_wakeup)
    &&& forall|i: int|
        at <= i < before.len() ==> (#[trigger] before[i]).next_wakeup.spec_after(ring.next_wakeup)
}

/// How many rings at the head of the queue belong to no alarm of `known`.
pub open spec fn stale_count(rings: Seq<ScheduledAlarm>, known: Set<u128>) -> nat
    decreases rings.len(),
{
    if rings.len() > 0 && !known.contains(rings[0].alarm_id) {
        1 + stale_count(rings.drop_first(), known)
    } else {
        0
    }
}

/// The rings that belong to other alarms, in the same order.
pub open spec fn rings_of_others(rings: Seq<ScheduledAlarm>, id: u128) -> Seq<ScheduledAlarm> {
    rings.filter(|ring: ScheduledAlarm| ring.alarm_id != id)
}

/// Each of the rings that belong to other alarms is one of the rings, and belongs to another
/// alarm. None of them is left out.
pub(crate) proof fn lemma_rings_of_others(rings: Seq<ScheduledAlarm>, id: u128)
    ensures
        forall|i: int|
            0 <= i < rings_of_others(rings, id).len() ==> rings.contains(
                #[trigger] rings_of_others(rings, id)[i],
            ) && rings_of_others(rings, id)[i].alarm_id != id,
        forall|i: int|
            0 <= i < rings.len() && (#[trigger] rings[i]).alarm_id != id ==> rings_of_others(
                rings,
                id,
            ).contains(rings[i]),
    decreases rings.len(),
{
    reveal(Seq::filter);
    let kept = rings_of_others(rings, id);
    if rings.len() > 0 {
        let fewer = rings.drop_last();
        let earlier = rings_of_others(fewer, id);
        lemma_rings_of_others(fewer, id);
        assert forall|i: int| 0 <= i < kept.len() implies rings.contains(#[trigger] kept[i])
            && kept[i].alarm_id != id by {
            if i < earlier.len() {
                assert(kept[i] == earlier[i]);
                let k = choose|k: int| 0 <= k < fewer.len() && fewer[k] == earlier[i];
                assert(rings[k] == kept[i]);
            } else {
                assert(rings[rings.len() - 1] == kept[i]);
            }
        }
        assert forall|i: int| 0 <= i < rings.len() && (#[trigger] rings[i]).alarm_id
            != id implies kept.contains(rings[i]) by {
            if i < fewer.len() {
                assert(fewer[i] == rings[i]);
                let k = choose|k: int| 0 <= k < earlier.len() && earlier[k] == rings[i];
                assert(kept[k] == rings[i]);
            } else {
                assert(kept[kept.len() - 1] == rings[i]);
            }
        }
    }
}

/// The pending rings, soonest first.
pub struct WakeupQueue {
    rings: Vec<ScheduledAlarm>,
}

impl View for WakeupQueue {
    type V = Seq<ScheduledAlarm>;

    closed spec fn view(&self) -> Seq<ScheduledAlarm> {
        self.rings@
    }
}

impl WakeupQueue {
    pub open spec fn wf(self) -> bool {
        is_soonest_first(self@)
    }

    pub fn new() -> (r: WakeupQueue)
        ensures
            r.wf(),
            r@ == Seq::<ScheduledAlarm>::empty(),
    {
        WakeupQueue { rings: Vec::new() }
    }

    /// Puts `ring` in its place, behind the rings of the same moment.
    pub fn push(&mut self, ring: ScheduledAlarm)
        requires
            old(self).wf(),
        ensures
            final(self).wf(),
            is_insertion(old(self)@, ring, final(self)@),
    {
        let mut at: usize = 0;
        while at < self.rings.len() && !self.rings[at].next_wakeup.is_after(&ring.next_wakeup)
            invariant
                at <= self.rings@.len(),
                self.rings@ == old(self)@,
                is_soonest_first(self.rings@),
                forall|i: int|
                    0 <= i < at ==> !(#[trigger] self.rings@[i]).next_wakeup.spec_after(
                        ring.next_wakeup,
                    ),
            decreases self.rings.len() - at,
        {
            at = at + 1;
        }
        self.rings.insert(at, ring);
        assert(is_insertion_at(old(self)@, ring, at as int, self.rings@));
    }

    /// The soonest pending ring.
    pub fn peek(&self) -> (r: Option<ScheduledAlarm>)
        ensures
            r == if self@.len() > 0 {
                Some(self@[0])
            } else {
                None::<ScheduledAlarm>
            },
    {
        if self.rings.len() > 0 {
            Some(self.rings[0])
        } else {
            None
        }
    }

    /// Takes the soonest pending ring out.
    pub fn pop(&mut self) -> (r: Option<ScheduledAlarm>)
        requires
            old(self).wf(),
        ensures
            final(self).wf(),
            old(self)@.len() == 0 ==> r is None && final(self)@ == old(self)@,
            old(self)@.len() > 0 ==> r == Some(old(self)@[0]) && final(self)@ == old(
                self,
            )@.drop_first(),
    {
        if self.rings.len() > 0 {
            let first = self.rings.remove(0);
            assert(self.rings@ =~= old(self)@.drop_first());
            Some(first)
        } else {
            None
        }
    }

    /// Drops the rings of one alarm.
    pub fn drop_alarm(&mut self, id: u128)
        requires
            old(self).wf(),
        ensures
            final(self).wf(),
            final(self)@ == rings_of_others(old(self)@, id),
    {
        let ghost all = self.rings@;
        let mut kept: Vec<ScheduledAlarm> = Vec::new();
        let mut next: usize = 0;
        proof {
            reveal(Seq::filter);
            assert(kept@ =~= rings_of_others(all.take(0), id));
        }
        while next < self.rings.len()
            invariant
                next <= self.rings@.len(),
                self.rings@ == all,
                is_soonest_first(all),
                is_soonest_first(kept@),
                kept@ == rings_of_others(all.take(next as int), id),
                forall|i: int, j: int|
                    0 <= i < kept@.len() && next <= j < all.len() ==> !(
                    #[trigger] kept@[i]).next_wakeup.spec_after((#[trigger] all[j]).next_wakeup),
            decreases self.rings.len() - next,
        {
            let ring = self.rings[next];
            proof {
                reveal(Seq::filter);
                assert(all.take(next + 1).drop_last() =~= all.take(next as int));
                assert(all.take(next + 1).last() == ring);
            }
            if ring.alarm_id != id {
                kept.push(ring);
            }
            next = next + 1;
        }
        assert(all.take(next as int) =~= all);
        self.rings = kept;
    }

    pub fn clear(&mut self)
        ensures
            final(self).wf(),
            final(self)@ == Seq::<ScheduledAlarm>::empty(),
    {
        self.rings.clear();
    }

    /// Drops the rings at the head of the queue that belong to no alarm of `alarms`.
    pub fn drop_stale(&mut self, alarms: &HashMap<u128, Alarm>)
        requires
            old(self).wf(),
        ensures
            final(self).wf(),
            final(self)@ == old(self)@.skip(stale_count(old(self)@, alarms@.dom()) as int),
    {
        let ghost known = alarms@.dom();
        let ghost mut dropped: int = 0;
        assert(self@.skip(0) =~= self@);
        while self.rings.len() > 0 && !alarms.contains_key(&self.rings[0].alarm_id)
            invariant
                self.wf(),
                known == alarms@.dom(),
                0 <= dropped <= old(self)@.len(),
                self@ == old(self)@.skip(dropped),
                stale_count(old(self)@, known) == dropped + stale_count(self@, known),
            decreases self.rings.len(),
        {
            let ghost rest = self@.drop_first();
            assert(stale_count(self@, known) == 1 + stale_count(rest, known));
            self.pop();
            proof {
                dropped = dropped + 1;
                assert(self@ =~= old(self)@.skip(dropped));
            }
        }
    }
}

} // verus!
