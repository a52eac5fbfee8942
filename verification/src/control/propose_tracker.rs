//! Proposers that wait for their entries to be applied.
//!
//! A proposer learns the index of its entry, then waits for it. The apply path
//! may get there first: the result is then kept until the proposer asks. The
//! idempotency key tells whether the entry that was applied at the index is
//! the one that the proposer put there.

use std::collections::HashMap;

use vstd::prelude::*;

use crate::control::error::ControlError;
use crate::control::watermark;
use crate::control::watermark::GroupAppliedWatchers;

verus! {

broadcast use vstd::std_specs::hash::group_hash_axioms;

/// What a proposer gets back: the payload of the applied write, or an error.
pub type ProposeResult = Result<Vec<u8>, ControlError>;

/// One side of a proposal that has come first.
pub enum TrackerSlot<W> {
    /// The proposer waits. A key of 0 accepts any entry.
    Waiting { waiter: W, expected_key: u64 },
    /// The entry was applied; nobody has asked yet. A key of 0 carries none.
    Completed { result: ProposeResult, applied_key: u64 },
}

/// Proposals by group and index, each with the side that has come first.
pub struct ProposeTracker<W> {
    pub slots: HashMap<u128, TrackerSlot<W>>,
    /// How far each group has been applied, where that is watched.
    pub group_watchers: Option<GroupAppliedWatchers>,
}

/// The place of a proposal in the tracker.
pub open spec fn slot_key(group_id: u64, log_index: u64) -> u128 {
    (group_id * 0x1_0000_0000_0000_0000 + log_index) as u128
}

/// No two proposals share a place.
pub proof fn law_slots_are_distinct(g1: u64, i1: u64, g2: u64, i2: u64)
    ensures
        slot_key(g1, i1) == slot_key(g2, i2) <==> g1 == g2 && i1 == i2,
{
}

/// The place of a proposal in the tracker.
fn key_of(group_id: u64, log_index: u64) -> (r: u128)
    ensures
        r == slot_key(group_id, log_index),
{
    (group_id as u128) * 0x1_0000_0000_0000_0000 + (log_index as u128)
}

/// Whether the applied entry is another one than the proposer waits for.
pub open spec fn key_mismatch(applied: u64, expected: u64) -> bool {
    applied != 0 && expected != 0 && applied != expected
}

/// What the proposer gets: the result of its own entry, or word that another
/// entry took its place.
pub open spec fn settled(
    group_id: u64,
    log_index: u64,
    applied: u64,
    expected: u64,
    result: ProposeResult,
) -> ProposeResult {
    if key_mismatch(applied, expected) {
        Err((ControlError::RetryableLeaderChange { group_id, log_index }))
    } else {
        result
    }
}

/// Picks what the proposer gets.
fn settle(
    group_id: u64,
    log_index: u64,
    applied: u64,
    expected: u64,
    result: ProposeResult,
) -> (r: ProposeResult)
    ensures
        r == settled(group_id, log_index, applied, expected, result),
{
    if applied != 0 && expected != 0 && applied != expected {
        Err(ControlError::RetryableLeaderChange { group_id, log_index })
    } else {
        result
    }
}

/// The tracker after a result arrived: a waiter leaves it, else the result stays.
pub open spec fn after_complete<W>(
    t: Map<u128, TrackerSlot<W>>,
    group_id: u64,
    log_index: u64,
    applied_key: u64,
    result: ProposeResult,
) -> Map<u128, TrackerSlot<W>> {
    let k = slot_key(group_id, log_index);
    if t.contains_key(k) && t[k] is Waiting {
        t.remove(k)
    } else {
        t.insert(k, TrackerSlot::Completed { result, applied_key })
    }
}

/// The waiter that a result goes to, with what it is told; none if nobody waits.
pub open spec fn delivery<W>(
    t: Map<u128, TrackerSlot<W>>,
    group_id: u64,
    log_index: u64,
    applied_key: u64,
    result: ProposeResult,
) -> Option<(W, ProposeResult)> {
    let k = slot_key(group_id, log_index);
    if t.contains_key(k) && t[k] is Waiting {
        Some(
            (
                t[k]->waiter,
                settled(group_id, log_index, applied_key, t[k]->expected_key, result),
            ),
        )
    } else {
        None
    }
}

/// The tracker after a proposer registered: a result that was kept leaves it,
/// else the proposer waits.
pub open spec fn after_register<W>(
    t: Map<u128, TrackerSlot<W>>,
    group_id: u64,
    log_index: u64,
    expected_key: u64,
    waiter: W,
) -> Map<u128, TrackerSlot<W>> {
    let k = slot_key(group_id, log_index);
    if t.contains_key(k) && t[k] is Completed {
        t.remove(k)
    } else {
        t.insert(k, TrackerSlot::Waiting { waiter, expected_key })
    }
}

/// What a proposer is told when it registers; nothing if no result was kept.
pub open spec fn pickup<W>(
    t: Map<u128, TrackerSlot<W>>,
    group_id: u64,
    log_index: u64,
    expected_key: u64,
    waiter: W,
) -> Option<(W, ProposeResult)> {
    let k = slot_key(group_id, log_index);
    if t.contains_key(k) && t[k] is Completed {
        Some(
            (
                waiter,
                settled(group_id, log_index, t[k]->applied_key, expected_key, t[k]->result),
            ),
        )
    } else {
        None
    }
}

impl<W> View for ProposeTracker<W> {
    type V = Map<u128, TrackerSlot<W>>;

    open spec fn view(&self) -> Map<u128, TrackerSlot<W>> {
        self.slots@
    }
}

/// The marks of an optional registry; none when nothing is watched.
pub open spec fn marks(w: Option<GroupAppliedWatchers>) -> Option<Map<u64, u64>> {
    match w {
        Some(g) => Some(g@),
        None => None,
    }
}

impl<W> Default for ProposeTracker<W> {
    fn default() -> (r: ProposeTracker<W>)
        ensures
            r@ == Map::<u128, TrackerSlot<W>>::empty(),
            r.group_watchers is None,
    {
        ProposeTracker::new()
    }
}

impl<W> ProposeTracker<W> {
    /// Nothing is waited for, and nothing is watched.
    pub fn new() -> (r: ProposeTracker<W>)
        ensures
            r@ == Map::<u128, TrackerSlot<W>>::empty(),
            r.group_watchers is None,
    {
        ProposeTracker { slots: HashMap::new(), group_watchers: None }
    }

    /// With a registry that is told how far each group has been applied.
    pub fn with_group_watchers(self, watchers: GroupAppliedWatchers) -> (r: ProposeTracker<W>)
        ensures
            r@ == self@,
            r.group_watchers == Some(watchers),
    {
        ProposeTracker { slots: self.slots, group_watchers: Some(watchers) }
    }

    /// Waits for the entry at `log_index`. When it was applied before, the
    /// waiter comes back at once, with what it is to be told. A second waiter
    /// for the same entry takes the place of the first.
    pub fn register(
        &mut self,
        group_id: u64,
        log_index: u64,
        expected_key: u64,
        waiter: W,
    ) -> (r: Option<(W, ProposeResult)>)
        ensures
            final(self).group_watchers == old(self).group_watchers,
            final(self)@ == after_register(
                old(self)@,
                group_id,
                log_index,
                expected_key,
                waiter,
            ),
            r == pickup(old(self)@, group_id, log_index, expected_key, waiter),
    {
        let k: u128 = key_of(group_id, log_index);
        match self.slots.remove(&k) {
            Some(TrackerSlot::Completed { result, applied_key }) => Some(
                (waiter, settle(group_id, log_index, applied_key, expected_key, result)),
            ),
            _ => {
                self.slots.insert(k, TrackerSlot::Waiting { waiter, expected_key });
                assert(self.slots@ =~= old(self).slots@.insert(
                    k,
                    TrackerSlot::Waiting { waiter, expected_key },
                ));
                None
            },
        }
    }

    /// Takes the result of the entry at `log_index`. A waiter comes back, with
    /// what it is to be told; without one the result is kept, in place of an
    /// older one. The group's mark rises either way: the entry is committed,
    /// whether or not it could be applied.
    pub fn complete(
        &mut self,
        group_id: u64,
        log_index: u64,
        applied_key: u64,
        result: ProposeResult,
    ) -> (r: Option<(W, ProposeResult)>)
        ensures
            marks(final(self).group_watchers) == match old(self).group_watchers {
                Some(g) => Some(watermark::bumped(g@, group_id, log_index)),
                None => None,
            },
            final(self)@ == after_complete(
                old(self)@,
                group_id,
                log_index,
                applied_key,
                result,
            ),
            r == delivery(old(self)@, group_id, log_index, applied_key, result),
    {
        match &mut self.group_watchers {
            Some(g) => g.bump(group_id, log_index),
            None => {},
        }
        let k: u128 = key_of(group_id, log_index);
        match self.slots.remove(&k) {
            Some(TrackerSlot::Waiting { waiter, expected_key }) => Some(
                (waiter, settle(group_id, log_index, applied_key, expected_key, result)),
            ),
            _ => {
                self.slots.insert(k, TrackerSlot::Completed { result, applied_key });
                assert(self.slots@ =~= old(self).slots@.insert(
                    k,
                    TrackerSlot::Completed { result, applied_key },
                ));
                None
            },
        }
    }
}

/// A proposer is told the same whether it registers before its entry is
/// applied or after, once in either case, and leaves nothing behind.
pub proof fn law_order_of_registration_does_not_matter<W>(
    t: Map<u128, TrackerSlot<W>>,
    group_id: u64,
    log_index: u64,
    expected_key: u64,
    applied_key: u64,
    waiter: W,
    result: ProposeResult,
)
    requires
        !t.contains_key(slot_key(group_id, log_index)),
    ensures
        ({
            let asked = after_register(t, group_id, log_index, expected_key, waiter);
            let done = after_complete(t, group_id, log_index, applied_key, result);
            &&& pickup(t, group_id, log_index, expected_key, waiter) is None
            &&& delivery(t, group_id, log_index, applied_key, result) is None
            &&& delivery(asked, group_id, log_index, applied_key, result) == pickup(
                done,
                group_id,
                log_index,
                expected_key,
                waiter,
            )
            &&& delivery(asked, group_id, log_index, applied_key, result) is Some
            &&& after_complete(asked, group_id, log_index, applied_key, result) == t
            &&& after_register(done, group_id, log_index, expected_key, waiter) == t
        }),
{
    let asked = after_register(t, group_id, log_index, expected_key, waiter);
    let done = after_complete(t, group_id, log_index, applied_key, result);
    assert(after_complete(asked, group_id, log_index, applied_key, result) =~= t);
    assert(after_register(done, group_id, log_index, expected_key, waiter) =~= t);
}

/// What happens to one proposal leaves the others as they are.
pub proof fn law_proposals_are_independent<W>(
    t: Map<u128, TrackerSlot<W>>,
    group_id: u64,
    log_index: u64,
    other_group: u64,
    other_index: u64,
    expected_key: u64,
    applied_key: u64,
    waiter: W,
    result: ProposeResult,
)
    requires
        group_id != other_group || log_index != other_index,
    ensures
        ({
            let k = slot_key(other_group, other_index);
            let asked = after_register(t, group_id, log_index, expected_key, waiter);
            let done = after_complete(t, group_id, log_index, applied_key, result);
            &&& asked.contains_key(k) == t.contains_key(k)
            &&& done.contains_key(k) == t.contains_key(k)
            &&& t.contains_key(k) ==> asked[k] == t[k] && done[k] == t[k]
        }),
{
    law_slots_are_distinct(group_id, log_index, other_group, other_index);
}

/// A proposer never gets the payload of another proposer's entry: where both
/// keys are known and differ, it is told to propose again.
pub proof fn law_no_foreign_result(
    group_id: u64,
    log_index: u64,
    applied: u64,
    expected: u64,
    result: ProposeResult,
)
    requires
        applied != 0,
        expected != 0,
    ensures
        applied != expected ==> settled(group_id, log_index, applied, expected, result) == Err::<
            Vec<u8>,
            ControlError,
        >((ControlError::RetryableLeaderChange { group_id, log_index })),
        applied == expected ==> settled(group_id, log_index, applied, expected, result) == result,
{
}

} // verus!
