//! Committed entries on their way to being applied.
//!
//! The Raft loop hands committed entries over without waiting. Empty entries
//! open a leader's term and carry no write; the others are queued for the apply
//! loop, which runs each of them and settles its proposer.

use vstd::prelude::*;

use crate::control::error::ControlError;
use crate::control::propose_tracker;
use crate::control::propose_tracker::{ProposeResult, ProposeTracker, TrackerSlot};
use crate::control::watermark;
use crate::raft::message;
use crate::raft::message::{EntryView, LogEntry};

verus! {

/// Batches that may wait for the apply loop.
pub const APPLY_QUEUE_CAPACITY: usize = 1024;

/// Entries of one group for the apply loop.
#[derive(Debug)]
pub struct ApplyBatch {
    pub group_id: u64,
    pub entries: Vec<LogEntry>,
}

/// What has to be done with committed entries.
pub struct ApplyStep<W> {
    /// Proposers whose entries were overwritten, each with what it is told.
    pub deliveries: Vec<(W, ProposeResult)>,
    /// Entries to be queued, if there are any.
    pub batch: Option<ApplyBatch>,
    /// Index of the last entry, 0 without entries.
    pub last_index: u64,
}

impl<W> ApplyStep<W> {
    /// How far the group counts as applied once the batch was offered to the
    /// queue.
    pub open spec fn counts_to(&self, queued: bool) -> u64 {
        if self.batch is None || queued {
            self.last_index
        } else {
            0
        }
    }

    /// How far the group counts as applied once the batch was offered to the
    /// queue. A full queue takes nothing, and the entries come again.
    pub fn applied_to(&self, queued: bool) -> (r: u64)
        ensures
            r == self.counts_to(queued),
    {
        if self.batch.is_none() || queued {
            self.last_index
        } else {
            0
        }
    }
}

/// The entries that carry a write, in order.
pub open spec fn real_entries(es: Seq<EntryView>) -> Seq<EntryView>
    decreases es.len(),
{
    if es.len() == 0 {
        Seq::empty()
    } else if es.last().data.len() == 0 {
        real_entries(es.drop_last())
    } else {
        real_entries(es.drop_last()).push(es.last())
    }
}

/// What the proposer of an overwritten entry is told.
pub open spec fn overwritten_result(group_id: u64, log_index: u64) -> ProposeResult {
    Err((ControlError::RetryableLeaderChange { group_id, log_index }))
}

/// The tracker after the empty entries among `es` were completed, in order.
pub open spec fn noops_tracked<W>(
    t: Map<u128, TrackerSlot<W>>,
    group_id: u64,
    es: Seq<EntryView>,
) -> Map<u128, TrackerSlot<W>>
    decreases es.len(),
{
    if es.len() == 0 {
        t
    } else {
        let before = noops_tracked(t, group_id, es.drop_last());
        let e = es.last();
        if e.data.len() == 0 {
            propose_tracker::after_complete(
                before,
                group_id,
                e.index,
                0,
                overwritten_result(group_id, e.index),
            )
        } else {
            before
        }
    }
}

/// The proposers that waited for the empty entries among `es`, in order.
pub open spec fn noops_delivered<W>(
    t: Map<u128, TrackerSlot<W>>,
    group_id: u64,
    es: Seq<EntryView>,
) -> Seq<(W, ProposeResult)>
    decreases es.len(),
{
    if es.len() == 0 {
        Seq::empty()
    } else {
        let before = noops_delivered(t, group_id, es.drop_last());
        let e = es.last();
        if e.data.len() == 0 {
            match propose_tracker::delivery(
                noops_tracked(t, group_id, es.drop_last()),
                group_id,
                e.index,
                0,
                overwritten_result(group_id, e.index),
            ) {
                Some(d) => before.push(d),
                None => before,
            }
        } else {
            before
        }
    }
}

/// The marks after the empty entries among `es` were completed.
pub open spec fn noops_marked(
    m: Option<Map<u64, u64>>,
    group_id: u64,
    es: Seq<EntryView>,
) -> Option<Map<u64, u64>>
    decreases es.len(),
{
    if es.len() == 0 {
        m
    } else {
        let before = noops_marked(m, group_id, es.drop_last());
        if es.last().data.len() == 0 {
            match before {
                Some(g) => Some(watermark::bumped(g, group_id, es.last().index)),
                None => None,
            }
        } else {
            before
        }
    }
}

/// Hands committed entries over.
pub struct DistributedApplier<W> {
    pub tracker: ProposeTracker<W>,
}

impl<W> DistributedApplier<W> {
    /// An applier over a tracker.
    pub fn new(tracker: ProposeTracker<W>) -> (r: DistributedApplier<W>)
        ensures
            r.tracker == tracker,
    {
        DistributedApplier { tracker }
    }

    /// The tracker, in which proposers wait.
    pub fn tracker(&mut self) -> (r: &mut ProposeTracker<W>)
        ensures
            *r == old(self).tracker,
            final(self).tracker == *final(r),
    {
        &mut self.tracker
    }

    /// Whether the applier becomes `to`, and `step` is what has to be done, when
    /// committed entries of a group come in.
    pub open spec fn handed_over(
        from: DistributedApplier<W>,
        group_id: u64,
        es: Seq<EntryView>,
        to: DistributedApplier<W>,
        step: ApplyStep<W>,
    ) -> bool {
        &&& to.tracker@ == noops_tracked(from.tracker@, group_id, es)
        &&& propose_tracker::marks(to.tracker.group_watchers) == noops_marked(
            propose_tracker::marks(from.tracker.group_watchers),
            group_id,
            es,
        )
        &&& step.deliveries@ == noops_delivered(from.tracker@, group_id, es)
        &&& step.last_index == if es.len() == 0 {
            0
        } else {
            es.last().index
        }
        &&& step.batch is None <==> real_entries(es).len() == 0
        &&& step.batch matches Some(b) ==> b.group_id == group_id && message::entries_view(
            b.entries@,
        ) == real_entries(es)
    }

    /// Takes committed entries of a group.
    ///
    /// An empty entry stands where a new leader opened its term. Whoever waits
    /// for that index proposed under the old leader, and the proposal is gone:
    /// the proposer is told to propose again, not that its write succeeded.
    pub fn apply_committed(&mut self, group_id: u64, entries: &[LogEntry]) -> (r: ApplyStep<W>)
        ensures
            Self::handed_over(
                *old(self),
                group_id,
                message::entries_view(entries@),
                *final(self),
                r,
            ),
    {
        let ghost es = message::entries_view(entries@);
        let last_index: u64 = if entries.len() == 0 {
            0
        } else {
            entries[entries.len() - 1].index
        };
        let mut deliveries: Vec<(W, ProposeResult)> = Vec::new();
        let mut writes: Vec<LogEntry> = Vec::new();
        let mut i: usize = 0;
        proof {
            assert(es.take(0) =~= Seq::empty());
            assert(message::entries_view(writes@) =~= Seq::empty());
        }
        while i < entries.len()
            invariant
                i <= entries@.len(),
                es == message::entries_view(entries@),
                self.tracker@ == noops_tracked(old(self).tracker@, group_id, es.take(i as int)),
                propose_tracker::marks(self.tracker.group_watchers) == noops_marked(
                    propose_tracker::marks(old(self).tracker.group_watchers),
                    group_id,
                    es.take(i as int),
                ),
                deliveries@ == noops_delivered(
                    old(self).tracker@,
                    group_id,
                    es.take(i as int),
                ),
                message::entries_view(writes@) == real_entries(es.take(i as int)),
            decreases entries@.len() - i,
        {
            let ghost t = es.take(i + 1);
            proof {
                assert(t.drop_last() =~= es.take(i as int));
                assert(t.last() == entries@[i as int]@);
            }
            let index: u64 = entries[i].index;
            if entries[i].data.len() == 0 {
                let told = Err(ControlError::RetryableLeaderChange { group_id, log_index: index });
                match self.tracker.complete(group_id, index, 0, told) {
                    Some(d) => deliveries.push(d),
                    None => {},
                }
            } else {
                let e = entries[i].clone();
                proof {
                    message::lemma_entries_view_push(writes@, e);
                }
                writes.push(e);
            }
            i = i + 1;
        }
        proof {
            assert(es.take(i as int) =~= es);
            assert(message::entries_view(writes@).len() == writes@.len());
        }
        let batch = if writes.len() == 0 {
            None
        } else {
            Some(ApplyBatch { group_id, entries: writes })
        };
        ApplyStep { deliveries, batch, last_index }
    }
}

/// An applier over a tracker, and how many batches its queue may hold.
pub fn create_distributed_applier<W>(
    tracker: ProposeTracker<W>,
) -> (r: (DistributedApplier<W>, usize))
    ensures
        r.0.tracker == tracker,
        r.1 == APPLY_QUEUE_CAPACITY,
        r.1 == 1024,
{
    (DistributedApplier::new(tracker), APPLY_QUEUE_CAPACITY)
}

} // verus!
