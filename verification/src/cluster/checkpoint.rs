//! Checkpoints of a migration, and the stubs that it leaves behind.

use vstd::prelude::*;

use crate::time::Hlc;
use crate::wal::crc32c;
use crate::wal::le;

verus! {

/// What a checkpoint marks.
#[derive(Debug, Clone, Copy, PartialEq, Eq, Structural)]
pub enum MigrationPhaseTag {
    AddLearner,
    CatchUp,
    PromoteLearner,
    LeadershipTransfer,
    Cutover,
    Complete,
}

/// What a checkpoint records.
#[derive(Debug, Clone, Copy, PartialEq, Eq, Structural)]
pub enum MigrationCheckpointPayload {
    AddLearner {
        vshard_id: u32,
        source_node: u64,
        target_node: u64,
        source_group: u64,
        write_pause_budget_us: u64,
        started_at_hlc: Hlc,
    },
    CatchUp { vshard_id: u32, learner_log_index_at_add: u64 },
    PromoteLearner { vshard_id: u32, target_node: u64, source_group: u64 },
    LeadershipTransfer {
        vshard_id: u32,
        target_is_voter: bool,
        new_leader_node_id: u64,
        source_group: u64,
    },
    Cutover { vshard_id: u32, new_leader_node_id: u64, source_group: u64 },
    Complete { vshard_id: u32, actual_pause_us: u64, ghost_stub_installed: bool },
}

/// The phase that a checkpoint marks.
pub open spec fn tag_of(p: MigrationCheckpointPayload) -> MigrationPhaseTag {
    match p {
        MigrationCheckpointPayload::AddLearner { .. } => MigrationPhaseTag::AddLearner,
        MigrationCheckpointPayload::CatchUp { .. } => MigrationPhaseTag::CatchUp,
        MigrationCheckpointPayload::PromoteLearner { .. } => MigrationPhaseTag::PromoteLearner,
        MigrationCheckpointPayload::LeadershipTransfer {
            ..
        } => MigrationPhaseTag::LeadershipTransfer,
        MigrationCheckpointPayload::Cutover { .. } => MigrationPhaseTag::Cutover,
        MigrationCheckpointPayload::Complete { .. } => MigrationPhaseTag::Complete,
    }
}

/// The shard that a checkpoint is about.
pub open spec fn shard_of(p: MigrationCheckpointPayload) -> u32 {
    match p {
        MigrationCheckpointPayload::AddLearner { vshard_id, .. } => vshard_id,
        MigrationCheckpointPayload::CatchUp { vshard_id, .. } => vshard_id,
        MigrationCheckpointPayload::PromoteLearner { vshard_id, .. } => vshard_id,
        MigrationCheckpointPayload::LeadershipTransfer { vshard_id, .. } => vshard_id,
        MigrationCheckpointPayload::Cutover { vshard_id, .. } => vshard_id,
        MigrationCheckpointPayload::Complete { vshard_id, .. } => vshard_id,
    }
}

/// A flag as a number.
pub open spec fn flag(b: bool) -> u64 {
    if b {
        1
    } else {
        0
    }
}

/// The numbers that a checkpoint records, the kind first.
pub open spec fn numbers(p: MigrationCheckpointPayload) -> Seq<u64> {
    match p {
        MigrationCheckpointPayload::AddLearner {
            vshard_id,
            source_node,
            target_node,
            source_group,
            write_pause_budget_us,
            started_at_hlc,
        } => seq![
            0u64,
            vshard_id as u64,
            source_node,
            target_node,
            source_group,
            write_pause_budget_us,
            started_at_hlc.wall_nanos,
            started_at_hlc.counter,
        ],
        MigrationCheckpointPayload::CatchUp { vshard_id, learner_log_index_at_add } => seq![
            1u64,
            vshard_id as u64,
            learner_log_index_at_add,
        ],
        MigrationCheckpointPayload::PromoteLearner {
            vshard_id,
            target_node,
            source_group,
        } => seq![2u64, vshard_id as u64, target_node, source_group],
        MigrationCheckpointPayload::LeadershipTransfer {
            vshard_id,
            target_is_voter,
            new_leader_node_id,
            source_group,
        } => seq![
            3u64,
            vshard_id as u64,
            flag(target_is_voter),
            new_leader_node_id,
            source_group,
        ],
        MigrationCheckpointPayload::Cutover {
            vshard_id,
            new_leader_node_id,
            source_group,
        } => seq![4u64, vshard_id as u64, new_leader_node_id, source_group],
        MigrationCheckpointPayload::Complete {
            vshard_id,
            actual_pause_us,
            ghost_stub_installed,
        } => seq![5u64, vshard_id as u64, actual_pause_us, flag(ghost_stub_installed)],
    }
}

/// Numbers as bytes.
pub open spec fn number_bytes(s: Seq<u64>) -> Seq<u8>
    decreases s.len(),
{
    if s.len() == 0 {
        Seq::empty()
    } else {
        number_bytes(s.drop_last()) + le::le64(s.last())
    }
}

/// A flag as a number.
fn flag_number(b: bool) -> (r: u64)
    ensures
        r == flag(b),
{
    if b {
        1
    } else {
        0
    }
}

impl MigrationCheckpointPayload {
    /// The phase that the checkpoint marks.
    pub fn phase_tag(&self) -> (r: MigrationPhaseTag)
        ensures
            r == tag_of(*self),
    {
        match self {
            MigrationCheckpointPayload::AddLearner { .. } => MigrationPhaseTag::AddLearner,
            MigrationCheckpointPayload::CatchUp { .. } => MigrationPhaseTag::CatchUp,
            MigrationCheckpointPayload::PromoteLearner { .. } => MigrationPhaseTag::PromoteLearner,
            MigrationCheckpointPayload::LeadershipTransfer {
                ..
            } => MigrationPhaseTag::LeadershipTransfer,
            MigrationCheckpointPayload::Cutover { .. } => MigrationPhaseTag::Cutover,
            MigrationCheckpointPayload::Complete { .. } => MigrationPhaseTag::Complete,
        }
    }

    /// The shard that the checkpoint is about.
    pub fn vshard_id(&self) -> (r: u32)
        ensures
            r == shard_of(*self),
    {
        match self {
            MigrationCheckpointPayload::AddLearner { vshard_id, .. } => *vshard_id,
            MigrationCheckpointPayload::CatchUp { vshard_id, .. } => *vshard_id,
            MigrationCheckpointPayload::PromoteLearner { vshard_id, .. } => *vshard_id,
            MigrationCheckpointPayload::LeadershipTransfer { vshard_id, .. } => *vshard_id,
            MigrationCheckpointPayload::Cutover { vshard_id, .. } => *vshard_id,
            MigrationCheckpointPayload::Complete { vshard_id, .. } => *vshard_id,
        }
    }

    /// The numbers that the checkpoint records.
    fn to_numbers(&self) -> (r: Vec<u64>)
        ensures
            r@ == numbers(*self),
    {
        let r: Vec<u64> = match self {
            MigrationCheckpointPayload::AddLearner {
                vshard_id,
                source_node,
                target_node,
                source_group,
                write_pause_budget_us,
                started_at_hlc,
            } => vec![
                0,
                *vshard_id as u64,
                *source_node,
                *target_node,
                *source_group,
                *write_pause_budget_us,
                started_at_hlc.wall_nanos,
                started_at_hlc.counter,
            ],
            MigrationCheckpointPayload::CatchUp {
                vshard_id,
                learner_log_index_at_add,
            } => vec![1, *vshard_id as u64, *learner_log_index_at_add],
            MigrationCheckpointPayload::PromoteLearner {
                vshard_id,
                target_node,
                source_group,
            } => vec![2, *vshard_id as u64, *target_node, *source_group],
            MigrationCheckpointPayload::LeadershipTransfer {
                vshard_id,
                target_is_voter,
                new_leader_node_id,
                source_group,
            } => vec![
                3,
                *vshard_id as u64,
                flag_number(*target_is_voter),
                *new_leader_node_id,
                *source_group,
            ],
            MigrationCheckpointPayload::Cutover {
                vshard_id,
                new_leader_node_id,
                source_group,
            } => vec![4, *vshard_id as u64, *new_leader_node_id, *source_group],
            MigrationCheckpointPayload::Complete {
                vshard_id,
                actual_pause_us,
                ghost_stub_installed,
            } => vec![5, *vshard_id as u64, *actual_pause_us, flag_number(*ghost_stub_installed)],
        };
        assert(r@ =~= numbers(*self));
        r
    }

    /// The checksum of what the checkpoint records.
    pub fn crc32c(&self) -> (r: u32)
        ensures
            r == crc32c::checksum(number_bytes(numbers(*self))),
    {
        let ns = self.to_numbers();
        let mut b: Vec<u8> = Vec::new();
        let mut i: usize = 0;
        assert(ns@.take(0) =~= Seq::empty());
        while i < ns.len()
            invariant
                i <= ns@.len(),
                b@ == number_bytes(ns@.take(i as int)),
            decreases ns@.len() - i,
        {
            assert(ns@.take(i + 1).drop_last() =~= ns@.take(i as int));
            b.append(&mut le::u64_to_le(ns[i]));
            i = i + 1;
        }
        assert(ns@.take(i as int) =~= ns@);
        let none: Vec<u8> = Vec::new();
        assert(b@ + none@ =~= b@);
        crc32c::checksum_of(b.as_slice(), none.as_slice())
    }
}

/// The last checkpoint of a migration. A row whose id cannot be read has none.
#[derive(Debug, Clone, Copy, PartialEq, Eq, Structural)]
pub struct CheckpointRow {
    pub migration_id: Option<u128>,
    pub payload: MigrationCheckpointPayload,
}

/// The last checkpoints of all migrations.
pub struct MigrationStateTable {
    pub rows: Vec<CheckpointRow>,
}

/// Whether a row is of a migration of `vshard` that has not completed.
pub open spec fn is_running(row: CheckpointRow, vshard: u32) -> bool {
    row.migration_id is Some && shard_of(row.payload) == vshard && tag_of(row.payload)
        != MigrationPhaseTag::Complete
}

/// The rows of other migrations than `id`, in order.
pub open spec fn without_row(s: Seq<CheckpointRow>, id: u128) -> Seq<CheckpointRow>
    decreases s.len(),
{
    if s.len() == 0 {
        Seq::empty()
    } else if s.last().migration_id == Some(id) {
        without_row(s.drop_last(), id)
    } else {
        without_row(s.drop_last(), id).push(s.last())
    }
}

impl MigrationStateTable {
    /// No migrations.
    pub fn new() -> (r: MigrationStateTable)
        ensures
            r.rows@ == Seq::<CheckpointRow>::empty(),
    {
        MigrationStateTable { rows: Vec::new() }
    }

    /// Whether a migration of the shard has not completed.
    pub fn has_running(&self, vshard: u32) -> (r: bool)
        ensures
            r == (exists|i: int|
                0 <= i < self.rows@.len() && is_running(#[trigger] self.rows@[i], vshard)),
    {
        let mut i: usize = 0;
        while i < self.rows.len()
            invariant
                i <= self.rows@.len(),
                forall|k: int| 0 <= k < i ==> !is_running(#[trigger] self.rows@[k], vshard),
            decreases self.rows@.len() - i,
        {
            let row = self.rows[i];
            if row.migration_id.is_some() && row.payload.vshard_id() == vshard
                && row.payload.phase_tag() != MigrationPhaseTag::Complete {
                assert(is_running(self.rows@[i as int], vshard));
                return true;
            }
            i = i + 1;
        }
        false
    }

    /// Forgets a migration.
    pub fn remove(&mut self, id: u128)
        ensures
            final(self).rows@ == without_row(old(self).rows@, id),
    {
        let mut keep: Vec<CheckpointRow> = Vec::new();
        let mut i: usize = 0;
        assert(self.rows@.take(0) =~= Seq::empty());
        while i < self.rows.len()
            invariant
                i <= self.rows@.len(),
                self.rows@ == old(self).rows@,
                keep@ == without_row(self.rows@.take(i as int), id),
            decreases self.rows@.len() - i,
        {
            assert(self.rows@.take(i + 1).drop_last() =~= self.rows@.take(i as int));
            let row = self.rows[i];
            let same: bool = match row.migration_id {
                Some(m) => m == id,
                None => false,
            };
            if !same {
                keep.push(row);
            }
            i = i + 1;
        }
        assert(self.rows@.take(i as int) =~= self.rows@);
        self.rows = keep;
    }
}

/// Left on the source of a migration, to find what has moved.
#[derive(Debug)]
pub struct GhostStub {
    pub node_id: String,
    pub target_shard: u32,
    pub refcount: u32,
    pub created_at_ms: u64,
}

/// The stubs that a node holds.
pub struct GhostTable {
    pub stubs: Vec<GhostStub>,
}

/// The stubs whose id is not `id`, in order.
pub open spec fn without_stub(s: Seq<GhostStub>, id: Seq<char>) -> Seq<GhostStub>
    decreases s.len(),
{
    if s.len() == 0 {
        Seq::empty()
    } else if s.last().node_id@ == id {
        without_stub(s.drop_last(), id)
    } else {
        without_stub(s.drop_last(), id).push(s.last())
    }
}

impl GhostTable {
    /// No stubs.
    pub fn new() -> (r: GhostTable)
        ensures
            r.stubs@ == Seq::<GhostStub>::empty(),
    {
        GhostTable { stubs: Vec::new() }
    }

    /// Takes a stub in, in place of one with the same id.
    pub fn insert(&mut self, stub: GhostStub)
        ensures
            final(self).stubs@ == without_stub(old(self).stubs@, stub.node_id@).push(stub),
    {
        let mut rest: Vec<GhostStub> = Vec::new();
        core::mem::swap(&mut rest, &mut self.stubs);
        let ghost all = rest@;
        let ghost mut n: int = 0;
        assert(all.take(0) =~= Seq::empty());
        assert(all.skip(0) =~= all);
        while rest.len() > 0
            invariant
                0 <= n <= all.len(),
                all == old(self).stubs@,
                rest@ == all.skip(n),
                self.stubs@ == without_stub(all.take(n), stub.node_id@),
            decreases rest@.len(),
        {
            let s = rest.remove(0);
            proof {
                assert(all.take(n + 1).drop_last() =~= all.take(n));
                assert(all.take(n + 1).last() == s);
                assert(rest@ =~= all.skip(n + 1));
                n = n + 1;
            }
            if s.node_id != stub.node_id {
                self.stubs.push(s);
            }
        }
        assert(all.take(n) =~= all);
        self.stubs.push(stub);
    }
}

} // verus!
