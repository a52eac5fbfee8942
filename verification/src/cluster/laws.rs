//! What can be relied on of a migration as a whole, and of a node's groups.

use vstd::prelude::*;

use crate::cluster::migration_executor;
use crate::cluster::migration_executor::{
    MigrationAction, MigrationEvent, MigrationExecutor, MigrationRun, MigrationStage,
};
use crate::cluster::multi_raft::MultiRaft;
use crate::raft::node::config::ConfigView;
use crate::raft::node::machine::NodeView;
use crate::raft::state::NodeRole;
use crate::raft::storage::{LogStorage, StoredView};
use crate::time::Instant;

verus! {

/// How many checkpoints have been asked for by the time a stage is reached.
pub open spec fn checkpoints_before(stage: MigrationStage) -> int {
    match stage {
        MigrationStage::ReadCommit => 0,
        MigrationStage::AddLearnerCheckpoint => 1,
        MigrationStage::AddLearner => 1,
        MigrationStage::RegisterTarget => 1,
        MigrationStage::CatchUpCheckpoint => 2,
        MigrationStage::ObserveTarget => 2,
        MigrationStage::Polling => 2,
        MigrationStage::PromoteLearner => 2,
        MigrationStage::PromoteCheckpoint => 3,
        MigrationStage::TransferCheckpoint => 4,
        MigrationStage::Transfer => 4,
        MigrationStage::CutoverCheckpoint => 5,
        MigrationStage::SaveGhosts => 5,
        _ => 6,
    }
}

/// Checkpoints are numbered as they come: each is asked for once, after all
/// earlier ones were written.
pub proof fn law_checkpoints_in_order(
    before: MigrationExecutor,
    after: MigrationExecutor,
    from: MigrationRun,
    ev: MigrationEvent,
    now: Instant,
    wall_ms: u64,
    to: MigrationRun,
    act: MigrationAction,
)
    requires
        before.advanced(&after, from, ev, now, wall_ms, to, act),
    ensures
        act matches MigrationAction::Checkpoint { attempt, .. } ==> attempt == checkpoints_before(
            from.stage,
        ) && checkpoints_before(to.stage) == attempt + 1,
        !(act is Checkpoint) && to.stage != MigrationStage::Aborted ==> checkpoints_before(
            to.stage,
        ) == checkpoints_before(from.stage),
{
}

/// The target becomes a voter only when it has caught up.
pub proof fn law_promotion_after_catch_up(
    before: MigrationExecutor,
    after: MigrationExecutor,
    from: MigrationRun,
    ev: MigrationEvent,
    now: Instant,
    wall_ms: u64,
    to: MigrationRun,
    act: MigrationAction,
)
    requires
        before.advanced(&after, from, ev, now, wall_ms, to, act),
        act is PromoteLearner,
    ensures
        to.state.caught_up(),
        from.stage == MigrationStage::Polling,
{
}

/// Leadership is moved only if the pause that is expected is within the budget.
pub proof fn law_cutover_within_budget(
    before: MigrationExecutor,
    after: MigrationExecutor,
    from: MigrationRun,
    ev: MigrationEvent,
    now: Instant,
    wall_ms: u64,
    to: MigrationRun,
    act: MigrationAction,
)
    requires
        before.advanced(&after, from, ev, now, wall_ms, to, act),
        act matches MigrationAction::Checkpoint { payload, .. } && payload is LeadershipTransfer,
    ensures
        migration_executor::ESTIMATED_PAUSE_US <= from.state.write_pause_budget_us,
{
}

/// Whether a stub for the shard is in place.
pub open spec fn stub_in_place(e: MigrationExecutor, vshard: u32) -> bool {
    exists|i: int, wall_ms: u64|
        0 <= i < e.ghost_table.stubs@.len() && #[trigger] MigrationExecutor::is_stub_for(
            e.ghost_table.stubs@[i],
            vshard,
            wall_ms,
        )
}

/// From the cut-over on the stub is in place: the checkpoint that says so is
/// asked for only where it is true.
pub proof fn law_stub_before_completion(
    before: MigrationExecutor,
    after: MigrationExecutor,
    from: MigrationRun,
    ev: MigrationEvent,
    now: Instant,
    wall_ms: u64,
    to: MigrationRun,
    act: MigrationAction,
)
    requires
        before.advanced(&after, from, ev, now, wall_ms, to, act),
        from.stage == MigrationStage::SaveGhosts || from.stage
            == MigrationStage::CompleteCheckpoint ==> stub_in_place(before, from.req.vshard_id),
    ensures
        to.req == from.req,
        to.stage == MigrationStage::SaveGhosts || to.stage == MigrationStage::CompleteCheckpoint
            ==> stub_in_place(after, to.req.vshard_id),
        act matches MigrationAction::Checkpoint { payload, .. } && payload is Complete
            ==> stub_in_place(after, from.req.vshard_id),
{
    if from.stage == MigrationStage::CutoverCheckpoint && to.stage != from.stage && to.stage
        != MigrationStage::Aborted {
        let s = after.ghost_table.stubs@;
        assert(MigrationExecutor::is_stub_for(s[s.len() - 1], from.req.vshard_id, wall_ms));
    }
    if from.stage == MigrationStage::SaveGhosts || from.stage
        == MigrationStage::CompleteCheckpoint {
        assert(after.ghost_table == before.ghost_table);
    }
}

/// A node that joins a group as a learner starts as one, and keeps the term and
/// the vote that its storage holds.
pub proof fn law_learner_group_starts_as_learner(
    config: ConfigView,
    stored: StoredView,
    now: u64,
)
    requires
        config.starts_as_learner,
    ensures
        NodeView::booting(config, stored, now).restored(now).role == NodeRole::Learner,
        NodeView::booting(config, stored, now).restored(now).hard_state == stored.hard_state,
{
}

/// What is done to one group leaves every other group as it is, and the routing
/// too.
pub proof fn law_groups_are_independent<S: LogStorage>(
    from: MultiRaft<S>,
    to: MultiRaft<S>,
    g: u64,
    other: u64,
)
    requires
        from.same_but(&to, g),
        other != g,
    ensures
        to.groups@.contains_key(other) == from.groups@.contains_key(other),
        from.groups@.contains_key(other) ==> to.groups@[other] == from.groups@[other],
        to.routing == from.routing,
{
}

} // verus!
