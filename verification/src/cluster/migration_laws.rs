//! What a migration does at each event, said in terms of what was seen outside
//! and what is asked for next.

use vstd::prelude::*;

use crate::cluster::checkpoint;
use crate::cluster::checkpoint::{
    CheckpointRow, GhostStub, MigrationCheckpointPayload, MigrationPhaseTag,
};
use crate::cluster::error::ClusterError;
use crate::cluster::migration;
use crate::cluster::migration::{MigrationPhase, MigrationState};
use crate::cluster::migration_executor;
use crate::cluster::migration_executor::{
    CheckpointEntry, MigrationAction, MigrationEvent, MigrationExecutor, MigrationRequest,
    MigrationRun, MigrationStage,
};
use crate::text;
use crate::time::{Duration, Instant};
use crate::wal::le;

verus! {

/// A look at the target that finds no connection, or another one, although the
/// first look found one, ends the migration, and the caller is told why.
pub proof fn law_lost_connection_ends_migration(
    before: MigrationExecutor,
    after: MigrationExecutor,
    from: MigrationRun,
    stable_id: Option<u64>,
    addr: Option<String>,
    commit_index: Option<u64>,
    target_match: Option<u64>,
    now: Instant,
    wall_ms: u64,
    to: MigrationRun,
    act: MigrationAction,
)
    requires
        before.advanced(
            &after,
            from,
            MigrationEvent::Seen { stable_id, addr, commit_index, target_match },
            now,
            wall_ms,
            to,
            act,
        ),
        from.stage == MigrationStage::Polling,
        from.initial_stable_id is Some,
        stable_id != from.initial_stable_id,
    ensures
        to.stage == MigrationStage::Aborted,
        to.state.phase is Failed,
        to.state.finished_at == Some(now),
        act matches MigrationAction::Abort { error } && error is Transport,
        to.state.phase matches MigrationPhase::Failed { reason } && reason@
            == act->Abort_error->detail@,
        stable_id is None ==> act->Abort_error->detail@ == "connection to target node "@
            + text::decimal(from.req.target_node as int) + " lost during migration"@,
        stable_id matches Some(id) ==> act->Abort_error->detail@
            == "peer identity changed mid-migration: stable_id "@ + text::decimal(
            from.initial_stable_id->0 as int,
        ) + " -> "@ + text::decimal(id as int) + " for node "@ + text::decimal(
            from.req.target_node as int,
        ),
        after == before,
{
}

/// A look at the target that finds it at another address than the first look
/// ends the migration too.
pub proof fn law_moved_target_ends_migration(
    before: MigrationExecutor,
    after: MigrationExecutor,
    from: MigrationRun,
    stable_id: Option<u64>,
    addr: Option<String>,
    commit_index: Option<u64>,
    target_match: Option<u64>,
    now: Instant,
    wall_ms: u64,
    to: MigrationRun,
    act: MigrationAction,
)
    requires
        before.advanced(
            &after,
            from,
            MigrationEvent::Seen { stable_id, addr, commit_index, target_match },
            now,
            wall_ms,
            to,
            act,
        ),
        from.stage == MigrationStage::Polling,
        addr is Some != from.initial_addr is Some || (addr is Some && addr->0@
            != from.initial_addr->0@),
    ensures
        to.stage == MigrationStage::Aborted,
        to.state.phase is Failed,
        to.state.finished_at == Some(now),
        act matches MigrationAction::Abort { error } && error is Transport,
        from.initial_stable_id is None || stable_id == from.initial_stable_id
            ==> act->Abort_error->detail@ == "target node "@ + text::decimal(
            from.req.target_node as int,
        ) + " address changed: "@ + migration_executor::debug_addr(
            migration_executor::addr_view(from.initial_addr),
        ) + " -> "@ + migration_executor::debug_addr(migration_executor::addr_view(addr)),
        to.state.phase matches MigrationPhase::Failed { reason } && reason@
            == act->Abort_error->detail@,
{
}

/// The target is asked to be promoted only at a look that finds the connection
/// of the first look, where that one was known, and the address of the first
/// look, and that finds the target to hold the log as far as it is committed.
pub proof fn law_promotion_of_the_same_target(
    before: MigrationExecutor,
    after: MigrationExecutor,
    from: MigrationRun,
    ev: MigrationEvent,
    now: Instant,
    wall_ms: u64,
    to: MigrationRun,
    act: MigrationAction,
)
    requires
        before.advanced(&after, from, ev, now, wall_ms, to, act),
        act is PromoteLearner,
    ensures
        ev matches MigrationEvent::Seen { stable_id, addr, commit_index, target_match } && {
            &&& from.initial_stable_id is Some ==> stable_id == from.initial_stable_id
            &&& addr is Some == from.initial_addr is Some
            &&& addr is Some ==> addr->0@ == from.initial_addr->0@
            &&& from.state.phase is WalCatchUp
            &&& commit_index matches Some(c) ==> target_match matches Some(m) && m >= c || c == 0
        },
        from.stage == MigrationStage::Polling,
        act == (MigrationAction::PromoteLearner {
            group_id: from.group_id,
            node_id: from.req.target_node,
        }),
{
}

/// A target that is where and what it was at the first look is promoted at the
/// look that finds it caught up, however late that look comes.
pub proof fn law_caught_up_target_is_promoted(
    before: MigrationExecutor,
    after: MigrationExecutor,
    from: MigrationRun,
    stable_id: Option<u64>,
    addr: Option<String>,
    committed: u64,
    matched: u64,
    now: Instant,
    wall_ms: u64,
    to: MigrationRun,
    act: MigrationAction,
)
    requires
        before.advanced(
            &after,
            from,
            MigrationEvent::Seen {
                stable_id,
                addr,
                commit_index: Some(committed),
                target_match: Some(matched),
            },
            now,
            wall_ms,
            to,
            act,
        ),
        from.stage == MigrationStage::Polling,
        from.state.phase is WalCatchUp,
        from.initial_stable_id is None || stable_id == from.initial_stable_id,
        addr is Some == from.initial_addr is Some,
        addr is Some ==> addr->0@ == from.initial_addr->0@,
    ensures
        matched >= committed ==> act == (MigrationAction::PromoteLearner {
            group_id: from.group_id,
            node_id: from.req.target_node,
        }) && to.stage == MigrationStage::PromoteLearner,
        matched < committed && now.nanos < from.deadline.nanos ==> to.stage
            == MigrationStage::Polling && act == (MigrationAction::Poll {
            after: Duration { nanos: 100_000_000 },
            group_id: from.group_id,
            node_id: from.req.target_node,
        }),
        matched < committed && now.nanos >= from.deadline.nanos ==> to.stage
            == MigrationStage::Aborted && to.state.phase is Failed && (act matches
            MigrationAction::Abort { error } && error is Transport && error->detail@
            == "WAL catch-up timed out after 60s (leader="@ + text::decimal(committed as int)
            + ", target="@ + text::decimal(matched as int) + ")"@),
        matched < committed ==> (to.state.phase is WalCatchUp || to.state.phase is Failed),
        to.initial_stable_id == from.initial_stable_id,
        to.initial_addr == from.initial_addr,
        to.deadline == from.deadline,
{
}

/// The first look at the target is what later looks are held against, and the
/// target has a minute from then on.
pub proof fn law_first_look_is_remembered(
    before: MigrationExecutor,
    after: MigrationExecutor,
    from: MigrationRun,
    stable_id: Option<u64>,
    addr: Option<String>,
    commit_index: Option<u64>,
    target_match: Option<u64>,
    now: Instant,
    wall_ms: u64,
    to: MigrationRun,
    act: MigrationAction,
)
    requires
        before.advanced(
            &after,
            from,
            MigrationEvent::Seen { stable_id, addr, commit_index, target_match },
            now,
            wall_ms,
            to,
            act,
        ),
        from.stage == MigrationStage::ObserveTarget,
    ensures
        to.stage == MigrationStage::Polling,
        to.initial_stable_id == stable_id,
        to.initial_addr == addr,
        to.state.phase is WalCatchUp,
        now.nanos + 60_000_000_000 <= u64::MAX ==> to.deadline.nanos == now.nanos + 60_000_000_000,
        act == (MigrationAction::Poll {
            after: Duration { nanos: 100_000_000 },
            group_id: from.group_id,
            node_id: from.req.target_node,
        }),
{
}

/// A step that failed ends the migration with the very error that it met; a
/// migration that is over takes no notice of anything.
pub proof fn law_failed_step_ends_migration(
    before: MigrationExecutor,
    after: MigrationExecutor,
    from: MigrationRun,
    error: ClusterError,
    now: Instant,
    wall_ms: u64,
    to: MigrationRun,
    act: MigrationAction,
)
    requires
        before.advanced(
            &after,
            from,
            MigrationEvent::Failed { error },
            now,
            wall_ms,
            to,
            act,
        ),
    ensures
        from.stage != MigrationStage::Finished && from.stage != MigrationStage::Aborted ==> act == (
        MigrationAction::Abort { error }) && to.stage == MigrationStage::Aborted,
        from.stage == MigrationStage::Finished || from.stage == MigrationStage::Aborted
            ==> act is Ignore && to == from,
        to.state == from.state,
        after == before,
{
}

/// What is asked for is asked for the migration's own group, target and shard.
pub proof fn law_actions_are_of_the_migration(
    before: MigrationExecutor,
    after: MigrationExecutor,
    from: MigrationRun,
    ev: MigrationEvent,
    now: Instant,
    wall_ms: u64,
    to: MigrationRun,
    act: MigrationAction,
)
    requires
        before.advanced(&after, from, ev, now, wall_ms, to, act),
    ensures
        to.req == from.req,
        to.group_id == from.group_id,
        to.migration_id == from.migration_id,
        act matches MigrationAction::AddLearner { group_id, node_id } ==> group_id == from.group_id
            && node_id == from.req.target_node,
        act matches MigrationAction::RegisterTarget { node_id } ==> node_id
            == from.req.target_node,
        act matches MigrationAction::ObserveTarget { group_id, node_id } ==> group_id
            == from.group_id && node_id == from.req.target_node,
        act matches MigrationAction::Poll { group_id, node_id, .. } ==> group_id == from.group_id
            && node_id == from.req.target_node,
        act matches MigrationAction::TransferLeadership { group_id, node_id } ==> group_id
            == from.group_id && node_id == from.req.target_node,
        act matches MigrationAction::SaveGhosts { vshard_id } ==> vshard_id == from.req.vshard_id,
        act matches MigrationAction::Checkpoint { payload, .. } ==> {
            match payload {
                MigrationCheckpointPayload::AddLearner {
                    vshard_id,
                    source_node,
                    target_node,
                    source_group,
                    write_pause_budget_us,
                    started_at_hlc,
                } => started_at_hlc.wall_nanos == 0 && started_at_hlc.counter == 0 && vshard_id
                    == from.req.vshard_id && source_node == from.req.source_node
                    && target_node == from.req.target_node && source_group == from.group_id
                    && write_pause_budget_us == from.req.write_pause_budget_us,
                MigrationCheckpointPayload::CatchUp {
                    vshard_id,
                    learner_log_index_at_add,
                } => vshard_id == from.req.vshard_id && learner_log_index_at_add
                    == from.learner_log_index,
                MigrationCheckpointPayload::PromoteLearner {
                    vshard_id,
                    target_node,
                    source_group,
                } => vshard_id == from.req.vshard_id && target_node == from.req.target_node
                    && source_group == from.group_id,
                MigrationCheckpointPayload::LeadershipTransfer {
                    vshard_id,
                    target_is_voter,
                    new_leader_node_id,
                    source_group,
                } => vshard_id == from.req.vshard_id && target_is_voter && new_leader_node_id
                    == from.req.target_node && source_group == from.group_id,
                MigrationCheckpointPayload::Cutover {
                    vshard_id,
                    new_leader_node_id,
                    source_group,
                } => vshard_id == from.req.vshard_id && new_leader_node_id == from.req.target_node
                    && source_group == from.group_id,
                MigrationCheckpointPayload::Complete {
                    vshard_id,
                    ghost_stub_installed,
                    ..
                } => vshard_id == from.req.vshard_id && ghost_stub_installed,
            }
        },
{
}

/// Where a stage stands on the way of a migration.
pub open spec fn place(stage: MigrationStage) -> int {
    match stage {
        MigrationStage::ReadCommit => 0,
        MigrationStage::AddLearnerCheckpoint => 1,
        MigrationStage::AddLearner => 2,
        MigrationStage::RegisterTarget => 3,
        MigrationStage::CatchUpCheckpoint => 4,
        MigrationStage::ObserveTarget => 5,
        MigrationStage::Polling => 6,
        MigrationStage::PromoteLearner => 7,
        MigrationStage::PromoteCheckpoint => 8,
        MigrationStage::TransferCheckpoint => 9,
        MigrationStage::Transfer => 10,
        MigrationStage::CutoverCheckpoint => 11,
        MigrationStage::SaveGhosts => 12,
        MigrationStage::CompleteCheckpoint => 13,
        MigrationStage::Finished => 14,
        MigrationStage::Aborted => 15,
    }
}

/// Whether what has happened is what a stage waits for.
pub open spec fn awaited(stage: MigrationStage, ev: MigrationEvent) -> bool {
    match stage {
        MigrationStage::ReadCommit => ev is Commit,
        MigrationStage::AddLearner => ev is LearnerAdded,
        MigrationStage::ObserveTarget => ev is Seen,
        MigrationStage::Polling => ev is Seen,
        MigrationStage::Finished => false,
        MigrationStage::Aborted => false,
        _ => ev is Done,
    }
}

/// What a stage waits for moves the migration on, to the next stage of the way
/// or past one that is not needed: the move of leadership is asked for only
/// where there is a metadata group, and stubs are saved only where there is a
/// catalog. It may be given up at two stages: while the target is watched, and
/// where the pause does not fit the budget. Anything else that is no failure is
/// passed over.
pub proof fn law_migration_moves_on(
    before: MigrationExecutor,
    after: MigrationExecutor,
    from: MigrationRun,
    ev: MigrationEvent,
    now: Instant,
    wall_ms: u64,
    to: MigrationRun,
    act: MigrationAction,
)
    requires
        before.advanced(&after, from, ev, now, wall_ms, to, act),
    ensures
        awaited(from.stage, ev) ==> {
            ||| place(to.stage) == place(from.stage) + 1
            ||| from.stage == MigrationStage::Polling && to.stage == MigrationStage::Polling
            ||| from.stage == MigrationStage::Polling && to.stage == MigrationStage::Aborted
            ||| from.stage == MigrationStage::PromoteCheckpoint && to.stage
                == MigrationStage::Aborted
            ||| from.stage == MigrationStage::TransferCheckpoint && !before.metadata_proposer
                && to.stage == MigrationStage::CutoverCheckpoint
            ||| from.stage == MigrationStage::CutoverCheckpoint && !before.catalog && to.stage
                == MigrationStage::CompleteCheckpoint
        },
        awaited(from.stage, ev) && from.stage == MigrationStage::TransferCheckpoint
            && before.metadata_proposer ==> to.stage == MigrationStage::Transfer
            && act is TransferLeadership,
        awaited(from.stage, ev) && from.stage == MigrationStage::CutoverCheckpoint
            && before.catalog ==> to.stage == MigrationStage::SaveGhosts && act is SaveGhosts,
        !awaited(from.stage, ev) && !(ev is Failed) ==> act is Ignore && to == from && after
            == before,
        to.stage == MigrationStage::AddLearner && from.stage != to.stage ==> act is AddLearner,
        to.stage == MigrationStage::RegisterTarget && from.stage != to.stage
            ==> act is RegisterTarget,
        to.stage == MigrationStage::ObserveTarget && from.stage != to.stage
            ==> act is ObserveTarget,
        to.stage == MigrationStage::Finished && from.stage != to.stage ==> act is Finish,
        to.stage == MigrationStage::Aborted && from.stage != to.stage ==> act is Abort,
{
}

/// What the copy starts from: the commit index that was read, and, once the
/// target has joined, the one read then, or the first where that is not known.
pub proof fn law_copy_starts_at_the_commit_index(
    before: MigrationExecutor,
    after: MigrationExecutor,
    from: MigrationRun,
    commit_index: Option<u64>,
    now: Instant,
    wall_ms: u64,
    to: MigrationRun,
    act: MigrationAction,
)
    ensures
        before.advanced(
            &after,
            from,
            MigrationEvent::Commit { commit_index },
            now,
            wall_ms,
            to,
            act,
        ) && from.stage == MigrationStage::ReadCommit ==> {
            &&& commit_index matches Some(c) ==> to.committed == c
            &&& commit_index is None ==> to.committed == 0
            &&& to.state.started_at == Some(now)
            &&& to.state.phase matches MigrationPhase::BaseCopy { total, copied } && total
                == to.committed && copied == 0
        },
        before.advanced(
            &after,
            from,
            MigrationEvent::LearnerAdded { commit_index },
            now,
            wall_ms,
            to,
            act,
        ) && from.stage == MigrationStage::AddLearner ==> {
            &&& commit_index matches Some(c) ==> to.learner_log_index == c
            &&& commit_index is None ==> to.learner_log_index == from.committed
        },
        before.advanced(&after, from, MigrationEvent::Done, now, wall_ms, to, act)
            && from.stage == MigrationStage::RegisterTarget ==> (
        from.state.phase matches MigrationPhase::BaseCopy { total, .. } ==> to.state.phase == (
        MigrationPhase::BaseCopy { total, copied: from.committed })),
{
}

/// Leadership moves if and only if the pause of ten milliseconds that it takes
/// is within the budget; if not, the migration is given up, and the caller is
/// told by how much.
pub proof fn law_budget_decides_the_cutover(
    before: MigrationExecutor,
    after: MigrationExecutor,
    from: MigrationRun,
    now: Instant,
    wall_ms: u64,
    to: MigrationRun,
    act: MigrationAction,
)
    requires
        before.advanced(&after, from, MigrationEvent::Done, now, wall_ms, to, act),
        from.stage == MigrationStage::PromoteCheckpoint,
    ensures
        from.state.write_pause_budget_us >= 10_000 ==> to.stage
            == MigrationStage::TransferCheckpoint && to.cutover_start == now && to.state.phase == (
        MigrationPhase::AtomicCutOver { estimated_pause_us: 10_000 }) && act is Checkpoint,
        from.state.write_pause_budget_us < 10_000 ==> to.stage == MigrationStage::Aborted
            && to.state.phase is Failed && act == (MigrationAction::Abort {
            error: ClusterError::PauseBudgetExceeded {
                estimated_us: 10_000,
                budget_us: from.state.write_pause_budget_us,
            },
        }),
        to.state.phase matches MigrationPhase::Failed { reason } ==> reason@
            == "cutover rejected: estimated pause of "@ + text::decimal(10_000)
            + " us exceeds budget of "@ + text::decimal(from.state.write_pause_budget_us as int)
            + " us"@ || from.state.phase is Failed,
{
}

/// Without a metadata group the executor's own routing names the target as the
/// group's new leader. Shards keep their owners, and other groups their leaders.
pub proof fn law_cutover_moves_leadership(
    before: MigrationExecutor,
    after: MigrationExecutor,
    from: MigrationRun,
    now: Instant,
    wall_ms: u64,
    to: MigrationRun,
    act: MigrationAction,
    other: u64,
)
    requires
        before.advanced(&after, from, MigrationEvent::Done, now, wall_ms, to, act),
        from.stage == MigrationStage::TransferCheckpoint,
        other != from.group_id,
    ensures
        before.metadata_proposer ==> after.routing == before.routing,
        !before.metadata_proposer ==> {
            let was = before.routing@;
            let is = after.routing@;
            let g = from.group_id;
            &&& is.owners == was.owners
            &&& is.groups.contains_key(g) == was.groups.contains_key(g)
            &&& was.groups.contains_key(g) ==> is.groups[g].leader == from.req.target_node
                && is.groups[g].members == was.groups[g].members && is.groups[g].learners
                == was.groups[g].learners
            &&& is.groups.contains_key(other) == was.groups.contains_key(other)
            &&& was.groups.contains_key(other) ==> is.groups[other] == was.groups[other]
        },
{
}

/// What a list of stubs holds without those of one id: all others, in order.
proof fn lemma_without_stub(s: Seq<GhostStub>, id: Seq<char>)
    ensures
        checkpoint::without_stub(s, id) == s.filter(|g: GhostStub| g.node_id@ != id),
    decreases s.len(),
{
    reveal(Seq::filter);
    if s.len() > 0 {
        lemma_without_stub(s.drop_last(), id);
    }
}

/// What a list of rows holds without those of one migration: all others, in order.
proof fn lemma_without_row(s: Seq<CheckpointRow>, id: u128)
    ensures
        checkpoint::without_row(s, id) == s.filter(|r: CheckpointRow| r.migration_id != Some(id)),
    decreases s.len(),
{
    reveal(Seq::filter);
    if s.len() > 0 {
        lemma_without_row(s.drop_last(), id);
    }
}

/// What a filter keeps is what it picks.
proof fn lemma_filter_keeps<T>(s: Seq<T>, keep: spec_fn(T) -> bool, x: T)
    ensures
        s.filter(keep).contains(x) <==> s.contains(x) && keep(x),
    decreases s.len(),
{
    reveal(Seq::filter);
    if s.len() > 0 {
        let init = s.drop_last();
        let last = s.last();
        lemma_filter_keeps(init, keep, x);
        if s.contains(x) && x != last {
            let i = s.index_of(x);
            assert(init[i] == x);
        }
        if init.contains(x) {
            let i = init.index_of(x);
            assert(s[i] == x);
        }
        assert(s[s.len() - 1] == last);
        if keep(last) {
            let f = init.filter(keep);
            if f.contains(x) {
                let i = f.index_of(x);
                assert(f.push(last)[i] == x);
            }
            assert(f.push(last)[f.len() as int] == last);
            if f.push(last).contains(x) && x != last {
                let i = f.push(last).index_of(x);
                assert(f[i] == x);
            }
        }
    }
}

/// The cut-over leaves one stub behind for the shard, and every stub of another
/// shard stays as it was.
pub proof fn law_cutover_leaves_one_stub(
    before: MigrationExecutor,
    after: MigrationExecutor,
    from: MigrationRun,
    now: Instant,
    wall_ms: u64,
    to: MigrationRun,
    act: MigrationAction,
    stub: GhostStub,
)
    requires
        before.advanced(&after, from, MigrationEvent::Done, now, wall_ms, to, act),
        from.stage == MigrationStage::CutoverCheckpoint,
    ensures
        ({
            let name = "vshard-"@ + text::decimal(from.req.vshard_id as int);
            let left = after.ghost_table.stubs@;
            &&& left.len() > 0
            &&& left.last().node_id@ == name
            &&& left.last().target_shard == from.req.vshard_id
            &&& left.last().refcount == 1
            &&& left.last().created_at_ms == wall_ms
            &&& stub.node_id@ != name ==> left.contains(stub)
                == before.ghost_table.stubs@.contains(stub)
            &&& stub.node_id@ == name && left.contains(stub) ==> stub == left.last()
        }),
{
    let name = "vshard-"@ + text::decimal(from.req.vshard_id as int);
    let was = before.ghost_table.stubs@;
    let left = after.ghost_table.stubs@;
    let kept = left.drop_last();
    let keep = |g: GhostStub| g.node_id@ != name;
    lemma_without_stub(was, name);
    assert(kept == was.filter(keep));
    lemma_filter_keeps(was, keep, stub);
    if kept.contains(stub) {
        let i = kept.index_of(stub);
        assert(left[i] == stub);
    }
    if left.contains(stub) && stub != left.last() {
        let i = left.index_of(stub);
        assert(kept[i] == stub);
    }
}

/// A migration ends complete, with the time from its cut-over as the pause, in
/// whole microseconds, and the last checkpoint says the same.
pub proof fn law_completion_reports_the_pause(
    before: MigrationExecutor,
    after: MigrationExecutor,
    from: MigrationRun,
    now: Instant,
    wall_ms: u64,
    to: MigrationRun,
    act: MigrationAction,
)
    requires
        before.advanced(&after, from, MigrationEvent::Done, now, wall_ms, to, act),
        to.stage == MigrationStage::CompleteCheckpoint,
        from.cutover_start.nanos <= now.nanos,
    ensures
        to.state.phase is Completed,
        to.state.finished_at == Some(now),
        to.state.phase->actual_pause_us * 1_000 <= now.nanos - from.cutover_start.nanos
            < to.state.phase->actual_pause_us * 1_000 + 1_000,
        act matches MigrationAction::Checkpoint { attempt, payload } && attempt == 5 && payload == (
        MigrationCheckpointPayload::Complete {
            vshard_id: from.req.vshard_id,
            actual_pause_us: to.state.phase->actual_pause_us,
            ghost_stub_installed: true,
        }),
{
}

/// A migration that has finished is no longer listed, and every other one is.
pub proof fn law_finished_migration_is_forgotten(
    before: MigrationExecutor,
    after: MigrationExecutor,
    from: MigrationRun,
    now: Instant,
    wall_ms: u64,
    to: MigrationRun,
    act: MigrationAction,
    row: CheckpointRow,
)
    requires
        before.advanced(&after, from, MigrationEvent::Done, now, wall_ms, to, act),
        from.stage == MigrationStage::CompleteCheckpoint,
        before.migration_state is Some,
    ensures
        after.migration_state is Some,
        after.migration_state->0.rows@.contains(row)
            <==> before.migration_state->0.rows@.contains(row) && row.migration_id != Some(
            from.migration_id,
        ),
        act is Finish,
        to.stage == MigrationStage::Finished,
{
    let was = before.migration_state->0.rows@;
    let keep = |r: CheckpointRow| r.migration_id != Some(from.migration_id);
    lemma_without_row(was, from.migration_id);
    assert(was.filter(keep) == after.migration_state->0.rows@);
    lemma_filter_keeps(was, keep, row);
}

/// A shard is busy while a migration of it has a checkpoint that is not the
/// last one, and only then.
pub proof fn law_shard_is_busy_until_complete(
    e: MigrationExecutor,
    row: CheckpointRow,
    vshard: u32,
)
    requires
        e.migration_state is Some,
        e.migration_state->0.rows@.contains(row),
    ensures
        row.migration_id is Some && checkpoint::shard_of(row.payload) == vshard && !(
        row.payload is Complete) ==> e.busy(vshard),
        (forall|r: CheckpointRow| #[trigger]
            e.migration_state->0.rows@.contains(r) ==> r.payload is Complete
                || checkpoint::shard_of(r.payload) != vshard) ==> !e.busy(vshard),
        row.payload matches MigrationCheckpointPayload::AddLearner { vshard_id, .. }
            ==> checkpoint::shard_of(row.payload) == vshard_id,
        row.payload matches MigrationCheckpointPayload::CatchUp { vshard_id, .. }
            ==> checkpoint::shard_of(row.payload) == vshard_id,
        row.payload matches MigrationCheckpointPayload::PromoteLearner { vshard_id, .. }
            ==> checkpoint::shard_of(row.payload) == vshard_id,
        row.payload matches MigrationCheckpointPayload::LeadershipTransfer { vshard_id, .. }
            ==> checkpoint::shard_of(row.payload) == vshard_id,
        row.payload matches MigrationCheckpointPayload::Cutover { vshard_id, .. }
            ==> checkpoint::shard_of(row.payload) == vshard_id,
        row.payload matches MigrationCheckpointPayload::Complete { vshard_id, .. }
            ==> checkpoint::shard_of(row.payload) == vshard_id,
{
    let rows = e.migration_state->0.rows@;
    let i = rows.index_of(row);
    assert(rows[i] == row);
    if forall|r: CheckpointRow| #[trigger]
        rows.contains(r) ==> r.payload is Complete || checkpoint::shard_of(r.payload) != vshard {
        assert forall|k: int| 0 <= k < rows.len() implies !checkpoint::is_running(
            #[trigger] rows[k],
            vshard,
        ) by {
            assert(rows.contains(rows[k]));
        }
    }
}

/// A migration that is started is of the shard's own group, has not begun and
/// belongs to the request.
pub proof fn law_started_migration_is_pending(req: MigrationRequest, group_id: u64, id: u128)
    ensures
        ({
            let run = MigrationRun::starting(req, group_id, id);
            &&& run.stage == MigrationStage::ReadCommit
            &&& run.state.phase is Pending
            &&& run.state.active()
            &&& run.state.started_at is None
            &&& run.req == req && run.group_id == group_id && run.migration_id == id
            &&& run.state.vshard_id == req.vshard_id
            &&& run.state.source_node == req.source_node
            &&& run.state.target_node == req.target_node
            &&& run.state.source_group == group_id && run.state.target_group == group_id
            &&& run.state.write_pause_budget_us == req.write_pause_budget_us
        }),
{
}

/// A migration counts as active until it has completed or failed.
pub proof fn law_active_until_over(s: MigrationState)
    ensures
        s.active() <==> s.phase is Pending || s.phase is BaseCopy || s.phase is WalCatchUp
            || s.phase is AtomicCutOver,
{
}

/// How long a migration ran is the time from its start to its end, or to now
/// where it has none; one that has not started has not run.
pub proof fn law_elapsed_is_from_start_to_end(s: MigrationState, now: Instant)
    ensures
        s.started_at is None ==> s.ran(now) is None,
        s.started_at is Some && s.finished_at is Some && s.finished_at->0.nanos
            >= s.started_at->0.nanos ==> s.ran(now) == Some(
            s.finished_at->0.nanos - s.started_at->0.nanos,
        ),
        s.started_at is Some && s.finished_at is None && now.nanos >= s.started_at->0.nanos
            ==> s.ran(now) == Some(now.nanos - s.started_at->0.nanos),
{
}

/// The target has caught up once it holds the log as far as the leader has
/// committed it.
pub proof fn law_caught_up_at_the_commit_index(s: MigrationState, committed: u64, matched: u64)
    requires
        s.phase == (MigrationPhase::WalCatchUp { leader: committed, target: matched }),
    ensures
        s.caught_up() <==> matched >= committed,
{
}

/// A cleanup keeps every migration that is active or over for less than the
/// given age, in order, and drops those that have been over for longer.
pub proof fn law_cleanup_drops_old_migrations(
    s: Seq<MigrationState>,
    max_age: Duration,
    now: Instant,
    m: MigrationState,
)
    ensures
        migration::kept(s, max_age, now) == s.filter(
            |x: MigrationState| migration::is_kept(x, max_age, now),
        ),
        m.phase is Pending || m.phase is BaseCopy || m.phase is WalCatchUp
            || m.phase is AtomicCutOver ==> migration::is_kept(m, max_age, now),
        (m.phase is Completed || m.phase is Failed) && m.started_at is Some && m.finished_at is Some
            && m.finished_at->0.nanos >= m.started_at->0.nanos ==> (migration::is_kept(
            m,
            max_age,
            now,
        ) <==> m.finished_at->0.nanos - m.started_at->0.nanos < max_age.nanos),
    decreases s.len(),
{
    reveal(Seq::filter);
    if s.len() > 0 {
        law_cleanup_drops_old_migrations(s.drop_last(), max_age, now, m);
    }
}

/// The number of active migrations is how many of the list are active.
pub proof fn law_active_ones_are_counted(s: Seq<MigrationState>)
    ensures
        migration::active_among(s, s.len() as int) == s.filter(
            |x: MigrationState| !(x.phase is Completed) && !(x.phase is Failed),
        ).len(),
    decreases s.len(),
{
    reveal(Seq::filter);
    if s.len() > 0 {
        let init = s.drop_last();
        law_active_ones_are_counted(init);
        lemma_active_among_prefix(s, init, init.len() as int);
    }
}

/// Counting looks at the first ones alone.
proof fn lemma_active_among_prefix(a: Seq<MigrationState>, b: Seq<MigrationState>, n: int)
    requires
        n <= a.len(),
        n <= b.len(),
        forall|i: int| 0 <= i < n ==> a[i] == b[i],
    ensures
        migration::active_among(a, n) == migration::active_among(b, n),
    decreases n,
{
    if n > 0 {
        lemma_active_among_prefix(a, b, n - 1);
    }
}

/// Two checkpoints that differ record different numbers, so that the checksum
/// covers all that is recorded.
pub proof fn law_checkpoint_records_everything(
    a: MigrationCheckpointPayload,
    b: MigrationCheckpointPayload,
)
    requires
        checkpoint::numbers(a) == checkpoint::numbers(b),
    ensures
        a == b,
{
    let x = checkpoint::numbers(a);
    let y = checkpoint::numbers(b);
    assert(x.len() == y.len());
    assert(x[0] == y[0]);
    assert(x[1] == y[1]);
    assert(x[2] == y[2]);
    if x.len() > 3 {
        assert(x[3] == y[3]);
    }
    if x.len() > 4 {
        assert(x[4] == y[4]);
    }
    if x.len() > 5 {
        assert(x[5] == y[5]);
        assert(x[6] == y[6]);
        assert(x[7] == y[7]);
    }
}

/// A checkpoint is filed under the phase that it records.
pub proof fn law_checkpoint_names_its_phase(p: MigrationCheckpointPayload)
    ensures
        checkpoint::tag_of(p) == MigrationPhaseTag::AddLearner <==> p is AddLearner,
        checkpoint::tag_of(p) == MigrationPhaseTag::CatchUp <==> p is CatchUp,
        checkpoint::tag_of(p) == MigrationPhaseTag::PromoteLearner <==> p is PromoteLearner,
        checkpoint::tag_of(p) == MigrationPhaseTag::LeadershipTransfer <==> p is LeadershipTransfer,
        checkpoint::tag_of(p) == MigrationPhaseTag::Cutover <==> p is Cutover,
        checkpoint::tag_of(p) == MigrationPhaseTag::Complete <==> p is Complete,
{
}

/// Numbers come back from their bytes: no two lists of the same length have the
/// same ones.
pub proof fn law_number_bytes_tell_numbers_apart(a: Seq<u64>, b: Seq<u64>)
    requires
        a.len() == b.len(),
        checkpoint::number_bytes(a) == checkpoint::number_bytes(b),
    ensures
        a == b,
        checkpoint::number_bytes(a).len() == 8 * a.len(),
    decreases a.len(),
{
    broadcast use le::group_round_trips;

    if a.len() > 0 {
        lemma_number_bytes_len(a.drop_last());
        lemma_number_bytes_len(b.drop_last());
        let x = checkpoint::number_bytes(a);
        let n = 8 * (a.len() - 1);
        assert(x.take(n) =~= checkpoint::number_bytes(a.drop_last()));
        assert(checkpoint::number_bytes(b).take(n) =~= checkpoint::number_bytes(b.drop_last()));
        assert(x.skip(n) =~= le::le64(a.last()));
        assert(checkpoint::number_bytes(b).skip(n) =~= le::le64(b.last()));
        law_number_bytes_tell_numbers_apart(a.drop_last(), b.drop_last());
        assert(le::from64(le::le64(a.last())) == le::from64(le::le64(b.last())));
        assert(a =~= a.drop_last().push(a.last()));
        assert(b =~= b.drop_last().push(b.last()));
    } else {
        assert(a =~= b);
    }
}

/// Each number takes eight bytes.
proof fn lemma_number_bytes_len(a: Seq<u64>)
    ensures
        checkpoint::number_bytes(a).len() == 8 * a.len(),
    decreases a.len(),
{
    broadcast use le::group_round_trips;

    if a.len() > 0 {
        lemma_number_bytes_len(a.drop_last());
    }
}

/// A migration is shown under the name of the phase that it is in.
pub proof fn law_phases_have_their_names(p: MigrationPhase)
    ensures
        p is Pending ==> migration::phase_name(p) == "Pending"@,
        p is BaseCopy ==> migration::phase_name(p) == "BaseCopy"@,
        p is WalCatchUp ==> migration::phase_name(p) == "WalCatchUp"@,
        p is AtomicCutOver ==> migration::phase_name(p) == "AtomicCutOver"@,
        p is Completed ==> migration::phase_name(p) == "Completed"@,
        p is Failed ==> migration::phase_name(p) == "Failed"@,
{
}

/// A migration is refused for a shard that no group owns and for one that is
/// busy, each by the shard's number; any other is started, in the group that
/// owns the shard.
pub proof fn law_free_shard_can_be_migrated(e: MigrationExecutor, req: MigrationRequest, id: u128)
    ensures
        req.vshard_id >= e.routing@.owners.len() ==> e.started(req, id) == Err::<
            MigrationRun,
            ClusterError,
        >((ClusterError::VShardNotMapped { vshard_id: req.vshard_id })),
        req.vshard_id < e.routing@.owners.len() && e.busy(req.vshard_id) ==> e.started(req, id)
            == Err::<MigrationRun, ClusterError>(
            (ClusterError::MigrationInProgress { vshard_id: req.vshard_id }),
        ),
        req.vshard_id < e.routing@.owners.len() && !e.busy(req.vshard_id) ==> (e.started(
            req,
            id,
        ) matches Ok(run) && run.group_id == e.routing@.owners[req.vshard_id as int] && run.req
            == req && run.migration_id == id && run.stage == MigrationStage::ReadCommit),
        e.migration_state is None ==> !e.busy(req.vshard_id),
{
}

/// A checkpoint is proposed exactly if there is a metadata group, and carries
/// what it is asked to carry, under its own phase.
pub proof fn law_checkpoint_is_proposed_as_asked(
    e: MigrationExecutor,
    migration_id: u128,
    attempt: u32,
    payload: MigrationCheckpointPayload,
    ts_ms: u64,
    r: Option<CheckpointEntry>,
)
    requires
        e.proposes(migration_id, attempt, payload, ts_ms, r),
    ensures
        e.metadata_proposer ==> r is Some,
        !e.metadata_proposer ==> r is None,
        r matches Some(c) ==> c.attempt == attempt && c.payload == payload && c.ts_ms == ts_ms
            && c.phase == checkpoint::tag_of(payload) && c.migration_id@.len() == 36,
{
}

} // verus!
