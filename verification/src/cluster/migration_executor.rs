//! Drives the migration of a shard from one node to another, in three phases.
//!
//! First the target joins the shard's Raft group as a learner, and replication
//! copies the data. Then the target's lag is watched until it has caught up,
//! and it is made a voter. Last, leadership moves over in one replicated step,
//! and a stub is left behind on the source.
//!
//! Every phase boundary is checkpointed through the metadata group, so that a
//! coordinator that comes back knows where each migration stood. The executor
//! decides; its caller performs the actions that it asks for and reports how
//! they went.

use vstd::prelude::*;

use crate::cluster::checkpoint;
use crate::cluster::checkpoint::{
    GhostStub, GhostTable, MigrationCheckpointPayload, MigrationPhaseTag, MigrationStateTable,
};
use crate::cluster::error::ClusterError;
use crate::cluster::migration::{MigrationPhase, MigrationState};
use crate::cluster::routing::RoutingTable;
use crate::ids;
use crate::text;
use crate::time::{Duration, Hlc, Instant};
use crate::wal::crc32c;

verus! {

/// Pause of writes that a change of ownership is expected to take, in microseconds.
pub const ESTIMATED_PAUSE_US: u64 = 10_000;

/// How often the target's lag is looked at: 100 ms, in nanoseconds.
pub const POLL_INTERVAL_NANOS: u64 = 100_000_000;

/// How long the target may take to catch up: 60 s, in nanoseconds.
pub const CATCHUP_TIMEOUT_NANOS: u64 = 60_000_000_000;

/// A migration that is asked for.
#[derive(Debug, Clone, Copy, PartialEq, Eq, Structural)]
pub struct MigrationRequest {
    pub vshard_id: u32,
    pub source_node: u64,
    pub target_node: u64,
    /// How long writes may stop, in microseconds.
    pub write_pause_budget_us: u64,
}

impl Default for MigrationRequest {
    fn default() -> (r: MigrationRequest)
        ensures
            r == (MigrationRequest {
                vshard_id: 0,
                source_node: 0,
                target_node: 0,
                write_pause_budget_us: 500_000,
            }),
    {
        MigrationRequest {
            vshard_id: 0,
            source_node: 0,
            target_node: 0,
            write_pause_budget_us: 500_000,
        }
    }
}

/// How a migration went.
#[derive(Debug)]
pub struct MigrationResult {
    pub vshard_id: u32,
    pub source_node: u64,
    pub target_node: u64,
    pub phase: MigrationPhase,
    pub elapsed: Option<Duration>,
    pub migration_id: u128,
}

/// What the executor waits for.
#[derive(Debug, Clone, Copy, PartialEq, Eq, Structural)]
pub enum MigrationStage {
    /// The commit index of the shard's group.
    ReadCommit,
    /// The checkpoint before the target joins.
    AddLearnerCheckpoint,
    /// The target's admission as a learner.
    AddLearner,
    /// The target's address in the transport.
    RegisterTarget,
    /// The checkpoint after the target joined.
    CatchUpCheckpoint,
    /// The first look at the target.
    ObserveTarget,
    /// Further looks at the target.
    Polling,
    /// The target's promotion to a voter.
    PromoteLearner,
    /// The checkpoint after the promotion.
    PromoteCheckpoint,
    /// The checkpoint before leadership moves.
    TransferCheckpoint,
    /// The move of leadership.
    Transfer,
    /// The checkpoint after leadership moved.
    CutoverCheckpoint,
    /// The stub's way to durable storage.
    SaveGhosts,
    /// The last checkpoint.
    CompleteCheckpoint,
    /// Nothing more: the migration is over.
    Finished,
    /// Nothing more: the migration was given up.
    Aborted,
}

/// What happened outside.
pub enum MigrationEvent {
    /// The commit index of the shard's group; none if it is not known here.
    Commit { commit_index: Option<u64> },
    /// What was asked for is done.
    Done,
    /// The target was admitted; the group's commit index after that.
    LearnerAdded { commit_index: Option<u64> },
    /// What is known of the target: the id of the connection to it, its
    /// address, the group's commit index, and how far the target holds the log.
    Seen {
        stable_id: Option<u64>,
        addr: Option<String>,
        commit_index: Option<u64>,
        target_match: Option<u64>,
    },
    /// What was asked for failed.
    Failed { error: ClusterError },
}

/// What is to be done outside.
pub enum MigrationAction {
    /// Look up the commit index of the group.
    ReadCommit { group_id: u64 },
    /// Propose a checkpoint, if checkpoints are kept.
    Checkpoint { attempt: u32, payload: MigrationCheckpointPayload },
    /// Propose to admit the node as a learner.
    AddLearner { group_id: u64, node_id: u64 },
    /// Make the node's address known to the transport.
    RegisterTarget { node_id: u64 },
    /// Look at the target.
    ObserveTarget { group_id: u64, node_id: u64 },
    /// Wait, then look at the target.
    Poll { after: Duration, group_id: u64, node_id: u64 },
    /// Propose to make the learner a voter.
    PromoteLearner { group_id: u64, node_id: u64 },
    /// Propose the move of leadership through the metadata group.
    TransferLeadership { group_id: u64, node_id: u64 },
    /// Write the stubs to durable storage.
    SaveGhosts { vshard_id: u32 },
    /// Forget the migration's checkpoint; it is over.
    Finish,
    /// Give up.
    Abort { error: ClusterError },
    /// What happened does not fit the stage; nothing is to be done.
    Ignore,
}

/// One migration under way.
pub struct MigrationRun {
    pub req: MigrationRequest,
    pub group_id: u64,
    pub migration_id: u128,
    pub state: MigrationState,
    pub stage: MigrationStage,
    /// Commit index when the copy started.
    pub committed: u64,
    /// Commit index when the target had joined.
    pub learner_log_index: u64,
    /// The connection to the target when it was first looked at.
    pub initial_stable_id: Option<u64>,
    /// The target's address when it was first looked at.
    pub initial_addr: Option<String>,
    /// When the target must have caught up.
    pub deadline: Instant,
    /// When the change of ownership began.
    pub cutover_start: Instant,
}

/// A checkpoint as it is proposed to the metadata group.
#[derive(Debug)]
pub struct CheckpointEntry {
    pub migration_id: String,
    pub phase: MigrationPhaseTag,
    pub attempt: u32,
    pub payload: MigrationCheckpointPayload,
    pub crc32c: u32,
    pub ts_ms: u64,
}

/// Runs migrations on the node that leads the shard's group.
pub struct MigrationExecutor {
    pub routing: RoutingTable,
    pub ghost_table: GhostTable,
    /// Whether stubs are written to durable storage.
    pub catalog: bool,
    /// Whether there is a metadata group to propose to.
    pub metadata_proposer: bool,
    pub migration_state: Option<MigrationStateTable>,
}

/// The view of an optional address.
pub open spec fn addr_view(a: Option<String>) -> Option<Seq<char>> {
    match a {
        Some(s) => Some(s@),
        None => None,
    }
}

/// How `std::fmt::Debug` writes an optional address.
pub uninterp spec fn debug_addr(a: Option<Seq<char>>) -> Seq<char>;

/// How an optional address is written, by `std::fmt::Debug` of `Option<String>`.
/// Nothing is claimed of the text but that the address alone decides it.
#[verifier::external_body]
fn debug_addr_text(a: &Option<String>) -> (r: String)
    ensures
        r@ == debug_addr(addr_view(*a)),
{
    format!("{:?}", a)
}

/// A lower-case hexadecimal digit.
pub open spec fn hex_digit(d: int) -> char {
    if d < 10 {
        text::digit(d)
    } else if d == 10 {
        'a'
    } else if d == 11 {
        'b'
    } else if d == 12 {
        'c'
    } else if d == 13 {
        'd'
    } else if d == 14 {
        'e'
    } else {
        'f'
    }
}

/// How many hyphens stand before place `p` of a hyphenated id.
pub open spec fn hyphens_before(p: int) -> int {
    if p > 23 {
        4
    } else if p > 18 {
        3
    } else if p > 13 {
        2
    } else if p > 8 {
        1
    } else {
        0
    }
}

/// The hyphenated form of an id: its 32 hexadecimal digits, the highest first,
/// in groups of 8, 4, 4, 4 and 12.
pub open spec fn hyphenated(id: u128) -> Seq<char> {
    Seq::new(
        36,
        |p: int|
            if p == 8 || p == 13 || p == 18 || p == 23 {
                '-'
            } else {
                let k = p - hyphens_before(p);
                hex_digit(
                    (id as int / vstd::arithmetic::power::pow(16, (31 - k) as nat)) % 16,
                )
            },
    )
}

/// The hyphenated form of an id, by `uuid::fmt::Hyphenated` of `uuid::Uuid`,
/// which writes the digits in lower case.
#[verifier::external_body]
fn hyphenated_text(id: u128) -> (r: String)
    ensures
        r@ == hyphenated(id),
{
    uuid::Uuid::from_u128(id).hyphenated().to_string()
}

/// Whether two addresses are the same.
fn same_addr(a: &Option<String>, b: &Option<String>) -> (r: bool)
    ensures
        r == (addr_view(*a) == addr_view(*b)),
{
    match (a, b) {
        (Some(x), Some(y)) => *x == *y,
        (None, None) => true,
        _ => false,
    }
}

/// A number, or 0 where none is known.
pub open spec fn or_zero(o: Option<u64>) -> u64 {
    match o {
        Some(n) => n,
        None => 0,
    }
}

/// Why the target must be given up at a look at it, if it must: its connection
/// was replaced or lost, or it has moved.
pub open spec fn target_trouble(
    node: u64,
    first_id: Option<u64>,
    first_addr: Option<Seq<char>>,
    id: Option<u64>,
    addr: Option<Seq<char>>,
) -> Option<Seq<char>> {
    if first_id is Some && id is Some && id->0 != first_id->0 {
        Some(
            "peer identity changed mid-migration: stable_id "@ + text::decimal(
                first_id->0 as int,
            ) + " -> "@ + text::decimal(id->0 as int) + " for node "@ + text::decimal(
                node as int,
            ),
        )
    } else if first_id is Some && id is None {
        Some(
            "connection to target node "@ + text::decimal(node as int)
                + " lost during migration"@,
        )
    } else if addr != first_addr {
        Some(
            "target node "@ + text::decimal(node as int) + " address changed: "@ + debug_addr(
                first_addr,
            ) + " -> "@ + debug_addr(addr),
        )
    } else {
        None
    }
}

/// Finds out why the target must be given up, if it must.
fn check_target(
    node: u64,
    first_id: Option<u64>,
    first_addr: &Option<String>,
    id: Option<u64>,
    addr: &Option<String>,
) -> (r: Option<String>)
    ensures
        match target_trouble(node, first_id, addr_view(*first_addr), id, addr_view(*addr)) {
            Some(t) => r matches Some(s) && s@ == t,
            None => r is None,
        },
{
    match first_id {
        Some(first) => {
            match id {
                Some(current) => {
                    if current != first {
                        let mut s = text::numbered(
                            "peer identity changed mid-migration: stable_id ",
                            first,
                        );
                        s.append(" -> ");
                        text::push_decimal(&mut s, current);
                        s.append(" for node ");
                        text::push_decimal(&mut s, node);
                        return Some(s);
                    }
                },
                None => {
                    let mut s = text::numbered("connection to target node ", node);
                    s.append(" lost during migration");
                    return Some(s);
                },
            }
        },
        None => {},
    }
    if !same_addr(addr, first_addr) {
        let mut s = text::numbered("target node ", node);
        s.append(" address changed: ");
        s.append(debug_addr_text(first_addr).as_str());
        s.append(" -> ");
        s.append(debug_addr_text(addr).as_str());
        return Some(s);
    }
    None
}

/// The reason given for a target that did not catch up in time.
pub open spec fn timeout_reason(leader: u64, target: u64) -> Seq<char> {
    "WAL catch-up timed out after 60s (leader="@ + text::decimal(leader as int) + ", target="@
        + text::decimal(target as int) + ")"@
}

/// Writes the reason given for a target that did not catch up in time.
fn timeout_text(leader: u64, target: u64) -> (r: String)
    ensures
        r@ == timeout_reason(leader, target),
{
    let mut s = text::numbered("WAL catch-up timed out after 60s (leader=", leader);
    s.append(", target=");
    text::push_decimal(&mut s, target);
    s.append(")");
    s
}

/// The reason given for a change of ownership that would stop writes for too long.
pub open spec fn rejected_reason(estimated: u64, budget: u64) -> Seq<char> {
    "cutover rejected: estimated pause of "@ + text::decimal(estimated as int)
        + " us exceeds budget of "@ + text::decimal(budget as int) + " us"@
}

/// Writes the reason given for a change of ownership that would stop writes for too long.
fn rejected_text(estimated: u64, budget: u64) -> (r: String)
    ensures
        r@ == rejected_reason(estimated, budget),
{
    let mut s = text::numbered("cutover rejected: estimated pause of ", estimated);
    s.append(" us exceeds budget of ");
    text::push_decimal(&mut s, budget);
    s.append(" us");
    s
}

impl MigrationRun {
    /// Whether nothing but stage and state may differ.
    pub open spec fn same_job(&self, to: &MigrationRun) -> bool {
        &&& to.req == self.req
        &&& to.group_id == self.group_id
        &&& to.migration_id == self.migration_id
    }

    /// Whether `to` is this run at another stage.
    pub open spec fn at(&self, to: &MigrationRun, stage: MigrationStage) -> bool {
        *to == (MigrationRun { stage, ..*self })
    }

    /// Whether `to` is this run given up for `reason`.
    pub open spec fn given_up(&self, to: &MigrationRun, reason: Seq<char>, now: Instant) -> bool {
        &&& to.state.phase matches MigrationPhase::Failed { reason: r } && r@ == reason
        &&& *to == (MigrationRun {
            stage: MigrationStage::Aborted,
            state: MigrationState {
                phase: to.state.phase,
                finished_at: Some(now),
                ..self.state
            },
            ..*self
        })
    }

    /// What a migration that has been asked for starts from.
    pub open spec fn starting(req: MigrationRequest, group_id: u64, id: u128) -> MigrationRun {
        MigrationRun {
            req,
            group_id,
            migration_id: id,
            state: MigrationState {
                vshard_id: req.vshard_id,
                source_group: group_id,
                target_group: group_id,
                source_node: req.source_node,
                target_node: req.target_node,
                write_pause_budget_us: req.write_pause_budget_us,
                phase: MigrationPhase::Pending,
                started_at: None,
                finished_at: None,
            },
            stage: MigrationStage::ReadCommit,
            committed: 0,
            learner_log_index: 0,
            initial_stable_id: None,
            initial_addr: None,
            deadline: Instant { nanos: 0 },
            cutover_start: Instant { nanos: 0 },
        }
    }

    /// Handles a step that failed: the migration is given up with its error.
    fn abort(&mut self, error: ClusterError) -> (r: MigrationAction)
        ensures
            r == (MigrationAction::Abort { error }),
            old(self).at(final(self), MigrationStage::Aborted),
    {
        self.stage = MigrationStage::Aborted;
        MigrationAction::Abort { error }
    }

    /// The result of a migration that is over.
    pub fn result(self, now: Instant) -> (r: MigrationResult)
        ensures
            r.vshard_id == self.req.vshard_id,
            r.source_node == self.req.source_node,
            r.target_node == self.req.target_node,
            r.phase == self.state.phase,
            r.migration_id == self.migration_id,
            match self.state.ran(now) {
                Some(n) => r.elapsed matches Some(d) && d.nanos == n,
                None => r.elapsed is None,
            },
    {
        let elapsed = self.state.elapsed(now);
        MigrationResult {
            vshard_id: self.req.vshard_id,
            source_node: self.req.source_node,
            target_node: self.req.target_node,
            phase: self.state.phase,
            elapsed,
            migration_id: self.migration_id,
        }
    }
}

impl MigrationExecutor {
    /// An executor without catalog, metadata group and table of migrations.
    pub fn new(routing: RoutingTable) -> (r: MigrationExecutor)
        ensures
            r.routing == routing,
            r.ghost_table.stubs@ == Seq::<GhostStub>::empty(),
            !r.catalog,
            !r.metadata_proposer,
            r.migration_state is None,
    {
        MigrationExecutor {
            routing,
            ghost_table: GhostTable::new(),
            catalog: false,
            metadata_proposer: false,
            migration_state: None,
        }
    }

    /// With a metadata group that checkpoints and moves of leadership go through.
    pub fn with_metadata_proposer(self) -> (r: MigrationExecutor)
        ensures
            r == (MigrationExecutor { metadata_proposer: true, ..self }),
    {
        let mut r = self;
        r.metadata_proposer = true;
        r
    }

    /// With a catalog that stubs are written to.
    pub fn with_catalog(self) -> (r: MigrationExecutor)
        ensures
            r == (MigrationExecutor { catalog: true, ..self }),
    {
        let mut r = self;
        r.catalog = true;
        r
    }

    /// With a table of the migrations under way.
    pub fn with_migration_state(self, state: MigrationStateTable) -> (r: MigrationExecutor)
        ensures
            r == (MigrationExecutor { migration_state: Some(state), ..self }),
    {
        let mut r = self;
        r.migration_state = Some(state);
        r
    }

    /// The stubs that migrations have left behind.
    pub fn ghost_table(&self) -> (r: &GhostTable)
        ensures
            *r == self.ghost_table,
    {
        &self.ghost_table
    }

    /// Whether a migration of the shard is under way.
    pub open spec fn busy(&self, vshard: u32) -> bool {
        self.migration_state matches Some(t) && exists|i: int|
            0 <= i < t.rows@.len() && checkpoint::is_running(#[trigger] t.rows@[i], vshard)
    }

    /// What comes of a request for a migration under an id.
    pub open spec fn started(
        &self,
        req: MigrationRequest,
        id: u128,
    ) -> Result<MigrationRun, ClusterError> {
        match self.routing@.owner(req.vshard_id) {
            None => Err::<MigrationRun, ClusterError>(
                (ClusterError::VShardNotMapped { vshard_id: req.vshard_id }),
            ),
            Some(g) => if self.busy(req.vshard_id) {
                Err((ClusterError::MigrationInProgress { vshard_id: req.vshard_id }))
            } else {
                Ok(MigrationRun::starting(req, g, id))
            },
        }
    }

    /// Starts a migration under a fresh id.
    pub fn execute(&self, req: MigrationRequest) -> (r: Result<MigrationRun, ClusterError>)
        ensures
            match self.routing@.owner(req.vshard_id) {
                None => r == Err::<MigrationRun, ClusterError>(
                    (ClusterError::VShardNotMapped { vshard_id: req.vshard_id }),
                ),
                Some(g) => if self.busy(req.vshard_id) {
                    r == Err::<MigrationRun, ClusterError>(
                        (ClusterError::MigrationInProgress { vshard_id: req.vshard_id }),
                    )
                } else {
                    r matches Ok(run) && ids::is_random_id(run.migration_id) && run
                        == MigrationRun::starting(req, g, run.migration_id)
                },
            },
    {
        self.start(req, ids::new_id())
    }

    /// Starts a migration under a given id. A shard that no group owns and one
    /// whose last migration has not completed are refused.
    pub fn start(&self, req: MigrationRequest, id: u128) -> (r: Result<MigrationRun, ClusterError>)
        ensures
            r == self.started(req, id),
    {
        let group_id: u64 = match self.routing.group_for_vshard(req.vshard_id) {
            Ok(g) => g,
            Err(e) => return Err(e),
        };
        match &self.migration_state {
            Some(t) => {
                if t.has_running(req.vshard_id) {
                    return Err(ClusterError::MigrationInProgress { vshard_id: req.vshard_id });
                }
            },
            None => {},
        }
        Ok(
            MigrationRun {
                req,
                group_id,
                migration_id: id,
                state: MigrationState::new(
                    req.vshard_id,
                    group_id,
                    group_id,
                    req.source_node,
                    req.target_node,
                    req.write_pause_budget_us,
                ),
                stage: MigrationStage::ReadCommit,
                committed: 0,
                learner_log_index: 0,
                initial_stable_id: None,
                initial_addr: None,
                deadline: Instant { nanos: 0 },
                cutover_start: Instant { nanos: 0 },
            },
        )
    }

    /// Whether `r` is the checkpoint to be proposed.
    pub open spec fn proposes(
        &self,
        migration_id: u128,
        attempt: u32,
        payload: MigrationCheckpointPayload,
        ts_ms: u64,
        r: Option<CheckpointEntry>,
    ) -> bool {
        &&& r is Some <==> self.metadata_proposer
        &&& r matches Some(e) ==> {
            &&& e.migration_id@ == hyphenated(migration_id)
            &&& e.phase == checkpoint::tag_of(payload)
            &&& e.attempt == attempt
            &&& e.payload == payload
            &&& e.crc32c == crc32c::checksum(
                checkpoint::number_bytes(checkpoint::numbers(payload)),
            )
            &&& e.ts_ms == ts_ms
        }
    }

    /// The checkpoint to be proposed; none without a metadata group, where
    /// checkpoints are not kept.
    pub fn propose_checkpoint(
        &self,
        migration_id: u128,
        attempt: u32,
        payload: MigrationCheckpointPayload,
        ts_ms: u64,
    ) -> (r: Option<CheckpointEntry>)
        ensures
            self.proposes(migration_id, attempt, payload, ts_ms, r),
    {
        if !self.metadata_proposer {
            return None;
        }
        Some(
            CheckpointEntry {
                migration_id: hyphenated_text(migration_id),
                phase: payload.phase_tag(),
                attempt,
                payload,
                crc32c: payload.crc32c(),
                ts_ms,
            },
        )
    }

    /// What the first phase does at an event.
    pub open spec fn phase1_step(
        from: MigrationRun,
        ev: MigrationEvent,
        now: Instant,
        to: MigrationRun,
        act: MigrationAction,
    ) -> bool {
        match (from.stage, ev) {
            (MigrationStage::ReadCommit, MigrationEvent::Commit { commit_index }) => {
                &&& to == (MigrationRun {
                    stage: MigrationStage::AddLearnerCheckpoint,
                    committed: or_zero(commit_index),
                    state: MigrationState {
                        phase: MigrationPhase::BaseCopy {
                            total: or_zero(commit_index),
                            copied: 0,
                        },
                        started_at: Some(now),
                        ..from.state
                    },
                    ..from
                })
                &&& act == (MigrationAction::Checkpoint {
                    attempt: 0,
                    payload: MigrationCheckpointPayload::AddLearner {
                        vshard_id: from.req.vshard_id,
                        source_node: from.req.source_node,
                        target_node: from.req.target_node,
                        source_group: from.group_id,
                        write_pause_budget_us: from.req.write_pause_budget_us,
                        started_at_hlc: Hlc { wall_nanos: 0, counter: 0 },
                    },
                })
            },
            (MigrationStage::AddLearnerCheckpoint, MigrationEvent::Done) => {
                &&& from.at(&to, MigrationStage::AddLearner)
                &&& act == (MigrationAction::AddLearner {
                    group_id: from.group_id,
                    node_id: from.req.target_node,
                })
            },
            (MigrationStage::AddLearner, MigrationEvent::LearnerAdded { commit_index }) => {
                &&& to == (MigrationRun {
                    stage: MigrationStage::RegisterTarget,
                    learner_log_index: match commit_index {
                        Some(n) => n,
                        None => from.committed,
                    },
                    ..from
                })
                &&& act == (MigrationAction::RegisterTarget { node_id: from.req.target_node })
            },
            (MigrationStage::RegisterTarget, MigrationEvent::Done) => {
                &&& to == (MigrationRun {
                    stage: MigrationStage::CatchUpCheckpoint,
                    state: match from.state.phase {
                        MigrationPhase::BaseCopy { total, .. } => (MigrationState {
                            phase: MigrationPhase::BaseCopy { total, copied: from.committed },
                            ..from.state
                        }),
                        _ => from.state,
                    },
                    ..from
                })
                &&& act == (MigrationAction::Checkpoint {
                    attempt: 1,
                    payload: MigrationCheckpointPayload::CatchUp {
                        vshard_id: from.req.vshard_id,
                        learner_log_index_at_add: from.learner_log_index,
                    },
                })
            },
            (MigrationStage::CatchUpCheckpoint, MigrationEvent::Done) => {
                &&& from.at(&to, MigrationStage::ObserveTarget)
                &&& act == (MigrationAction::ObserveTarget {
                    group_id: from.group_id,
                    node_id: from.req.target_node,
                })
            },
            _ => false,
        }
    }

    /// Whether the first phase waits for such an event.
    pub open spec fn phase1_expects(stage: MigrationStage, ev: MigrationEvent) -> bool {
        match (stage, ev) {
            (MigrationStage::ReadCommit, MigrationEvent::Commit { .. }) => true,
            (MigrationStage::AddLearnerCheckpoint, MigrationEvent::Done) => true,
            (MigrationStage::AddLearner, MigrationEvent::LearnerAdded { .. }) => true,
            (MigrationStage::RegisterTarget, MigrationEvent::Done) => true,
            (MigrationStage::CatchUpCheckpoint, MigrationEvent::Done) => true,
            _ => false,
        }
    }

    /// First phase: the target joins the group as a learner, between two checkpoints.
    pub fn phase1_base_copy(
        &self,
        run: &mut MigrationRun,
        ev: MigrationEvent,
        now: Instant,
    ) -> (act: MigrationAction)
        ensures
            match ev {
                MigrationEvent::Failed { error } => act == (MigrationAction::Abort { error })
                    && old(run).at(final(run), MigrationStage::Aborted),
                _ => if Self::phase1_expects(old(run).stage, ev) {
                    Self::phase1_step(*old(run), ev, now, *final(run), act)
                } else {
                    act is Ignore && *final(run) == *old(run)
                },
            },
    {
        match (run.stage, ev) {
            (_, MigrationEvent::Failed { error }) => run.abort(error),
            (MigrationStage::ReadCommit, MigrationEvent::Commit { commit_index }) => {
                let committed: u64 = match commit_index {
                    Some(n) => n,
                    None => 0,
                };
                run.committed = committed;
                run.state.start_base_copy(committed, now);
                run.stage = MigrationStage::AddLearnerCheckpoint;
                MigrationAction::Checkpoint {
                    attempt: 0,
                    payload: MigrationCheckpointPayload::AddLearner {
                        vshard_id: run.req.vshard_id,
                        source_node: run.req.source_node,
                        target_node: run.req.target_node,
                        source_group: run.group_id,
                        write_pause_budget_us: run.req.write_pause_budget_us,
                        started_at_hlc: Hlc::default(),
                    },
                }
            },
            (MigrationStage::AddLearnerCheckpoint, MigrationEvent::Done) => {
                run.stage = MigrationStage::AddLearner;
                MigrationAction::AddLearner {
                    group_id: run.group_id,
                    node_id: run.req.target_node,
                }
            },
            (MigrationStage::AddLearner, MigrationEvent::LearnerAdded { commit_index }) => {
                run.learner_log_index = match commit_index {
                    Some(n) => n,
                    None => run.committed,
                };
                run.stage = MigrationStage::RegisterTarget;
                MigrationAction::RegisterTarget { node_id: run.req.target_node }
            },
            (MigrationStage::RegisterTarget, MigrationEvent::Done) => {
                let copied: u64 = run.committed;
                run.state.update_base_copy(copied);
                run.stage = MigrationStage::CatchUpCheckpoint;
                MigrationAction::Checkpoint {
                    attempt: 1,
                    payload: MigrationCheckpointPayload::CatchUp {
                        vshard_id: run.req.vshard_id,
                        learner_log_index_at_add: run.learner_log_index,
                    },
                }
            },
            (MigrationStage::CatchUpCheckpoint, MigrationEvent::Done) => {
                run.stage = MigrationStage::ObserveTarget;
                MigrationAction::ObserveTarget {
                    group_id: run.group_id,
                    node_id: run.req.target_node,
                }
            },
            _ => MigrationAction::Ignore,
        }
    }

    /// Whether the second phase waits for such an event.
    pub open spec fn phase2_expects(stage: MigrationStage, ev: MigrationEvent) -> bool {
        match (stage, ev) {
            (MigrationStage::ObserveTarget, MigrationEvent::Seen { .. }) => true,
            (MigrationStage::Polling, MigrationEvent::Seen { .. }) => true,
            (MigrationStage::PromoteLearner, MigrationEvent::Done) => true,
            _ => false,
        }
    }

    /// The action that looks at the target again.
    pub open spec fn poll_again(run: MigrationRun) -> MigrationAction {
        MigrationAction::Poll {
            after: Duration { nanos: POLL_INTERVAL_NANOS },
            group_id: run.group_id,
            node_id: run.req.target_node,
        }
    }

    /// What the second phase does at an event.
    pub open spec fn phase2_step(
        from: MigrationRun,
        ev: MigrationEvent,
        now: Instant,
        to: MigrationRun,
        act: MigrationAction,
    ) -> bool {
        match (from.stage, ev) {
            (
                MigrationStage::ObserveTarget,
                MigrationEvent::Seen { stable_id, addr, commit_index, target_match },
            ) => {
                &&& to == (MigrationRun {
                    stage: MigrationStage::Polling,
                    initial_stable_id: stable_id,
                    initial_addr: addr,
                    deadline: to.deadline,
                    state: MigrationState {
                        phase: MigrationPhase::WalCatchUp {
                            leader: or_zero(commit_index),
                            target: or_zero(commit_index),
                        },
                        ..from.state
                    },
                    ..from
                })
                &&& to.deadline.nanos == crate::time::saturating_sum(
                    now.nanos as int,
                    CATCHUP_TIMEOUT_NANOS as int,
                )
                &&& act == Self::poll_again(from)
            },
            (
                MigrationStage::Polling,
                MigrationEvent::Seen { stable_id, addr, commit_index, target_match },
            ) => {
                let leader = or_zero(commit_index);
                let target = or_zero(target_match);
                let seen = MigrationRun {
                    state: if from.state.phase is WalCatchUp {
                        MigrationState {
                            phase: MigrationPhase::WalCatchUp { leader, target },
                            ..from.state
                        }
                    } else {
                        from.state
                    },
                    ..from
                };
                match target_trouble(
                    from.req.target_node,
                    from.initial_stable_id,
                    addr_view(from.initial_addr),
                    stable_id,
                    addr_view(addr),
                ) {
                    Some(reason) => {
                        &&& from.given_up(&to, reason, now)
                        &&& act matches MigrationAction::Abort { error } && error is Transport
                            && error->detail@ == reason
                    },
                    None => if seen.state.caught_up() {
                        &&& seen.at(&to, MigrationStage::PromoteLearner)
                        &&& act == (MigrationAction::PromoteLearner {
                            group_id: from.group_id,
                            node_id: from.req.target_node,
                        })
                    } else if now.nanos >= from.deadline.nanos {
                        &&& seen.given_up(&to, timeout_reason(leader, target), now)
                        &&& act matches MigrationAction::Abort { error } && error is Transport
                            && error->detail@ == timeout_reason(leader, target)
                    } else {
                        to == seen && act == Self::poll_again(from)
                    },
                }
            },
            (MigrationStage::PromoteLearner, MigrationEvent::Done) => {
                &&& from.at(&to, MigrationStage::PromoteCheckpoint)
                &&& act == (MigrationAction::Checkpoint {
                    attempt: 2,
                    payload: MigrationCheckpointPayload::PromoteLearner {
                        vshard_id: from.req.vshard_id,
                        target_node: from.req.target_node,
                        source_group: from.group_id,
                    },
                })
            },
            _ => false,
        }
    }

    /// Second phase: the target is watched until it has caught up, then it is
    /// made a voter. It is given up when its connection is replaced or lost,
    /// when its address changes, and when it takes too long.
    pub fn phase2_wal_catchup(
        &self,
        run: &mut MigrationRun,
        ev: MigrationEvent,
        now: Instant,
    ) -> (act: MigrationAction)
        ensures
            match ev {
                MigrationEvent::Failed { error } => act == (MigrationAction::Abort { error })
                    && old(run).at(final(run), MigrationStage::Aborted),
                _ => if Self::phase2_expects(old(run).stage, ev) {
                    Self::phase2_step(*old(run), ev, now, *final(run), act)
                } else {
                    act is Ignore && *final(run) == *old(run)
                },
            },
    {
        match (run.stage, ev) {
            (_, MigrationEvent::Failed { error }) => run.abort(error),
            (
                MigrationStage::ObserveTarget,
                MigrationEvent::Seen { stable_id, addr, commit_index, target_match },
            ) => {
                let leader: u64 = match commit_index {
                    Some(n) => n,
                    None => 0,
                };
                run.state.start_wal_catchup(leader, leader);
                run.initial_stable_id = stable_id;
                run.initial_addr = addr;
                run.deadline = now.after(Duration { nanos: CATCHUP_TIMEOUT_NANOS });
                run.stage = MigrationStage::Polling;
                MigrationAction::Poll {
                    after: Duration { nanos: POLL_INTERVAL_NANOS },
                    group_id: run.group_id,
                    node_id: run.req.target_node,
                }
            },
            (
                MigrationStage::Polling,
                MigrationEvent::Seen { stable_id, addr, commit_index, target_match },
            ) => {
                let trouble = check_target(
                    run.req.target_node,
                    run.initial_stable_id,
                    &run.initial_addr,
                    stable_id,
                    &addr,
                );
                match trouble {
                    Some(reason) => {
                        let detail = reason.clone();
                        run.state.fail(reason, now);
                        run.stage = MigrationStage::Aborted;
                        return MigrationAction::Abort {
                            error: ClusterError::Transport { detail },
                        };
                    },
                    None => {},
                }
                let leader: u64 = match commit_index {
                    Some(n) => n,
                    None => 0,
                };
                let target: u64 = match target_match {
                    Some(n) => n,
                    None => 0,
                };
                run.state.update_wal_catchup(leader, target);
                if run.state.is_catchup_ready() {
                    run.stage = MigrationStage::PromoteLearner;
                    return MigrationAction::PromoteLearner {
                        group_id: run.group_id,
                        node_id: run.req.target_node,
                    };
                }
                if now.reached(run.deadline) {
                    let reason = timeout_text(leader, target);
                    let detail = reason.clone();
                    run.state.fail(reason, now);
                    run.stage = MigrationStage::Aborted;
                    return MigrationAction::Abort { error: ClusterError::Transport { detail } };
                }
                MigrationAction::Poll {
                    after: Duration { nanos: POLL_INTERVAL_NANOS },
                    group_id: run.group_id,
                    node_id: run.req.target_node,
                }
            },
            (MigrationStage::PromoteLearner, MigrationEvent::Done) => {
                run.stage = MigrationStage::PromoteCheckpoint;
                MigrationAction::Checkpoint {
                    attempt: 2,
                    payload: MigrationCheckpointPayload::PromoteLearner {
                        vshard_id: run.req.vshard_id,
                        target_node: run.req.target_node,
                        source_group: run.group_id,
                    },
                }
            },
            _ => MigrationAction::Ignore,
        }
    }

    /// Whether the third phase waits for an event at this stage.
    pub open spec fn phase3_stage(stage: MigrationStage) -> bool {
        match stage {
            MigrationStage::PromoteCheckpoint => true,
            MigrationStage::TransferCheckpoint => true,
            MigrationStage::Transfer => true,
            MigrationStage::CutoverCheckpoint => true,
            MigrationStage::SaveGhosts => true,
            MigrationStage::CompleteCheckpoint => true,
            _ => false,
        }
    }

    /// The checkpoint after leadership moved.
    pub open spec fn cutover_checkpoint(run: MigrationRun) -> MigrationAction {
        MigrationAction::Checkpoint {
            attempt: 4,
            payload: MigrationCheckpointPayload::Cutover {
                vshard_id: run.req.vshard_id,
                new_leader_node_id: run.req.target_node,
                source_group: run.group_id,
            },
        }
    }

    /// How long writes have stopped, in microseconds.
    pub open spec fn pause_us(run: MigrationRun, now: Instant) -> u64 {
        if now.nanos >= run.cutover_start.nanos {
            ((now.nanos - run.cutover_start.nanos) / 1_000) as u64
        } else {
            0
        }
    }

    /// Whether `to` and `act` end the migration: its state is complete, and the
    /// last checkpoint says so.
    pub open spec fn completes(
        from: MigrationRun,
        now: Instant,
        to: MigrationRun,
        act: MigrationAction,
    ) -> bool {
        let pause = Self::pause_us(from, now);
        &&& to == (MigrationRun {
            stage: MigrationStage::CompleteCheckpoint,
            state: MigrationState {
                phase: MigrationPhase::Completed { actual_pause_us: pause },
                finished_at: Some(now),
                ..from.state
            },
            ..from
        })
        &&& act == (MigrationAction::Checkpoint {
            attempt: 5,
            payload: MigrationCheckpointPayload::Complete {
                vshard_id: from.req.vshard_id,
                actual_pause_us: pause,
                ghost_stub_installed: true,
            },
        })
    }

    /// Whether `stub` is what a migration leaves behind.
    pub open spec fn is_stub_for(stub: GhostStub, vshard: u32, wall_ms: u64) -> bool {
        &&& stub.node_id@ == "vshard-"@ + text::decimal(vshard as int)
        &&& stub.target_shard == vshard
        &&& stub.refcount == 1
        &&& stub.created_at_ms == wall_ms
    }

    /// What the third phase does when what it asked for is done.
    pub open spec fn phase3_step(
        &self,
        after: &MigrationExecutor,
        from: MigrationRun,
        now: Instant,
        wall_ms: u64,
        to: MigrationRun,
        act: MigrationAction,
    ) -> bool {
        &&& after.catalog == self.catalog
        &&& after.metadata_proposer == self.metadata_proposer
        &&& (from.stage != MigrationStage::TransferCheckpoint ==> after.routing == self.routing)
        &&& (from.stage != MigrationStage::CutoverCheckpoint ==> after.ghost_table
            == self.ghost_table)
        &&& (from.stage != MigrationStage::CompleteCheckpoint ==> after.migration_state
            == self.migration_state)
        &&& match from.stage {
            MigrationStage::PromoteCheckpoint => {
                let budget = from.state.write_pause_budget_us;
                if ESTIMATED_PAUSE_US > budget {
                    &&& from.given_up(&to, rejected_reason(ESTIMATED_PAUSE_US, budget), now)
                    &&& act == (MigrationAction::Abort {
                        error: ClusterError::PauseBudgetExceeded {
                            estimated_us: ESTIMATED_PAUSE_US,
                            budget_us: budget,
                        },
                    })
                } else {
                    &&& to == (MigrationRun {
                        stage: MigrationStage::TransferCheckpoint,
                        cutover_start: now,
                        state: MigrationState {
                            phase: MigrationPhase::AtomicCutOver {
                                estimated_pause_us: ESTIMATED_PAUSE_US,
                            },
                            ..from.state
                        },
                        ..from
                    })
                    &&& act == (MigrationAction::Checkpoint {
                        attempt: 3,
                        payload: MigrationCheckpointPayload::LeadershipTransfer {
                            vshard_id: from.req.vshard_id,
                            target_is_voter: true,
                            new_leader_node_id: from.req.target_node,
                            source_group: from.group_id,
                        },
                    })
                }
            },
            MigrationStage::TransferCheckpoint => if self.metadata_proposer {
                &&& after.routing == self.routing
                &&& from.at(&to, MigrationStage::Transfer)
                &&& act == (MigrationAction::TransferLeadership {
                    group_id: from.group_id,
                    node_id: from.req.target_node,
                })
            } else {
                &&& after.routing@ == self.routing@.with_leader(
                    from.group_id,
                    from.req.target_node,
                )
                &&& from.at(&to, MigrationStage::CutoverCheckpoint)
                &&& act == Self::cutover_checkpoint(from)
            },
            MigrationStage::Transfer => {
                &&& from.at(&to, MigrationStage::CutoverCheckpoint)
                &&& act == Self::cutover_checkpoint(from)
            },
            MigrationStage::CutoverCheckpoint => {
                &&& after.ghost_table.stubs@.len() > 0
                &&& Self::is_stub_for(
                    after.ghost_table.stubs@.last(),
                    from.req.vshard_id,
                    wall_ms,
                )
                &&& after.ghost_table.stubs@.drop_last() == checkpoint::without_stub(
                    self.ghost_table.stubs@,
                    "vshard-"@ + text::decimal(from.req.vshard_id as int),
                )
                &&& if self.catalog {
                    &&& from.at(&to, MigrationStage::SaveGhosts)
                    &&& act == (MigrationAction::SaveGhosts { vshard_id: from.req.vshard_id })
                } else {
                    Self::completes(from, now, to, act)
                }
            },
            MigrationStage::SaveGhosts => Self::completes(from, now, to, act),
            MigrationStage::CompleteCheckpoint => {
                &&& match self.migration_state {
                    Some(t) => after.migration_state matches Some(u) && u.rows@
                        == checkpoint::without_row(t.rows@, from.migration_id),
                    None => after.migration_state is None,
                }
                &&& from.at(&to, MigrationStage::Finished)
                &&& act is Finish
            },
            _ => false,
        }
    }

    /// Ends a migration whose stub is in place.
    fn complete_run(run: &mut MigrationRun, now: Instant) -> (act: MigrationAction)
        ensures
            Self::completes(*old(run), now, *final(run), act),
    {
        let pause: u64 = now.since(run.cutover_start).as_micros();
        run.state.complete(pause, now);
        run.stage = MigrationStage::CompleteCheckpoint;
        MigrationAction::Checkpoint {
            attempt: 5,
            payload: MigrationCheckpointPayload::Complete {
                vshard_id: run.req.vshard_id,
                actual_pause_us: pause,
                ghost_stub_installed: true,
            },
        }
    }

    /// Third phase: leadership moves to the target, between two checkpoints,
    /// and a stub stays behind. The stub is durable before the last checkpoint
    /// says that it is there.
    pub fn phase3_cutover(
        &mut self,
        run: &mut MigrationRun,
        ev: MigrationEvent,
        now: Instant,
        wall_ms: u64,
    ) -> (act: MigrationAction)
        ensures
            match ev {
                MigrationEvent::Failed { error } => act == (MigrationAction::Abort { error })
                    && old(run).at(final(run), MigrationStage::Aborted) && *final(self)
                    == *old(self),
                MigrationEvent::Done => if Self::phase3_stage(old(run).stage) {
                    old(self).phase3_step(
                        final(self),
                        *old(run),
                        now,
                        wall_ms,
                        *final(run),
                        act,
                    )
                } else {
                    act is Ignore && *final(run) == *old(run) && *final(self) == *old(self)
                },
                _ => act is Ignore && *final(run) == *old(run) && *final(self) == *old(self),
            },
    {
        match ev {
            MigrationEvent::Failed { error } => {
                return run.abort(error);
            },
            MigrationEvent::Done => {},
            _ => {
                return MigrationAction::Ignore;
            },
        }
        match run.stage {
            MigrationStage::PromoteCheckpoint => {
                match run.state.start_cutover(ESTIMATED_PAUSE_US) {
                    Ok(()) => {},
                    Err(error) => {
                        let reason = rejected_text(
                            ESTIMATED_PAUSE_US,
                            run.state.write_pause_budget_us,
                        );
                        run.state.fail(reason, now);
                        return run.abort(error);
                    },
                }
                run.cutover_start = now;
                run.stage = MigrationStage::TransferCheckpoint;
                MigrationAction::Checkpoint {
                    attempt: 3,
                    payload: MigrationCheckpointPayload::LeadershipTransfer {
                        vshard_id: run.req.vshard_id,
                        target_is_voter: true,
                        new_leader_node_id: run.req.target_node,
                        source_group: run.group_id,
                    },
                }
            },
            MigrationStage::TransferCheckpoint => {
                if self.metadata_proposer {
                    run.stage = MigrationStage::Transfer;
                    return MigrationAction::TransferLeadership {
                        group_id: run.group_id,
                        node_id: run.req.target_node,
                    };
                }
                self.routing.set_leader(run.group_id, run.req.target_node);
                run.stage = MigrationStage::CutoverCheckpoint;
                MigrationAction::Checkpoint {
                    attempt: 4,
                    payload: MigrationCheckpointPayload::Cutover {
                        vshard_id: run.req.vshard_id,
                        new_leader_node_id: run.req.target_node,
                        source_group: run.group_id,
                    },
                }
            },
            MigrationStage::Transfer => {
                run.stage = MigrationStage::CutoverCheckpoint;
                MigrationAction::Checkpoint {
                    attempt: 4,
                    payload: MigrationCheckpointPayload::Cutover {
                        vshard_id: run.req.vshard_id,
                        new_leader_node_id: run.req.target_node,
                        source_group: run.group_id,
                    },
                }
            },
            MigrationStage::CutoverCheckpoint => {
                let stub = GhostStub {
                    node_id: text::numbered("vshard-", run.req.vshard_id as u64),
                    target_shard: run.req.vshard_id,
                    refcount: 1,
                    created_at_ms: wall_ms,
                };
                self.ghost_table.insert(stub);
                proof {
                    let s = self.ghost_table.stubs@;
                    assert(s.drop_last() =~= checkpoint::without_stub(
                        old(self).ghost_table.stubs@,
                        stub.node_id@,
                    ));
                }
                if self.catalog {
                    run.stage = MigrationStage::SaveGhosts;
                    return MigrationAction::SaveGhosts { vshard_id: run.req.vshard_id };
                }
                Self::complete_run(run, now)
            },
            MigrationStage::SaveGhosts => Self::complete_run(run, now),
            MigrationStage::CompleteCheckpoint => {
                let id: u128 = run.migration_id;
                match &mut self.migration_state {
                    Some(t) => t.remove(id),
                    None => {},
                }
                run.stage = MigrationStage::Finished;
                MigrationAction::Finish
            },
            _ => MigrationAction::Ignore,
        }
    }

    /// What an event makes of a migration.
    pub open spec fn advanced(
        &self,
        after: &MigrationExecutor,
        from: MigrationRun,
        ev: MigrationEvent,
        now: Instant,
        wall_ms: u64,
        to: MigrationRun,
        act: MigrationAction,
    ) -> bool {
        let over = from.stage == MigrationStage::Finished || from.stage == MigrationStage::Aborted;
        if over {
            act is Ignore && to == from && *after == *self
        } else if ev is Failed {
            &&& act == (MigrationAction::Abort { error: ev->error })
            &&& from.at(&to, MigrationStage::Aborted)
            &&& *after == *self
        } else if Self::phase1_expects(from.stage, ev) {
            &&& Self::phase1_step(from, ev, now, to, act)
            &&& *after == *self
        } else if Self::phase2_expects(from.stage, ev) {
            &&& Self::phase2_step(from, ev, now, to, act)
            &&& *after == *self
        } else if Self::phase3_stage(from.stage) && ev is Done {
            self.phase3_step(after, from, now, wall_ms, to, act)
        } else {
            act is Ignore && to == from && *after == *self
        }
    }

    /// What comes next in a migration after something happened outside.
    pub fn advance(
        &mut self,
        run: &mut MigrationRun,
        ev: MigrationEvent,
        now: Instant,
        wall_ms: u64,
    ) -> (act: MigrationAction)
        ensures
            old(run).same_job(final(run)),
            old(self).advanced(final(self), *old(run), ev, now, wall_ms, *final(run), act),
    {
        match run.stage {
            MigrationStage::ReadCommit
            | MigrationStage::AddLearnerCheckpoint
            | MigrationStage::AddLearner
            | MigrationStage::RegisterTarget
            | MigrationStage::CatchUpCheckpoint => self.phase1_base_copy(run, ev, now),
            MigrationStage::ObserveTarget
            | MigrationStage::Polling
            | MigrationStage::PromoteLearner => self.phase2_wal_catchup(run, ev, now),
            MigrationStage::Finished | MigrationStage::Aborted => MigrationAction::Ignore,
            _ => self.phase3_cutover(run, ev, now, wall_ms),
        }
    }
}

} // verus!
