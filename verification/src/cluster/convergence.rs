//! When a cluster that is starting or catching up has got there.

use vstd::prelude::*;

use crate::cluster::routing::RoutingTable;
use crate::raft::state;
use crate::time::{Duration, Instant};

verus! {

/// How long a step of the start may take on Linux: 30 s, in nanoseconds.
pub const CLUSTER_STARTUP_TIMEOUT_NANOS: u64 = 30_000_000_000;

/// How long it may take elsewhere, where a sync takes longer: 60 s, in
/// nanoseconds.
pub const SLOW_STARTUP_TIMEOUT_NANOS: u64 = 60_000_000_000;

/// How long the nodes may take to see each other: 10 s, in nanoseconds.
pub const TOPOLOGY_TIMEOUT_NANOS: u64 = 10_000_000_000;

/// How long a statement is tried on the nodes in turn: 10 s, in nanoseconds.
pub const DDL_TIMEOUT_NANOS: u64 = 10_000_000_000;

/// How long a step of the start may take.
pub fn startup_timeout(on_linux: bool) -> (r: Duration)
    ensures
        r.nanos == if on_linux {
            CLUSTER_STARTUP_TIMEOUT_NANOS
        } else {
            SLOW_STARTUP_TIMEOUT_NANOS
        },
        on_linux ==> r.nanos == 30_000_000_000,
        !on_linux ==> r.nanos == 60_000_000_000,
{
    Duration {
        nanos: if on_linux {
            CLUSTER_STARTUP_TIMEOUT_NANOS
        } else {
            SLOW_STARTUP_TIMEOUT_NANOS
        },
    }
}

/// Whether every number is `n`.
pub fn all_equal(v: &Vec<usize>, n: usize) -> (r: bool)
    ensures
        r == (forall|i: int| 0 <= i < v@.len() ==> v@[i] == n),
{
    let mut i: usize = 0;
    while i < v.len()
        invariant
            i <= v@.len(),
            forall|k: int| 0 <= k < i ==> v@[k] == n,
        decreases v@.len() - i,
    {
        if v[i] != n {
            return false;
        }
        i = i + 1;
    }
    true
}

/// Whether every flag is set.
pub fn all_set(v: &Vec<bool>) -> (r: bool)
    ensures
        r == (forall|i: int| 0 <= i < v@.len() ==> v@[i]),
{
    let mut i: usize = 0;
    while i < v.len()
        invariant
            i <= v@.len(),
            forall|k: int| 0 <= k < i ==> v@[k],
        decreases v@.len() - i,
    {
        if !v[i] {
            return false;
        }
        i = i + 1;
    }
    true
}

/// Whether all see the same leader, and see one.
pub open spec fn agreed_leader(s: Seq<u64>) -> bool {
    s.len() > 0 && s[0] != 0 && forall|i: int| 0 <= i < s.len() ==> #[trigger] s[i] == s[0]
}

/// Whether all see the same leader, and see one.
pub fn leader_is_stable(leaders: &Vec<u64>) -> (r: bool)
    ensures
        r == agreed_leader(leaders@),
{
    if leaders.len() == 0 || leaders[0] == 0 {
        return false;
    }
    let first: u64 = leaders[0];
    let mut i: usize = 0;
    while i < leaders.len()
        invariant
            i <= leaders@.len(),
            leaders@.len() > 0,
            first == leaders@[0],
            first != 0,
            forall|k: int| 0 <= k < i ==> leaders@[k] == first,
        decreases leaders@.len() - i,
    {
        if leaders[i] != first {
            return false;
        }
        i = i + 1;
    }
    true
}

/// The leader that a node sees for a group: the first entry for it; none if it
/// does not know the group.
pub open spec fn leader_seen(node: Seq<(u64, u64)>, group: u64) -> Option<u64>
    decreases node.len(),
{
    if node.len() == 0 {
        None
    } else if node[0].0 == group {
        Some(node[0].1)
    } else {
        leader_seen(node.skip(1), group)
    }
}

/// Whether a group is known to some node.
pub open spec fn group_known(nodes: Seq<Vec<(u64, u64)>>, group: u64) -> bool {
    exists|n: int, i: int|
        0 <= n < nodes.len() && 0 <= i < nodes[n]@.len() && (#[trigger] nodes[n]@[i]).0 == group
}

/// Whether every node sees the same leader for a group.
pub open spec fn group_led(nodes: Seq<Vec<(u64, u64)>>, group: u64) -> bool {
    &&& nodes.len() > 0
    &&& forall|n: int|
        0 <= n < nodes.len() ==> leader_seen((#[trigger] nodes[n])@, group) is Some && leader_seen(
            nodes[n]@,
            group,
        ) == leader_seen(nodes[0]@, group)
    &&& leader_seen(nodes[0]@, group) != Some(0u64)
}

/// The leader that a node sees for a group.
fn find_leader(node: &Vec<(u64, u64)>, group: u64) -> (r: Option<u64>)
    ensures
        r == leader_seen(node@, group),
{
    let mut i: usize = 0;
    assert(node@.skip(0) =~= node@);
    while i < node.len()
        invariant
            i <= node@.len(),
            leader_seen(node@, group) == leader_seen(node@.skip(i as int), group),
        decreases node@.len() - i,
    {
        proof {
            assert(node@.skip(i as int)[0] == node@[i as int]);
            assert(node@.skip(i as int).skip(1) =~= node@.skip(i + 1));
        }
        if node[i].0 == group {
            return Some(node[i].1);
        }
        i = i + 1;
    }
    None
}

/// Whether every node sees the same leader for a group.
fn is_group_led(nodes: &Vec<Vec<(u64, u64)>>, group: u64) -> (r: bool)
    ensures
        r == group_led(nodes@, group),
{
    if nodes.len() == 0 {
        return false;
    }
    let first: u64 = match find_leader(&nodes[0], group) {
        Some(l) => l,
        None => {
            assert(leader_seen(nodes@[0]@, group) is None);
            return false;
        },
    };
    if first == 0 {
        return false;
    }
    let mut n: usize = 0;
    while n < nodes.len()
        invariant
            n <= nodes@.len(),
            nodes@.len() > 0,
            leader_seen(nodes@[0]@, group) == Some(first),
            first != 0,
            forall|k: int|
                0 <= k < n ==> leader_seen((#[trigger] nodes@[k])@, group) == Some(first),
        decreases nodes@.len() - n,
    {
        match find_leader(&nodes[n], group) {
            Some(l) => {
                if l != first {
                    assert(leader_seen(nodes@[n as int]@, group) != leader_seen(
                        nodes@[0]@,
                        group,
                    ));
                    return false;
                }
            },
            None => {
                assert(leader_seen(nodes@[n as int]@, group) is None);
                return false;
            },
        }
        n = n + 1;
    }
    true
}

/// Whether every node knows a group, and every group that a node knows has a
/// leader that all nodes see.
pub open spec fn groups_led(nodes: Seq<Vec<(u64, u64)>>) -> bool {
    &&& nodes.len() > 0
    &&& forall|n: int| 0 <= n < nodes.len() ==> (#[trigger] nodes[n])@.len() > 0
    &&& forall|g: u64| #[trigger] group_known(nodes, g) ==> group_led(nodes, g)
}

/// Whether every group has a leader that all nodes see. `nodes` holds, for each
/// node, the groups that it knows with the leader that it sees.
pub fn every_group_led(nodes: &Vec<Vec<(u64, u64)>>) -> (r: bool)
    ensures
        r == groups_led(nodes@),
{
    if nodes.len() == 0 {
        return false;
    }
    let mut n: usize = 0;
    while n < nodes.len()
        invariant
            n <= nodes@.len(),
            nodes@.len() > 0,
            forall|k: int| 0 <= k < n ==> (#[trigger] nodes@[k])@.len() > 0,
            forall|k: int, i: int|
                0 <= k < n && 0 <= i < nodes@[k]@.len() ==> group_led(
                    nodes@,
                    (#[trigger] nodes@[k]@[i]).0,
                ),
        decreases nodes@.len() - n,
    {
        if nodes[n].len() == 0 {
            assert(nodes@[n as int]@.len() == 0);
            return false;
        }
        let mut i: usize = 0;
        while i < nodes[n as usize].len()
            invariant
                n < nodes@.len(),
                i <= nodes@[n as int]@.len(),
                forall|k: int|
                    0 <= k < i ==> group_led(nodes@, (#[trigger] nodes@[n as int]@[k]).0),
            decreases nodes@[n as int]@.len() - i,
        {
            let g: u64 = nodes[n][i].0;
            if !is_group_led(nodes, g) {
                assert(nodes@[n as int]@[i as int].0 == g);
                assert(group_known(nodes@, g));
                return false;
            }
            i = i + 1;
        }
        n = n + 1;
    }
    true
}

/// How far one node has applied each group that it has applied anything of.
#[derive(Debug)]
pub struct NodeApplied {
    pub node_id: u64,
    pub applied: Vec<(u64, u64)>,
}

/// How far a node has applied a group: the first entry for it, else 0.
pub open spec fn applied_of(node: Seq<(u64, u64)>, group: u64) -> u64 {
    match leader_seen(node, group) {
        Some(i) => i,
        None => 0,
    }
}

/// Whether a node is to hold a group.
pub open spec fn hosts(
    routing: crate::cluster::routing::RoutingView,
    group: u64,
    node: u64,
) -> bool {
    routing.groups.contains_key(group) && (routing.groups[group].members.contains(node)
        || routing.groups[group].learners.contains(node))
}

/// Whether every node has applied each group that it is to hold as far as any
/// node has.
pub open spec fn converged(
    nodes: Seq<NodeApplied>,
    routing: crate::cluster::routing::RoutingView,
) -> bool {
    forall|n: int, m: int, i: int|
        0 <= n < nodes.len() && 0 <= m < nodes.len() && 0 <= i < nodes[m].applied@.len() && hosts(
            routing,
            (#[trigger] nodes[m].applied@[i]).0,
            (#[trigger] nodes[n]).node_id,
        ) ==> applied_of(nodes[n].applied@, nodes[m].applied@[i].0) >= nodes[m].applied@[i].1
}

/// Whether every node has applied each group that it is to hold as far as any
/// node has.
pub fn is_fully_applied(nodes: &Vec<NodeApplied>, routing: &RoutingTable) -> (r: bool)
    ensures
        r == converged(nodes@, routing@),
{
    let mut n: usize = 0;
    while n < nodes.len()
        invariant
            n <= nodes@.len(),
            forall|k: int, m: int, i: int|
                0 <= k < n && 0 <= m < nodes@.len() && 0 <= i < nodes@[m].applied@.len() && hosts(
                    routing@,
                    (#[trigger] nodes@[m].applied@[i]).0,
                    (#[trigger] nodes@[k]).node_id,
                ) ==> applied_of(nodes@[k].applied@, nodes@[m].applied@[i].0)
                    >= nodes@[m].applied@[i].1,
        decreases nodes@.len() - n,
    {
        let mut m: usize = 0;
        while m < nodes.len()
            invariant
                n < nodes@.len(),
                m <= nodes@.len(),
                forall|k: int, i: int|
                    0 <= k < m && 0 <= i < nodes@[k].applied@.len() && hosts(
                        routing@,
                        (#[trigger] nodes@[k].applied@[i]).0,
                        nodes@[n as int].node_id,
                    ) ==> applied_of(nodes@[n as int].applied@, nodes@[k].applied@[i].0)
                        >= nodes@[k].applied@[i].1,
            decreases nodes@.len() - m,
        {
            let mut i: usize = 0;
            while i < nodes[m].applied.len()
                invariant
                    n < nodes@.len(),
                    m < nodes@.len(),
                    i <= nodes@[m as int].applied@.len(),
                    forall|k: int|
                        0 <= k < i && hosts(
                            routing@,
                            (#[trigger] nodes@[m as int].applied@[k]).0,
                            nodes@[n as int].node_id,
                        ) ==> applied_of(
                            nodes@[n as int].applied@,
                            nodes@[m as int].applied@[k].0,
                        ) >= nodes@[m as int].applied@[k].1,
                decreases nodes@[m as int].applied@.len() - i,
            {
                let g: u64 = nodes[m].applied[i].0;
                let target: u64 = nodes[m].applied[i].1;
                let held: bool = match routing.group_info(g) {
                    Some(info) => state::contains_id(&info.members, nodes[n].node_id)
                        || state::contains_id(&info.learners, nodes[n].node_id),
                    None => false,
                };
                if held {
                    let at: u64 = match find_leader(&nodes[n].applied, g) {
                        Some(a) => a,
                        None => 0,
                    };
                    if at < target {
                        proof {
                            let e = nodes@[m as int].applied@[i as int];
                            assert(hosts(routing@, e.0, nodes@[n as int].node_id));
                        }
                        return false;
                    }
                }
                i = i + 1;
            }
            m = m + 1;
        }
        n = n + 1;
    }
    true
}

/// What a wait does next.
#[derive(Debug, Clone, Copy, PartialEq, Eq, Structural)]
pub enum WaitStep {
    /// It is over.
    Over,
    /// Look again after a while.
    Sleep { after: Duration },
}

/// What a wait for convergence does next.
pub open spec fn waited(reached: bool, deadline: Instant, now: Instant) -> WaitStep {
    if reached || now.nanos >= deadline.nanos {
        WaitStep::Over
    } else {
        WaitStep::Sleep { after: Duration { nanos: 5_000_000 } }
    }
}

/// A wait for convergence: it is over when it has come about, and also at its
/// deadline, after which whoever waits finds out what is missing.
pub fn wait_for_convergence(reached: bool, deadline: Instant, now: Instant) -> (r: WaitStep)
    ensures
        r == waited(reached, deadline, now),
{
    if reached || now.reached(deadline) {
        WaitStep::Over
    } else {
        WaitStep::Sleep { after: Duration { nanos: 5_000_000 } }
    }
}

/// Whether every node has applied the metadata group as far as `target`.
pub open spec fn caught_up_with(applied: Seq<u64>, target: u64) -> bool {
    target == 0 || forall|i: int| 0 <= i < applied.len() ==> applied[i] >= target
}

/// Whether every node has applied the metadata group as far as the proposer
/// had; nothing is to be waited for if the proposer had applied nothing.
pub fn metadata_caught_up(applied: &Vec<u64>, target: u64) -> (r: bool)
    ensures
        r == caught_up_with(applied@, target),
{
    if target == 0 {
        return true;
    }
    let mut i: usize = 0;
    while i < applied.len()
        invariant
            i <= applied@.len(),
            forall|k: int| 0 <= k < i ==> applied@[k] >= target,
        decreases applied@.len() - i,
    {
        if applied[i] < target {
            return false;
        }
        i = i + 1;
    }
    true
}

/// Where the start of a cluster of three stands.
#[derive(Debug, Clone, Copy, PartialEq, Eq, Structural)]
pub enum StartupStage {
    /// The first node is being started.
    SpawnFirst,
    /// The first node is to see itself.
    AwaitFirst,
    /// The second node is being started.
    SpawnSecond,
    /// The first node is to see the second.
    AwaitSecond,
    /// The third node is being started.
    SpawnThird,
    /// All nodes are to see three.
    AwaitTopology,
    /// All nodes are to have left compatibility mode.
    AwaitVersion,
    /// All nodes are to see the same leader of the metadata group.
    AwaitMetadataLeader,
    /// All nodes are to see the same leader of every group.
    AwaitGroupLeaders,
    /// The cluster is up.
    Up,
    /// The start was given up.
    Failed,
}

/// What is known of the nodes that have been started.
#[derive(Debug)]
pub struct ClusterSight {
    /// How many members each node sees.
    pub topology_sizes: Vec<usize>,
    /// Whether each node has left compatibility mode.
    pub upgraded: Vec<bool>,
    /// The leader of the metadata group that each node sees.
    pub metadata_leaders: Vec<u64>,
    /// The groups that each node knows, with the leader that it sees.
    pub group_leaders: Vec<Vec<(u64, u64)>>,
}

/// What happened outside.
pub enum StartupEvent {
    /// Nothing yet: start the first node.
    Begin,
    /// The node was started.
    Spawned,
    /// The node could not be started.
    SpawnFailed { detail: String },
    /// A look at the nodes.
    Seen { sight: ClusterSight },
}

/// What is to be done outside.
#[derive(Debug)]
pub enum StartupAction {
    /// Start a node; all but the first join through the first.
    Spawn { node_id: u64, join_first: bool },
    /// Look at the nodes after a while.
    Look { after: Duration },
    /// The cluster is up.
    Ready,
    /// Give up.
    Fail { detail: String },
    /// What happened does not fit the stage; nothing is to be done.
    Ignore,
}

/// The start of a cluster of three.
pub struct StartupRun {
    pub stage: StartupStage,
    /// How long a wait may take.
    pub limit: Duration,
    /// When the wait at hand is given up.
    pub deadline: Instant,
}

/// Whether what a stage waits for has come about.
pub open spec fn come_about(stage: StartupStage, s: ClusterSight) -> bool {
    match stage {
        StartupStage::AwaitFirst => s.topology_sizes@.len() > 0 && s.topology_sizes@[0] >= 1,
        StartupStage::AwaitSecond => s.topology_sizes@.len() > 0 && s.topology_sizes@[0] >= 2,
        StartupStage::AwaitTopology => forall|i: int|
            0 <= i < s.topology_sizes@.len() ==> s.topology_sizes@[i] == 3,
        StartupStage::AwaitVersion => forall|i: int|
            0 <= i < s.upgraded@.len() ==> s.upgraded@[i],
        StartupStage::AwaitMetadataLeader => agreed_leader(s.metadata_leaders@),
        StartupStage::AwaitGroupLeaders => groups_led(s.group_leaders@),
        _ => false,
    }
}

/// Whether a stage waits for something to come about.
pub open spec fn is_wait(stage: StartupStage) -> bool {
    match stage {
        StartupStage::AwaitFirst => true,
        StartupStage::AwaitSecond => true,
        StartupStage::AwaitTopology => true,
        StartupStage::AwaitVersion => true,
        StartupStage::AwaitMetadataLeader => true,
        StartupStage::AwaitGroupLeaders => true,
        _ => false,
    }
}

/// The stage behind a wait that has come about.
pub open spec fn stage_after(stage: StartupStage) -> StartupStage {
    match stage {
        StartupStage::AwaitFirst => StartupStage::SpawnSecond,
        StartupStage::AwaitSecond => StartupStage::SpawnThird,
        StartupStage::AwaitTopology => StartupStage::AwaitVersion,
        StartupStage::AwaitVersion => StartupStage::AwaitMetadataLeader,
        StartupStage::AwaitMetadataLeader => StartupStage::AwaitGroupLeaders,
        StartupStage::AwaitGroupLeaders => StartupStage::Up,
        s => s,
    }
}

/// How long the start waits between two looks, in nanoseconds.
pub open spec fn look_interval(stage: StartupStage) -> u64 {
    if stage == StartupStage::AwaitTopology {
        50_000_000
    } else {
        20_000_000
    }
}

/// How long a start with that limit waits at a stage, in nanoseconds.
pub open spec fn patience(stage: StartupStage, limit: Duration) -> u64 {
    if stage == StartupStage::AwaitTopology {
        TOPOLOGY_TIMEOUT_NANOS
    } else {
        limit.nanos
    }
}

/// What is said of a wait that took too long.
pub open spec fn late(stage: StartupStage) -> Seq<char> {
    match stage {
        StartupStage::AwaitFirst => "node 1 failed to bootstrap within deadline"@,
        StartupStage::AwaitSecond => "node 2 failed to join within deadline"@,
        StartupStage::AwaitTopology => "all 3 nodes report topology_size == 3"@,
        StartupStage::AwaitVersion => "all 3 nodes exit rolling-upgrade compat mode"@,
        StartupStage::AwaitMetadataLeader => "metadata group has stable leader visible on every node"@,
        _ => "every Raft group has a stable leader visible on every node"@,
    }
}

/// What is said of a wait that took too long.
fn late_text(stage: StartupStage) -> (r: String)
    ensures
        r@ == late(stage),
{
    match stage {
        StartupStage::AwaitFirst => "node 1 failed to bootstrap within deadline".to_owned(),
        StartupStage::AwaitSecond => "node 2 failed to join within deadline".to_owned(),
        StartupStage::AwaitTopology => "all 3 nodes report topology_size == 3".to_owned(),
        StartupStage::AwaitVersion => "all 3 nodes exit rolling-upgrade compat mode".to_owned(),
        StartupStage::AwaitMetadataLeader => "metadata group has stable leader visible on every node".to_owned(),
        _ => "every Raft group has a stable leader visible on every node".to_owned(),
    }
}

/// Whether what a stage waits for has come about.
fn has_come_about(stage: StartupStage, s: &ClusterSight) -> (r: bool)
    ensures
        r == come_about(stage, *s),
{
    match stage {
        StartupStage::AwaitFirst => s.topology_sizes.len() > 0 && s.topology_sizes[0] >= 1,
        StartupStage::AwaitSecond => s.topology_sizes.len() > 0 && s.topology_sizes[0] >= 2,
        StartupStage::AwaitTopology => all_equal(&s.topology_sizes, 3),
        StartupStage::AwaitVersion => all_set(&s.upgraded),
        StartupStage::AwaitMetadataLeader => leader_is_stable(&s.metadata_leaders),
        StartupStage::AwaitGroupLeaders => every_group_led(&s.group_leaders),
        _ => false,
    }
}

/// What a stage that is entered asks for. A wait begins with a look.
pub open spec fn entered(stage: StartupStage, act: StartupAction) -> bool {
    match stage {
        StartupStage::SpawnFirst => act == (StartupAction::Spawn {
            node_id: 1,
            join_first: false,
        }),
        StartupStage::SpawnSecond => act == (StartupAction::Spawn {
            node_id: 2,
            join_first: true,
        }),
        StartupStage::SpawnThird => act == (StartupAction::Spawn {
            node_id: 3,
            join_first: true,
        }),
        StartupStage::Up => act is Ready,
        _ => act == (StartupAction::Look { after: Duration { nanos: 0 } }),
    }
}

impl StartupRun {
    /// A start that has not begun and whose waits may take `limit` each. No time
    /// has been set for it yet.
    pub fn new(limit: Duration) -> (r: StartupRun)
        ensures
            r.stage == StartupStage::SpawnFirst,
            r.limit == limit,
            r.deadline.nanos == 0,
    {
        StartupRun { stage: StartupStage::SpawnFirst, limit, deadline: Instant { nanos: 0 } }
    }

    /// Enters a stage. A wait gets a deadline of its own.
    fn enter(&mut self, stage: StartupStage, now: Instant) -> (act: StartupAction)
        requires
            stage != StartupStage::Failed,
        ensures
            old(self).enters(final(self), stage, now, act),
    {
        self.stage = stage;
        let limit: u64 = if stage == StartupStage::AwaitTopology {
            TOPOLOGY_TIMEOUT_NANOS
        } else {
            self.limit.nanos
        };
        self.deadline = now.after(Duration { nanos: limit });
        match stage {
            StartupStage::SpawnFirst => StartupAction::Spawn { node_id: 1, join_first: false },
            StartupStage::SpawnSecond => StartupAction::Spawn { node_id: 2, join_first: true },
            StartupStage::SpawnThird => StartupAction::Spawn { node_id: 3, join_first: true },
            StartupStage::Up => StartupAction::Ready,
            _ => StartupAction::Look { after: Duration { nanos: 0 } },
        }
    }

    /// Whether `to` has entered `stage`.
    pub open spec fn enters(
        &self,
        to: &StartupRun,
        stage: StartupStage,
        now: Instant,
        act: StartupAction,
    ) -> bool {
        &&& to.stage == stage
        &&& to.limit == self.limit
        &&& to.deadline.nanos == crate::time::saturating_sum(
            now.nanos as int,
            patience(stage, self.limit) as int,
        )
        &&& entered(stage, act)
    }

    /// Whether `to` has given up.
    pub open spec fn gives_up(&self, to: &StartupRun) -> bool {
        *to == (StartupRun { stage: StartupStage::Failed, ..*self })
    }

    /// What comes of something that happened outside. One node comes up after
    /// the other; then topology, version and leaders are waited for in turn, each
    /// for a limited time.
    pub open spec fn advanced(
        from: StartupRun,
        ev: StartupEvent,
        now: Instant,
        to: StartupRun,
        act: StartupAction,
    ) -> bool {
        match (from.stage, ev) {
            (StartupStage::SpawnFirst, StartupEvent::Begin) => from.enters(
                &to,
                StartupStage::SpawnFirst,
                now,
                act,
            ),
            (StartupStage::SpawnFirst, StartupEvent::Spawned) => from.enters(
                &to,
                StartupStage::AwaitFirst,
                now,
                act,
            ),
            (StartupStage::SpawnSecond, StartupEvent::Spawned) => from.enters(
                &to,
                StartupStage::AwaitSecond,
                now,
                act,
            ),
            (StartupStage::SpawnThird, StartupEvent::Spawned) => from.enters(
                &to,
                StartupStage::AwaitTopology,
                now,
                act,
            ),
            (_, StartupEvent::SpawnFailed { detail }) => if from.stage
                == StartupStage::SpawnFirst || from.stage == StartupStage::SpawnSecond
                || from.stage == StartupStage::SpawnThird {
                from.gives_up(&to) && act == (StartupAction::Fail { detail })
            } else {
                act is Ignore && to == from
            },
            (_, StartupEvent::Seen { sight }) => if !is_wait(from.stage) {
                act is Ignore && to == from
            } else if come_about(from.stage, sight) {
                from.enters(&to, stage_after(from.stage), now, act)
            } else if now.nanos >= from.deadline.nanos {
                from.gives_up(&to) && (act matches StartupAction::Fail {
                    detail,
                } && detail@ == late(from.stage))
            } else {
                to == from && act == (StartupAction::Look {
                    after: Duration { nanos: look_interval(from.stage) },
                })
            },
            _ => act is Ignore && to == from,
        }
    }

    /// What comes next in the start after something happened outside. One node
    /// comes up after the other; then topology, version and leaders are waited
    /// for in turn, each for a limited time.
    pub fn advance(&mut self, ev: StartupEvent, now: Instant) -> (act: StartupAction)
        ensures
            Self::advanced(*old(self), ev, now, *final(self), act),
    {
        let stage = self.stage;
        match ev {
            StartupEvent::Begin => {
                if stage == StartupStage::SpawnFirst {
                    self.enter(StartupStage::SpawnFirst, now)
                } else {
                    StartupAction::Ignore
                }
            },
            StartupEvent::Spawned => {
                match stage {
                    StartupStage::SpawnFirst => self.enter(StartupStage::AwaitFirst, now),
                    StartupStage::SpawnSecond => self.enter(StartupStage::AwaitSecond, now),
                    StartupStage::SpawnThird => self.enter(StartupStage::AwaitTopology, now),
                    _ => StartupAction::Ignore,
                }
            },
            StartupEvent::SpawnFailed { detail } => {
                if stage == StartupStage::SpawnFirst || stage == StartupStage::SpawnSecond || stage
                    == StartupStage::SpawnThird {
                    self.stage = StartupStage::Failed;
                    StartupAction::Fail { detail }
                } else {
                    StartupAction::Ignore
                }
            },
            StartupEvent::Seen { sight } => {
                let next = match stage {
                    StartupStage::AwaitFirst => StartupStage::SpawnSecond,
                    StartupStage::AwaitSecond => StartupStage::SpawnThird,
                    StartupStage::AwaitTopology => StartupStage::AwaitVersion,
                    StartupStage::AwaitVersion => StartupStage::AwaitMetadataLeader,
                    StartupStage::AwaitMetadataLeader => StartupStage::AwaitGroupLeaders,
                    StartupStage::AwaitGroupLeaders => StartupStage::Up,
                    _ => {
                        return StartupAction::Ignore;
                    },
                };
                if has_come_about(stage, &sight) {
                    return self.enter(next, now);
                }
                if now.reached(self.deadline) {
                    self.stage = StartupStage::Failed;
                    return StartupAction::Fail { detail: late_text(stage) };
                }
                let after: u64 = if stage == StartupStage::AwaitTopology {
                    50_000_000
                } else {
                    20_000_000
                };
                StartupAction::Look { after: Duration { nanos: after } }
            },
        }
    }
}

/// Where an attempt to run a statement on any node stands.
pub struct DdlRun {
    /// The node that is tried next.
    pub next: usize,
    pub nodes: usize,
    pub deadline: Instant,
    pub last_error: String,
}

/// What is to be done about a statement.
#[derive(Debug)]
pub enum DdlAction {
    /// Try it on the node at this place.
    Try { node: usize },
    /// Wait, then start over.
    Sleep { after: Duration },
    /// The node at this place took it.
    Accepted { node: usize },
    /// No node took it in time.
    Fail { detail: String },
}

impl DdlRun {
    /// What comes of the start of a round over the nodes.
    pub open spec fn rounds(from: DdlRun, now: Instant, to: DdlRun, act: DdlAction) -> bool {
        if now.nanos >= from.deadline.nanos {
            to == from && (act matches DdlAction::Fail { detail } && detail@
                == "no node accepted DDL within deadline; last error: "@ + from.last_error@)
        } else if from.nodes == 0 {
            to == from && act == (DdlAction::Sleep { after: Duration { nanos: 100_000_000 } })
        } else {
            act == (DdlAction::Try { node: 0 }) && to == (DdlRun { next: 1, ..from })
        }
    }

    /// What comes of the answer of the node tried last.
    pub open spec fn goes_on(
        from: DdlRun,
        refused: Option<String>,
        to: DdlRun,
        act: DdlAction,
    ) -> bool {
        match refused {
            None => act == (DdlAction::Accepted { node: (from.next - 1) as usize }) && to == from,
            Some(e) => if from.next < from.nodes {
                act == (DdlAction::Try { node: from.next }) && to == (DdlRun {
                    next: (from.next + 1) as usize,
                    last_error: e,
                    ..from
                })
            } else {
                act == (DdlAction::Sleep { after: Duration { nanos: 100_000_000 } }) && to == (
                DdlRun { last_error: e, ..from })
            },
        }
    }

    /// A first attempt.
    pub fn new(nodes: usize, now: Instant) -> (r: DdlRun)
        ensures
            r.next == 0,
            r.nodes == nodes,
            r.deadline.nanos == crate::time::saturating_sum(
                now.nanos as int,
                DDL_TIMEOUT_NANOS as int,
            ),
            now.nanos + 10_000_000_000 <= u64::MAX ==> r.deadline.nanos == now.nanos
                + 10_000_000_000,
            r.last_error@ == Seq::<char>::empty(),
    {
        let r = DdlRun {
            next: 0,
            nodes,
            deadline: now.after(Duration { nanos: DDL_TIMEOUT_NANOS }),
            last_error: String::new(),
        };
        assert(r.last_error@ =~= Seq::<char>::empty());
        r
    }

    /// What comes next at the start of a round over the nodes: rounds begin
    /// only before the deadline.
    pub fn round(&mut self, now: Instant) -> (act: DdlAction)
        ensures
            Self::rounds(*old(self), now, *final(self), act),
    {
        if now.reached(self.deadline) {
            let mut s = "no node accepted DDL within deadline; last error: ".to_owned();
            s.append(self.last_error.as_str());
            return DdlAction::Fail { detail: s };
        }
        if self.nodes == 0 {
            return DdlAction::Sleep { after: Duration { nanos: 100_000_000 } };
        }
        self.next = 1;
        DdlAction::Try { node: 0 }
    }

    /// What comes next after the node tried last took the statement or refused
    /// it: the next node, or a pause at the end of a round.
    pub fn tried(&mut self, refused: Option<String>) -> (act: DdlAction)
        requires
            0 < old(self).next <= old(self).nodes,
        ensures
            Self::goes_on(*old(self), refused, *final(self), act),
    {
        match refused {
            None => DdlAction::Accepted { node: self.next - 1 },
            Some(e) => {
                self.last_error = e;
                if self.next < self.nodes {
                    let node: usize = self.next;
                    self.next = node + 1;
                    DdlAction::Try { node }
                } else {
                    DdlAction::Sleep { after: Duration { nanos: 100_000_000 } }
                }
            },
        }
    }
}

} // verus!
