//! The Raft groups mounted on one node.

use std::collections::HashMap;

use vstd::prelude::*;

use crate::cluster::error::ClusterError;
use crate::cluster::routing::RoutingTable;
use crate::keys;
use crate::raft::error::RaftError;
use crate::raft::log;
use crate::raft::node::config::{ConfigView, RaftConfig};
use crate::raft::node::machine::{NodeView, RaftNode, Ready, ReadyView};
use crate::raft::state::NodeRole;
use crate::raft::storage::LogStorage;
use crate::text;
use crate::time::{Duration, Instant};

verus! {

broadcast use vstd::std_specs::hash::group_hash_axioms;

/// State of one group, for observers.
#[derive(Debug)]
pub struct GroupStatus {
    pub group_id: u64,
    /// "Leader", "Follower", "Candidate" or "Learner".
    pub role: String,
    pub leader_id: u64,
    pub term: u64,
    pub commit_index: u64,
    pub last_applied: u64,
    pub member_count: usize,
    pub vshard_count: usize,
}

impl Clone for GroupStatus {
    fn clone(&self) -> (r: GroupStatus)
        ensures
            r.role@ == self.role@,
            r == (GroupStatus { role: r.role, ..*self }),
    {
        GroupStatus {
            group_id: self.group_id,
            role: self.role.clone(),
            leader_id: self.leader_id,
            term: self.term,
            commit_index: self.commit_index,
            last_applied: self.last_applied,
            member_count: self.member_count,
            vshard_count: self.vshard_count,
        }
    }
}

/// The name of a role.
pub open spec fn role_name(role: NodeRole) -> Seq<char> {
    match role {
        NodeRole::Follower => "Follower"@,
        NodeRole::Candidate => "Candidate"@,
        NodeRole::Leader => "Leader"@,
        NodeRole::Learner => "Learner"@,
    }
}

/// The name of a role, as text.
fn role_text(role: NodeRole) -> (r: String)
    ensures
        r@ == role_name(role),
{
    match role {
        NodeRole::Follower => "Follower".to_owned(),
        NodeRole::Candidate => "Candidate".to_owned(),
        NodeRole::Leader => "Leader".to_owned(),
        NodeRole::Learner => "Learner".to_owned(),
    }
}

/// Output of all groups after a tick.
#[derive(Debug)]
pub struct MultiRaftReady {
    /// Output by group; a group without output is left out.
    pub groups: Vec<(u64, Ready)>,
}

/// Committed entries in the first `n` outputs.
pub open spec fn committed_in(s: Seq<(u64, Ready)>, n: int) -> nat
    decreases n,
{
    if n <= 0 {
        0
    } else {
        committed_in(s, n - 1) + s[n - 1].1@.committed_entries.len()
    }
}

/// What the output says for `group`; nothing if it is not listed.
pub open spec fn ready_of(s: Seq<(u64, Ready)>, group: u64) -> ReadyView
    decreases s.len(),
{
    if s.len() == 0 {
        ReadyView::empty()
    } else if s.last().0 == group {
        s.last().1@
    } else {
        ready_of(s.drop_last(), group)
    }
}

impl Default for MultiRaftReady {
    fn default() -> (r: MultiRaftReady)
        ensures
            r.groups@ == Seq::<(u64, Ready)>::empty(),
    {
        MultiRaftReady { groups: Vec::new() }
    }
}

impl MultiRaftReady {
    /// Whether no group has anything to do.
    pub fn is_empty(&self) -> (r: bool)
        ensures
            r == (forall|i: int|
                0 <= i < self.groups@.len() ==> (#[trigger] self.groups@[i]).1@
                    == ReadyView::empty()),
    {
        let mut i: usize = 0;
        while i < self.groups.len()
            invariant
                i <= self.groups@.len(),
                forall|k: int|
                    0 <= k < i ==> (#[trigger] self.groups@[k]).1@ == ReadyView::empty(),
            decreases self.groups@.len() - i,
        {
            if !self.groups[i].1.is_empty() {
                assert(self.groups@[i as int].1@ != ReadyView::empty());
                return false;
            }
            i = i + 1;
        }
        true
    }

    /// Committed entries over all groups.
    pub fn total_committed(&self) -> (r: usize)
        requires
            committed_in(self.groups@, self.groups@.len() as int) <= usize::MAX,
        ensures
            r == committed_in(self.groups@, self.groups@.len() as int),
    {
        let mut sum: usize = 0;
        let mut i: usize = 0;
        while i < self.groups.len()
            invariant
                i <= self.groups@.len(),
                committed_in(self.groups@, self.groups@.len() as int) <= usize::MAX,
                sum == committed_in(self.groups@, i as int),
            decreases self.groups@.len() - i,
        {
            proof {
                lemma_committed_in_grows(self.groups@, i + 1, self.groups@.len() as int);
                assert(self.groups@[i as int].1@.committed_entries.len() == self.groups@[i as int]
                    .1.committed_entries@.len());
            }
            sum = sum + self.groups[i].1.committed_entries.len();
            i = i + 1;
        }
        sum
    }
}

proof fn lemma_committed_in_grows(s: Seq<(u64, Ready)>, a: int, b: int)
    requires
        a <= b,
    ensures
        committed_in(s, a) <= committed_in(s, b),
    decreases b - a,
{
    if a < b {
        lemma_committed_in_grows(s, a, b - 1);
        if b <= 0 {
            assert(committed_in(s, a) == 0);
        }
    }
}

/// The Raft groups that this node hosts, behind one routing table.
pub struct MultiRaft<S: LogStorage> {
    pub node_id: u64,
    pub groups: HashMap<u64, RaftNode<S>>,
    pub routing: RoutingTable,
    pub election_timeout_min: Duration,
    pub election_timeout_max: Duration,
    pub heartbeat_interval: Duration,
}

/// How one group comes out of a tick whose output was handed over.
#[verifier::opaque]
pub open spec fn group_ticked<S: LogStorage>(
    from: RaftNode<S>,
    now: u64,
    to: NodeView,
    out: ReadyView,
) -> bool {
    ||| {
        let t = from@.ticked(now, true);
        to == t.saved().drained() && out == t.ready
    }
    ||| {
        let t = from@.ticked(now, false);
        !from.log.storage.reliable() && to == t.saved().drained() && out == t.ready
    }
}

/// How one group comes out of a tick whose hard state could not be written.
#[verifier::opaque]
pub open spec fn group_stuck<S: LogStorage>(from: RaftNode<S>, now: u64, to: NodeView) -> bool {
    &&& !from.log.storage.reliable()
    &&& to.ready.hard_state is Some
    &&& to == from@.ticked(now, true) || to == from@.ticked(now, false)
}

/// Lets time pass for one group. Its output is handed over only after its
/// hard state has been written.
pub fn tick_group<S: LogStorage>(
    node: &mut RaftNode<S>,
    now: Instant,
) -> (r: Result<Ready, RaftError>)
    requires
        old(node)@.wf(),
        old(node)@.can_tick(now.nanos),
    ensures
        final(node)@.wf(),
        final(node).log.storage.reliable() == old(node).log.storage.reliable(),
        match r {
            Ok(ready) => group_ticked(*old(node), now.nanos, final(node)@, ready@),
            Err(_) => group_stuck(*old(node), now.nanos, final(node)@),
        },
{
    reveal(group_ticked);
    reveal(group_stuck);
    node.tick(now);
    match node.persist_ready_hard_state() {
        Ok(()) => {},
        Err(e) => return Err(e),
    }
    Ok(node.take_ready())
}

impl<S: LogStorage> MultiRaft<S> {
    /// Every mounted group is well formed, and shard numbers fit their type.
    pub open spec fn wf(&self) -> bool {
        &&& forall|g: u64| #[trigger] self.groups@.contains_key(g) ==> self.groups@[g]@.wf()
        &&& self.routing@.owners.len() <= u32::MAX
    }

    /// Whether nothing but the group `g` differs.
    pub open spec fn same_but(&self, to: &MultiRaft<S>, g: u64) -> bool {
        &&& to.groups@ == self.groups@.insert(g, to.groups@[g])
        &&& self.same_setup(to)
    }

    /// Whether nothing but the groups differs.
    pub open spec fn same_setup(&self, to: &MultiRaft<S>) -> bool {
        &&& to.node_id == self.node_id
        &&& to.routing == self.routing
        &&& to.election_timeout_min == self.election_timeout_min
        &&& to.election_timeout_max == self.election_timeout_max
        &&& to.heartbeat_interval == self.heartbeat_interval
    }

    /// No groups yet, with the default timeouts.
    pub fn new(node_id: u64, routing: RoutingTable) -> (r: MultiRaft<S>)
        ensures
            r.node_id == node_id,
            r.routing == routing,
            r.groups@ == Map::<u64, RaftNode<S>>::empty(),
            r.election_timeout_min.nanos == 2_000_000_000,
            r.election_timeout_max.nanos == 5_000_000_000,
            r.heartbeat_interval.nanos == 50_000_000,
            routing@.owners.len() <= u32::MAX ==> r.wf(),
    {
        MultiRaft {
            node_id,
            groups: HashMap::new(),
            routing,
            election_timeout_min: Duration::from_secs(2),
            election_timeout_max: Duration::from_secs(5),
            heartbeat_interval: Duration::from_millis(50),
        }
    }

    /// With the range of election timeouts that groups mounted from now on get.
    pub fn with_election_timeout(self, min: Duration, max: Duration) -> (r: MultiRaft<S>)
        ensures
            r == (MultiRaft { election_timeout_min: min, election_timeout_max: max, ..self }),
    {
        let mut r = self;
        r.election_timeout_min = min;
        r.election_timeout_max = max;
        r
    }

    /// With the heartbeat interval that groups mounted from now on get.
    pub fn with_heartbeat_interval(self, interval: Duration) -> (r: MultiRaft<S>)
        ensures
            r == (MultiRaft { heartbeat_interval: interval, ..self }),
    {
        let mut r = self;
        r.heartbeat_interval = interval;
        r
    }

    /// The configuration of a group mounted here.
    pub open spec fn group_config(
        &self,
        group_id: u64,
        peers: Seq<u64>,
        learners: Seq<u64>,
        as_learner: bool,
    ) -> ConfigView {
        ConfigView {
            node_id: self.node_id,
            group_id,
            peers,
            learners,
            starts_as_learner: as_learner,
            election_timeout_min: self.election_timeout_min.nanos,
            election_timeout_max: self.election_timeout_max.nanos,
            heartbeat_interval: self.heartbeat_interval.nanos,
        }
    }

    /// Whether `to` is this node with the group mounted over `storage`.
    pub open spec fn mounted(
        &self,
        to: &MultiRaft<S>,
        config: ConfigView,
        storage: S,
        now: u64,
    ) -> bool {
        &&& self.same_but(to, config.group_id)
        &&& to.groups@[config.group_id]@ == NodeView::booting(
            config,
            storage.stored(),
            now,
        ).restored(now)
        &&& to.groups@[config.group_id].log.storage == storage
    }

    /// Whether what `storage` holds can be taken up by a group.
    pub open spec fn restorable(storage: S) -> bool {
        let st = storage.stored();
        log::follows(st.snapshot_index, st.entries_after(st.snapshot_index))
    }

    /// Whether `e` says why the group could not be mounted over `storage`.
    pub open spec fn mount_failed(group_id: u64, storage: S, e: ClusterError) -> bool {
        let st = storage.stored();
        e matches ClusterError::Transport { detail } && exists|cause: RaftError|
            detail@ == #[trigger] restore_failure(group_id, cause) && (storage.reliable()
                ==> log::is_gap_error(
                cause,
                st.snapshot_index,
                st.entries_after(st.snapshot_index),
            ))
    }

    /// Mounts a group in which this node votes. `peers` are the other voters.
    pub fn add_group(
        &mut self,
        group_id: u64,
        peers: Vec<u64>,
        storage: S,
        now: Instant,
    ) -> (r: Result<(), ClusterError>)
        requires
            old(self).wf(),
            peers@.len() < usize::MAX,
        ensures
            final(self).wf(),
            r is Ok ==> old(self).mounted(
                final(self),
                old(self).group_config(group_id, peers@, Seq::empty(), false),
                storage,
                now.nanos,
            ),
            r is Err ==> *final(self) == *old(self),
            r matches Err(e) ==> Self::mount_failed(group_id, storage, e),
            storage.reliable() ==> (r is Ok <==> Self::restorable(storage)),
    {
        let none: Vec<u64> = Vec::new();
        assert(none@ =~= Seq::<u64>::empty());
        self.add_group_inner(group_id, peers, none, false, storage, now)
    }

    /// Mounts a group in which this node only learns, until it is promoted.
    /// `voters` and `learners` are the other members.
    pub fn add_group_as_learner(
        &mut self,
        group_id: u64,
        voters: Vec<u64>,
        learners: Vec<u64>,
        storage: S,
        now: Instant,
    ) -> (r: Result<(), ClusterError>)
        requires
            old(self).wf(),
            voters@.len() < usize::MAX,
        ensures
            final(self).wf(),
            r is Ok ==> old(self).mounted(
                final(self),
                old(self).group_config(group_id, voters@, learners@, true),
                storage,
                now.nanos,
            ),
            r is Err ==> *final(self) == *old(self),
            r matches Err(e) ==> Self::mount_failed(group_id, storage, e),
            storage.reliable() ==> (r is Ok <==> Self::restorable(storage)),
    {
        self.add_group_inner(group_id, voters, learners, true, storage, now)
    }

    fn add_group_inner(
        &mut self,
        group_id: u64,
        peers: Vec<u64>,
        learners: Vec<u64>,
        starts_as_learner: bool,
        storage: S,
        now: Instant,
    ) -> (r: Result<(), ClusterError>)
        requires
            old(self).wf(),
            peers@.len() < usize::MAX,
        ensures
            final(self).wf(),
            r is Ok ==> old(self).mounted(
                final(self),
                old(self).group_config(group_id, peers@, learners@, starts_as_learner),
                storage,
                now.nanos,
            ),
            r is Err ==> *final(self) == *old(self),
            r matches Err(e) ==> Self::mount_failed(group_id, storage, e),
            storage.reliable() ==> (r is Ok <==> Self::restorable(storage)),
    {
        let config = RaftConfig {
            node_id: self.node_id,
            group_id,
            peers,
            learners,
            starts_as_learner,
            election_timeout_min: self.election_timeout_min,
            election_timeout_max: self.election_timeout_max,
            heartbeat_interval: self.heartbeat_interval,
        };
        let mut node = RaftNode::new(config, storage, now);
        match node.restore(now) {
            Ok(()) => {},
            Err(e) => {
                let mut detail = text::numbered("failed to restore raft group ", group_id);
                detail.append(": ");
                detail.append(e.message().as_str());
                assert(detail@ == restore_failure(group_id, e));
                return Err(ClusterError::Transport { detail });
            },
        }
        self.groups.insert(group_id, node);
        Ok(())
    }

    /// Lets time pass for every group, in ascending order of their ids, and
    /// gathers their output. A group whose hard state cannot be written ends
    /// the round; the groups behind it are not reached.
    pub fn tick(&mut self, now: Instant) -> (r: Result<MultiRaftReady, ClusterError>)
        requires
            old(self).wf(),
            forall|g: u64| #[trigger]
                old(self).groups@.contains_key(g) ==> old(self).groups@[g]@.can_tick(now.nanos),
        ensures
            final(self).wf(),
            old(self).same_setup(final(self)),
            final(self).groups@.dom() == old(self).groups@.dom(),
            forall|g: u64| #[trigger]
                old(self).groups@.contains_key(g)
                    ==> final(self).groups@[g].log.storage.reliable() == old(self).groups@[g].log.storage.reliable(),
            match r {
                Ok(ready) => {
                    &&& forall|i: int, j: int|
                        0 <= i < j < ready.groups@.len() ==> ready.groups@[i].0
                            < ready.groups@[j].0
                    &&& forall|i: int|
                        0 <= i < ready.groups@.len() ==> old(self).groups@.contains_key(
                            (#[trigger] ready.groups@[i]).0,
                        ) && ready.groups@[i].1@ != ReadyView::empty()
                    &&& forall|g: u64| #[trigger]
                        old(self).groups@.contains_key(g) ==> group_ticked(
                            old(self).groups@[g],
                            now.nanos,
                            final(self).groups@[g]@,
                            ready_of(ready.groups@, g),
                        )
                },
                Err(e) => e is Raft && exists|f: u64| #[trigger]
                    old(self).groups@.contains_key(f) && group_stuck(
                        old(self).groups@[f],
                        now.nanos,
                        final(self).groups@[f]@,
                    ) && (forall|g: u64| #[trigger]
                        old(self).groups@.contains_key(g) && g < f ==> exists|out: ReadyView|
                            group_ticked(
                                old(self).groups@[g],
                                now.nanos,
                                final(self).groups@[g]@,
                                out,
                            )) && (forall|g: u64| #[trigger]
                        old(self).groups@.contains_key(g) && g > f ==> final(self).groups@[g]
                            == old(self).groups@[g]),
            },
    {
        let ids = keys::sorted_keys(&self.groups);
        let mut out: Vec<(u64, Ready)> = Vec::new();
        let mut i: usize = 0;
        while i < ids.len()
            invariant
                i <= ids@.len(),
                old(self).wf(),
                forall|g: u64| #[trigger]
                    old(self).groups@.contains_key(g) ==> old(self).groups@[g]@.can_tick(
                        now.nanos,
                    ),
                keys::lists(ids@, old(self).groups@.dom()),
                self.wf(),
                old(self).same_setup(self),
                self.groups@.dom() == old(self).groups@.dom(),
                forall|g: u64| #[trigger]
                    old(self).groups@.contains_key(g) ==> self.groups@[g].log.storage.reliable()
                        == old(self).groups@[g].log.storage.reliable(),
                forall|a: int, b: int| 0 <= a < b < out@.len() ==> out@[a].0 < out@[b].0,
                forall|a: int|
                    0 <= a < out@.len() ==> ids@.take(i as int).contains((#[trigger] out@[a]).0)
                        && out@[a].1@ != ReadyView::empty(),
                forall|k: int|
                    0 <= k < i ==> group_ticked(
                        old(self).groups@[#[trigger] ids@[k]],
                        now.nanos,
                        self.groups@[ids@[k]]@,
                        ready_of(out@, ids@[k]),
                    ),
                forall|k: int|
                    i <= k < ids@.len() ==> self.groups@[#[trigger] ids@[k]]
                        == old(self).groups@[ids@[k]],
            decreases ids@.len() - i,
        {
            let g: u64 = ids[i];
            let ghost before = *self;
            let ghost sent = out@;
            proof {
                assert(ids@.contains(g));
                assert(old(self).groups@.contains_key(g));
                assert forall|a: int| 0 <= a < sent.len() implies (#[trigger] sent[a]).0 < g by {
                    let k = ids@.take(i as int).index_of(sent[a].0);
                    assert(ids@.take(i as int).contains(sent[a].0));
                    assert(ids@[k] == sent[a].0);
                }
                lemma_ready_of_absent(sent, g);
            }
            match self.tick_mounted(g, now) {
                Ok(ready) => {
                    if !ready.is_empty() {
                        out.push((g, ready));
                        assert(out@.drop_last() =~= sent);
                    }
                    proof {
                        assert(self.groups@.dom() =~= before.groups@.dom());
                        assert forall|k: int| 0 <= k < i + 1 implies group_ticked(
                            old(self).groups@[#[trigger] ids@[k]],
                            now.nanos,
                            self.groups@[ids@[k]]@,
                            ready_of(out@, ids@[k]),
                        ) by {
                            if k < i {
                                assert(ids@[k] < g);
                            }
                        }
                        assert forall|a: int| 0 <= a < out@.len() implies ids@.take(
                            i + 1,
                        ).contains((#[trigger] out@[a]).0) && out@[a].1@ != ReadyView::empty() by {
                            if a < sent.len() {
                                assert(out@[a] == sent[a]);
                                let k = ids@.take(i as int).index_of(sent[a].0);
                                assert(ids@.take(i + 1)[k] == sent[a].0);
                            } else {
                                assert(ids@.take(i + 1)[i as int] == g);
                            }
                        }
                    }
                },
                Err(e) => {
                    proof {
                        assert(self.groups@.dom() =~= before.groups@.dom());
                        assert forall|h: u64| #[trigger]
                            old(self).groups@.contains_key(h) && h < g implies exists|o: ReadyView|
                            group_ticked(old(self).groups@[h], now.nanos, self.groups@[h]@, o) by {
                            assert(ids@.contains(h));
                            let k = ids@.index_of(h);
                            assert(ids@[k] == h);
                            if k > i {
                                assert(ids@[i as int] < ids@[k]);
                            }
                            assert(group_ticked(
                                old(self).groups@[ids@[k]],
                                now.nanos,
                                before.groups@[ids@[k]]@,
                                ready_of(out@, ids@[k]),
                            ));
                        }
                        assert forall|h: u64| #[trigger]
                            old(self).groups@.contains_key(h) && h > g implies self.groups@[h]
                            == old(self).groups@[h] by {
                            assert(ids@.contains(h));
                            let k = ids@.index_of(h);
                            assert(ids@[k] == h);
                            if k < i {
                                assert(ids@[k] < ids@[i as int]);
                            }
                        }
                    }
                    return Err(ClusterError::Raft(e));
                },
            }
            i = i + 1;
        }
        proof {
            assert forall|g: u64| #[trigger] old(self).groups@.contains_key(g) implies group_ticked(
                old(self).groups@[g],
                now.nanos,
                self.groups@[g]@,
                ready_of(out@, g),
            ) by {
                assert(ids@.contains(g));
                let k = ids@.index_of(g);
                assert(ids@[k] == g);
            }
            assert forall|a: int| 0 <= a < out@.len() implies old(self).groups@.contains_key(
                (#[trigger] out@[a]).0,
            ) by {
                assert(ids@.take(i as int) =~= ids@);
                assert(ids@.contains(out@[a].0));
            }
        }
        Ok(MultiRaftReady { groups: out })
    }

    /// Lets time pass for one mounted group.
    fn tick_mounted(&mut self, g: u64, now: Instant) -> (r: Result<Ready, RaftError>)
        requires
            old(self).wf(),
            old(self).groups@.contains_key(g),
            old(self).groups@[g]@.can_tick(now.nanos),
        ensures
            final(self).wf(),
            old(self).same_but(final(self), g),
            final(self).groups@[g].log.storage.reliable()
                == old(self).groups@[g].log.storage.reliable(),
            match r {
                Ok(ready) => group_ticked(
                    old(self).groups@[g],
                    now.nanos,
                    final(self).groups@[g]@,
                    ready@,
                ),
                Err(_) => group_stuck(old(self).groups@[g], now.nanos, final(self).groups@[g]@),
            },
    {
        match self.groups.remove(&g) {
            Some(mut node) => {
                let r = tick_group(&mut node, now);
                self.groups.insert(g, node);
                assert(self.groups@ =~= old(self).groups@.insert(g, node));
                r
            },
            None => Ok(Ready::default()),
        }
    }

    /// The routing table.
    pub fn routing(&self) -> (r: &RoutingTable)
        ensures
            *r == self.routing,
    {
        &self.routing
    }

    /// The routing table, for changes.
    pub fn routing_mut(&mut self) -> (r: &mut RoutingTable)
        ensures
            *r == old(self).routing,
            *final(self) == (MultiRaft { routing: *final(r), ..*old(self) }),
    {
        &mut self.routing
    }

    /// This node's id.
    pub fn node_id(&self) -> (r: u64)
        ensures
            r == self.node_id,
    {
        self.node_id
    }

    /// Number of groups mounted here.
    pub fn group_count(&self) -> (r: usize)
        ensures
            r == self.groups@.dom().len(),
    {
        self.groups.len()
    }

    /// The mounted groups, for bootstrap and tests.
    pub fn groups_mut(&mut self) -> (r: &mut HashMap<u64, RaftNode<S>>)
        ensures
            *r == old(self).groups,
            *final(self) == (MultiRaft { groups: *final(r), ..*old(self) }),
    {
        &mut self.groups
    }

    /// Whether `st` describes the group `g`.
    pub open spec fn describes(&self, g: u64, st: GroupStatus) -> bool {
        let n = self.groups@[g]@;
        &&& st.group_id == g
        &&& st.role@ == role_name(n.role)
        &&& st.leader_id == n.leader_id
        &&& st.term == n.hard_state.current_term
        &&& st.commit_index == n.commit_index
        &&& st.last_applied == n.last_applied
        &&& st.member_count == if self.routing@.groups.contains_key(g) {
            self.routing@.groups[g].members.len()
        } else {
            0
        }
        &&& st.vshard_count == self.routing@.shards_of(g).len()
    }

    /// The state of every group, in ascending order of their ids.
    pub fn group_statuses(&self) -> (r: Vec<GroupStatus>)
        requires
            self.wf(),
        ensures
            keys::lists(Seq::new(r@.len(), |i: int| r@[i].group_id), self.groups@.dom()),
            forall|i: int|
                0 <= i < r@.len() ==> self.describes((#[trigger] r@[i]).group_id, r@[i]),
    {
        let ids = keys::sorted_keys(&self.groups);
        let mut r: Vec<GroupStatus> = Vec::new();
        let mut i: usize = 0;
        while i < ids.len()
            invariant
                i <= ids@.len(),
                self.wf(),
                keys::lists(ids@, self.groups@.dom()),
                r@.len() == i,
                forall|k: int| 0 <= k < i ==> (#[trigger] r@[k]).group_id == ids@[k],
                forall|k: int|
                    0 <= k < i ==> self.describes((#[trigger] r@[k]).group_id, r@[k]),
            decreases ids@.len() - i,
        {
            let g: u64 = ids[i];
            assert(ids@.contains(g));
            assert(self.groups@.contains_key(g));
            match self.groups.get(&g) {
                Some(node) => {
                    let vshard_count: usize = self.routing.vshards_for_group(g).len();
                    let member_count: usize = match self.routing.group_info(g) {
                        Some(info) => info.members.len(),
                        None => 0,
                    };
                    r.push(
                        GroupStatus {
                            group_id: g,
                            role: role_text(node.role()),
                            leader_id: node.leader_id(),
                            term: node.current_term(),
                            commit_index: node.commit_index(),
                            last_applied: node.last_applied(),
                            member_count,
                            vshard_count,
                        },
                    );
                },
                None => {},
            }
            i = i + 1;
        }
        assert(Seq::new(r@.len(), |i: int| r@[i].group_id) =~= ids@);
        r
    }

    /// The leader of the group that owns a shard, as far as it is known here.
    pub open spec fn leader_known(&self, vshard_id: u32) -> Result<Option<u64>, ClusterError> {
        match self.routing@.owner(vshard_id) {
            None => Err::<Option<u64>, ClusterError>(
                (ClusterError::VShardNotMapped { vshard_id }),
            ),
            Some(g) => if self.groups@.contains_key(g) {
                Ok(self.groups@[g]@.leader_hint())
            } else {
                Err((ClusterError::GroupNotFound { group_id: g }))
            },
        }
    }

    /// The leader of the group that owns a shard, as far as it is known here.
    pub fn leader_for_vshard(&self, vshard_id: u32) -> (r: Result<Option<u64>, ClusterError>)
        ensures
            r == self.leader_known(vshard_id),
    {
        let group_id: u64 = match self.routing.group_for_vshard(vshard_id) {
            Ok(g) => g,
            Err(e) => return Err(e),
        };
        match self.groups.get(&group_id) {
            Some(node) => {
                let lid: u64 = node.leader_id();
                if lid == 0 {
                    Ok(None)
                } else {
                    Ok(Some(lid))
                }
            },
            None => Err(ClusterError::GroupNotFound { group_id }),
        }
    }

    /// How a proposal for a shard is answered and what it leaves behind.
    pub open spec fn proposed_for(
        &self,
        to: &MultiRaft<S>,
        vshard_id: u32,
        data: Seq<u8>,
        r: Result<(u64, u64), ClusterError>,
    ) -> bool {
        match self.routing@.owner(vshard_id) {
            None => r == Err::<(u64, u64), ClusterError>(
                (ClusterError::VShardNotMapped { vshard_id }),
            ) && *to == *self,
            Some(g) => match r {
                Ok(p) => p.0 == g && self.proposed(to, g, data, Ok(p.1)),
                Err(e) => self.proposed(to, g, data, Err(e)),
            },
        }
    }

    /// Proposes to the group that owns a shard. Returns the group and the
    /// index in its log.
    pub fn propose(
        &mut self,
        vshard_id: u32,
        data: Vec<u8>,
    ) -> (r: Result<(u64, u64), ClusterError>)
        requires
            old(self).wf(),
            old(self).routing@.owner(vshard_id) matches Some(g) ==> old(self).can_propose(g),
        ensures
            final(self).wf(),
            old(self).proposed_for(final(self), vshard_id, data@, r),
    {
        let group_id: u64 = match self.routing.group_for_vshard(vshard_id) {
            Ok(g) => g,
            Err(e) => return Err(e),
        };
        match self.propose_to_group(group_id, data) {
            Ok(i) => Ok((group_id, i)),
            Err(e) => Err(e),
        }
    }

    /// Whether the log of group `g` has room for another entry, if the node leads
    /// the group.
    pub open spec fn can_propose(&self, g: u64) -> bool {
        self.groups@.contains_key(g) && self.groups@[g]@.role == NodeRole::Leader
            ==> self.groups@[g]@.log.last_index() < u64::MAX
    }

    /// How a proposal to group `g` is answered and what it leaves behind.
    pub open spec fn proposed(
        &self,
        to: &MultiRaft<S>,
        g: u64,
        data: Seq<u8>,
        r: Result<u64, ClusterError>,
    ) -> bool {
        if !self.groups@.contains_key(g) {
            r == Err::<u64, ClusterError>((ClusterError::GroupNotFound { group_id: g })) && *to
                == *self
        } else {
            let from = self.groups@[g];
            &&& self.same_but(to, g)
            &&& match r {
                Ok(i) => {
                    &&& from@.role == NodeRole::Leader
                    &&& i == from@.log.last_index() + 1
                    &&& to.groups@[g]@ == from@.proposed(data)
                },
                Err(e) => {
                    &&& e is Raft
                    &&& to.groups@[g]@ == from@
                    &&& from@.role != NodeRole::Leader ==> e->Raft_0 == (RaftError::NotLeader {
                        leader_hint: from@.leader_hint(),
                    })
                    &&& from@.role == NodeRole::Leader ==> !from.log.storage.reliable()
                },
            }
        }
    }

    /// Proposes to a group, such as the metadata group, that need not own a
    /// shard. Returns the index in its log.
    pub fn propose_to_group(
        &mut self,
        group_id: u64,
        data: Vec<u8>,
    ) -> (r: Result<u64, ClusterError>)
        requires
            old(self).wf(),
            old(self).can_propose(group_id),
        ensures
            final(self).wf(),
            old(self).proposed(final(self), group_id, data@, r),
    {
        if !self.groups.contains_key(&group_id) {
            return Err(ClusterError::GroupNotFound { group_id });
        }
        match self.groups.remove(&group_id) {
            Some(mut node) => {
                let r = node.propose(data);
                self.groups.insert(group_id, node);
                assert(self.groups@ =~= old(self).groups@.insert(group_id, node));
                match r {
                    Ok(i) => Ok(i),
                    Err(e) => Err(ClusterError::Raft(e)),
                }
            },
            None => Err(ClusterError::GroupNotFound { group_id }),
        }
    }
}

/// A group that is not listed has no output.
proof fn lemma_ready_of_absent(s: Seq<(u64, Ready)>, g: u64)
    requires
        forall|i: int| 0 <= i < s.len() ==> (#[trigger] s[i]).0 != g,
    ensures
        ready_of(s, g) == ReadyView::empty(),
    decreases s.len(),
{
    if s.len() > 0 {
        assert(s[s.len() - 1].0 != g);
        let init = s.drop_last();
        assert forall|i: int| 0 <= i < init.len() implies (#[trigger] init[i]).0 != g by {
            assert(init[i] == s[i]);
        }
        lemma_ready_of_absent(init, g);
    }
}

/// Where a group's storage is kept, below the data directory.
pub fn storage_file(group_id: u64) -> (r: String)
    ensures
        r@ == "raft/group-"@ + text::decimal(group_id as int) + ".redb"@,
{
    let mut s = text::numbered("raft/group-", group_id);
    s.append(".redb");
    s
}

/// The error for a group whose storage cannot be opened, for that reason.
pub fn storage_unavailable(group_id: u64, cause: &str) -> (r: ClusterError)
    ensures
        r matches ClusterError::Transport { detail } && detail@
            == "failed to open raft storage for group "@ + text::decimal(group_id as int) + ": "@
            + cause@,
{
    let mut detail = text::numbered("failed to open raft storage for group ", group_id);
    detail.append(": ");
    detail.append(cause);
    ClusterError::Transport { detail }
}

/// The text of the error for a group that cannot be restored.
pub open spec fn restore_failure(group_id: u64, cause: RaftError) -> Seq<char> {
    "failed to restore raft group "@ + text::decimal(group_id as int) + ": "@ + cause.says()
}

} // verus!
