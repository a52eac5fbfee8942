//! What a node with many groups, and the routing of shards to them, can be
//! relied on for.

use vstd::prelude::*;

use crate::cluster::error::ClusterError;
use crate::cluster::multi_raft;
use crate::cluster::multi_raft::{GroupStatus, MultiRaft};
use crate::cluster::routing;
use crate::cluster::routing::RoutingView;
use crate::cluster::rpc_dispatch;
use crate::raft::error::RaftError;
use crate::raft::log;
use crate::raft::message::EntryView;
use crate::raft::node::conduct;
use crate::raft::node::machine::{NodeView, RaftNode, Ready, ReadyView};
use crate::raft::state::NodeRole;
use crate::raft::storage::LogStorage;

verus! {

/// A proposal to a group that this node leads becomes the last entry of that
/// group's log, under the index that is given back; no other group is touched.
/// Where the node does not lead the group, the caller is told who does, as far
/// as it is known, and where the group is not here, that.
pub proof fn law_proposal_reaches_its_group<S: LogStorage>(
    from: MultiRaft<S>,
    to: MultiRaft<S>,
    g: u64,
    data: Seq<u8>,
    r: Result<u64, ClusterError>,
    other: u64,
)
    requires
        from.wf(),
        from.proposed(&to, g, data, r),
        from.groups@.contains_key(g) ==> from.groups@[g]@.log.last_index() < u64::MAX
            && from.groups@[g]@.commit_index <= from.groups@[g]@.log.last_index()
            && from.groups@[g]@.ready_commit_index <= from.groups@[g]@.commit_index,
        other != g,
    ensures
        !from.groups@.contains_key(g) ==> r == Err::<u64, ClusterError>(
            (ClusterError::GroupNotFound { group_id: g }),
        ) && to == from,
        from.groups@.contains_key(g) && from.groups@[g]@.role == NodeRole::Leader
            && from.groups@[g].log.storage.reliable() ==> r is Ok,
        from.groups@.contains_key(g) && from.groups@[g]@.role != NodeRole::Leader ==> r == Err::<
            u64,
            ClusterError,
        >(
            ClusterError::Raft(
                (RaftError::NotLeader {
                    leader_hint: if from.groups@[g]@.leader_id == 0 {
                        None
                    } else {
                        Some(from.groups@[g]@.leader_id)
                    },
                }),
            ),
        ),
        r matches Ok(i) ==> to.groups@[g]@.log.entries == from.groups@[g]@.log.entries.push(
            EntryView { term: from.groups@[g]@.hard_state.current_term, index: i, data },
        ) && i == from.groups@[g]@.log.last_index() + 1,
        r is Err && from.groups@.contains_key(g) ==> to.groups@[g]@ == from.groups@[g]@,
        to.groups@.contains_key(other) == from.groups@.contains_key(other),
        from.groups@.contains_key(other) ==> to.groups@[other] == from.groups@[other],
        to.routing == from.routing,
{
    if r is Ok {
        assert(from.groups@[g]@.wf());
        conduct::law_proposal_is_appended(from.groups@[g]@, data);
    }
}

/// What a tick puts out for a group is handed over once, and only after the term
/// and the vote in it were stored.
pub proof fn law_output_is_handed_over_once<S: LogStorage>(
    from: RaftNode<S>,
    now: u64,
    to: NodeView,
    out: ReadyView,
)
    requires
        multi_raft::group_ticked(from, now, to, out),
    ensures
        to.ready == ReadyView::empty(),
        out.hard_state is Some ==> to.stored.hard_state == out.hard_state->0,
        from.log.storage.reliable() ==> {
            let t = from@.ticked(now, true);
            &&& out == t.ready
            &&& to.role == t.role
            &&& to.hard_state == t.hard_state
            &&& to.log == t.log
            &&& to.commit_index == t.commit_index
            &&& to.leader == t.leader
        },
{
    reveal(multi_raft::group_ticked);
}

/// A group whose term and vote could not be stored keeps its output.
pub proof fn law_stuck_group_keeps_its_output<S: LogStorage>(
    from: RaftNode<S>,
    now: u64,
    to: NodeView,
)
    requires
        multi_raft::group_stuck(from, now, to),
    ensures
        !from.log.storage.reliable(),
        to.ready.hard_state is Some,
        to.ready == from@.ticked(now, true).ready || to.ready == from@.ticked(now, false).ready,
{
    reveal(multi_raft::group_stuck);
}

/// A group that answers has stored the term and the vote that it answers under;
/// one that could not says so, and has answered nothing.
pub proof fn law_answer_comes_after_storing(mid: NodeView, reliable: bool, ok: bool, to: NodeView)
    requires
        rpc_dispatch::written(mid, reliable, ok, to),
    ensures
        ok && mid.ready.hard_state is Some ==> to.stored.hard_state == mid.ready.hard_state->0,
        ok && mid.ready.hard_state is None ==> to == mid,
        !ok ==> !reliable && to == mid,
        reliable ==> ok,
        to.log == mid.log && to.hard_state == mid.hard_state && to.role == mid.role,
{
    if ok && mid.ready.hard_state is None {
        assert(mid.saved() =~= mid);
    }
}

/// A group that is mounted starts with what its storage holds, as a follower or
/// learner that knows no leader, under this node's own id and timeouts.
pub proof fn law_mounted_group_starts_from_storage<S: LogStorage>(
    from: MultiRaft<S>,
    to: MultiRaft<S>,
    group_id: u64,
    peers: Seq<u64>,
    learners: Seq<u64>,
    as_learner: bool,
    storage: S,
    now: u64,
    other: u64,
)
    requires
        from.mounted(
            &to,
            from.group_config(group_id, peers, learners, as_learner),
            storage,
            now,
        ),
        other != group_id,
    ensures
        ({
            let n = to.groups@[group_id]@;
            &&& to.groups@.contains_key(group_id)
            &&& n.config.node_id == from.node_id
            &&& n.config.group_id == group_id
            &&& n.config.peers == peers
            &&& n.config.learners == learners
            &&& n.config.election_timeout_min == from.election_timeout_min.nanos
            &&& n.config.election_timeout_max == from.election_timeout_max.nanos
            &&& n.config.heartbeat_interval == from.heartbeat_interval.nanos
            &&& n.role == if as_learner {
                NodeRole::Learner
            } else {
                NodeRole::Follower
            }
            &&& n.hard_state == storage.stored().hard_state
            &&& n.log.snapshot_index == storage.stored().snapshot_index
            &&& n.log.snapshot_term == storage.stored().snapshot_term
            &&& n.log.entries == storage.stored().entries.filter(
                |e: EntryView| e.index > storage.stored().snapshot_index,
            )
            &&& n.commit_index == storage.stored().snapshot_index
            &&& n.last_applied == storage.stored().snapshot_index
            &&& n.leader_id == 0
            &&& n.leader is None
        }),
        to.groups@.contains_key(other) == from.groups@.contains_key(other),
        from.groups@.contains_key(other) ==> to.groups@[other] == from.groups@[other],
{
    let st = storage.stored();
    let f = |e: EntryView| e.index > st.snapshot_index;
    assert(to.groups@[group_id]@.log.entries == st.entries.filter(f));
}

/// A group's status is read off the group and the routing.
pub proof fn law_status_describes_its_group<S: LogStorage>(
    m: MultiRaft<S>,
    g: u64,
    st: GroupStatus,
)
    requires
        m.describes(g, st),
    ensures
        st.group_id == g,
        st.leader_id == m.groups@[g]@.leader_id,
        st.term == m.groups@[g]@.hard_state.current_term,
        st.commit_index == m.groups@[g]@.commit_index,
        st.last_applied == m.groups@[g]@.last_applied,
        m.groups@[g]@.role == NodeRole::Leader ==> st.role@ == "Leader"@,
        m.groups@[g]@.role == NodeRole::Follower ==> st.role@ == "Follower"@,
        m.groups@[g]@.role == NodeRole::Candidate ==> st.role@ == "Candidate"@,
        m.groups@[g]@.role == NodeRole::Learner ==> st.role@ == "Learner"@,
        m.routing@.groups.contains_key(g) ==> st.member_count
            == m.routing@.groups[g].members.len(),
        st.vshard_count == m.routing@.owners.filter(|o: u64| o == g).len(),
{
    lemma_shards_counted(m.routing@.owners, g, m.routing@.owners.len() as int);
    assert(m.routing@.owners.take(m.routing@.owners.len() as int) =~= m.routing@.owners);
}

/// A group owns as many shards as name it.
proof fn lemma_shards_counted(owners: Seq<u64>, g: u64, n: int)
    requires
        0 <= n <= owners.len(),
    ensures
        routing::shards_below(owners, g, n).len() == owners.take(n).filter(
            |o: u64| o == g,
        ).len(),
    decreases n,
{
    reveal(Seq::filter);
    if n > 0 {
        lemma_shards_counted(owners, g, n - 1);
        assert(owners.take(n).drop_last() =~= owners.take(n - 1));
    } else {
        assert(owners.take(0) =~= Seq::<u64>::empty());
    }
}

/// What the output says for a group is what is listed for it; a group that is
/// not listed has none.
pub proof fn law_listed_output_is_the_groups(s: Seq<(u64, Ready)>, i: int)
    requires
        0 <= i < s.len(),
        forall|k: int| 0 <= k < s.len() && k != i ==> (#[trigger] s[k]).0 != s[i].0,
    ensures
        multi_raft::ready_of(s, s[i].0) == s[i].1@,
    decreases s.len(),
{
    let init = s.drop_last();
    if i < init.len() {
        assert(s[s.len() - 1].0 != s[i].0);
        assert forall|k: int| 0 <= k < init.len() && k != i implies (#[trigger] init[k]).0
            != init[i].0 by {
            assert(init[k] == s[k]);
        }
        law_listed_output_is_the_groups(init, i);
    }
}

/// The number of committed entries adds up over the groups.
pub proof fn law_committed_entries_add_up(s: Seq<(u64, Ready)>, n: int)
    requires
        0 <= n < s.len(),
    ensures
        multi_raft::committed_in(s, 0) == 0,
        multi_raft::committed_in(s, n + 1) == multi_raft::committed_in(s, n)
            + s[n].1@.committed_entries.len(),
{
}

/// A shard has an owner exactly if it is listed, and a group's shards are those
/// that it owns, each once and in ascending order.
pub proof fn law_shards_of_a_group_are_those_it_owns(r: RoutingView, g: u64, v: u32)
    requires
        r.owners.len() <= u32::MAX,
    ensures
        r.owner(v) is Some <==> v < r.owners.len(),
        v < r.owners.len() ==> r.owner(v) == Some(r.owners[v as int]),
        r.shards_of(g).contains(v) <==> v < r.owners.len() && r.owners[v as int] == g,
        forall|i: int, j: int|
            0 <= i < j < r.shards_of(g).len() ==> r.shards_of(g)[i] < r.shards_of(g)[j],
{
    lemma_shards_below(r.owners, g, r.owners.len() as int, v);
}

/// The shards below `n` that a group owns.
proof fn lemma_shards_below(owners: Seq<u64>, g: u64, n: int, v: u32)
    requires
        0 <= n <= owners.len(),
        owners.len() <= u32::MAX,
    ensures
        routing::shards_below(owners, g, n).contains(v) <==> v < n && owners[v as int] == g,
        forall|i: int|
            0 <= i < routing::shards_below(owners, g, n).len() ==> #[trigger] routing::shards_below(
                owners,
                g,
                n,
            )[i] < n,
        forall|i: int, j: int|
            0 <= i < j < routing::shards_below(owners, g, n).len() ==> routing::shards_below(
                owners,
                g,
                n,
            )[i] < routing::shards_below(owners, g, n)[j],
    decreases n,
{
    if n > 0 {
        lemma_shards_below(owners, g, n - 1, v);
        let before = routing::shards_below(owners, g, n - 1);
        let now = routing::shards_below(owners, g, n);
        if owners[n - 1] == g {
            assert(now[before.len() as int] == (n - 1) as u32);
            if before.contains(v) {
                let i = before.index_of(v);
                assert(now[i] == v);
            }
            if now.contains(v) && v != (n - 1) as u32 {
                let i = now.index_of(v);
                assert(before[i] == v);
            }
        }
    }
}

/// Recording a leader changes the leader of that group alone.
pub proof fn law_recorded_leader_is_of_one_group(r: RoutingView, g: u64, leader: u64, other: u64)
    requires
        other != g,
    ensures
        ({
            let to = r.with_leader(g, leader);
            &&& to.owners == r.owners
            &&& to.groups.contains_key(g) == r.groups.contains_key(g)
            &&& r.groups.contains_key(g) ==> to.groups[g].leader == leader && to.groups[g].members
                == r.groups[g].members && to.groups[g].learners == r.groups[g].learners
            &&& to.groups.contains_key(other) == r.groups.contains_key(other)
            &&& r.groups.contains_key(other) ==> to.groups[other] == r.groups[other]
        }),
{
}

/// A uniform routing has 1024 shards, dealt out to the data groups from 1 on in
/// turn, so that neighbouring shards have neighbouring groups; the metadata
/// group, 0, owns none.
pub proof fn law_uniform_routing_deals_shards_out(
    data_groups: u64,
    nodes: Seq<u64>,
    replicas: int,
    v: u32,
)
    requires
        0 < data_groups < u64::MAX,
        v < 1024,
    ensures
        ({
            let r = RoutingView::uniform(data_groups, nodes, replicas);
            &&& r.owners.len() == 1024
            &&& 1 <= r.owners[v as int] <= data_groups
            &&& r.owners[0] == 1
            &&& v + 1 < 1024 && r.owners[v as int] < data_groups ==> r.owners[v + 1]
                == r.owners[v as int] + 1
            &&& v + 1 < 1024 && r.owners[v as int] == data_groups ==> r.owners[v + 1] == 1
            &&& r.groups.contains_key(r.owners[v as int])
            &&& r.groups.contains_key(0)
            &&& forall|g: u64| #[trigger] r.groups.contains_key(g) <==> g <= data_groups
        }),
{
    let d = data_groups as int;
    let q = v as int / d;
    let m = v as int % d;
    vstd::arithmetic::div_mod::lemma_fundamental_div_mod(v as int, d);
    vstd::arithmetic::div_mod::lemma_mod_bound(v as int, d);
    vstd::arithmetic::div_mod::lemma_small_mod(0, d as nat);
    assert(q * d == d * q) by (nonlinear_arith);
    assert((q + 1) * d == q * d + d) by (nonlinear_arith);
    if m + 1 < d {
        vstd::arithmetic::div_mod::lemma_fundamental_div_mod_converse(v + 1, d, q, m + 1);
    } else {
        vstd::arithmetic::div_mod::lemma_fundamental_div_mod_converse(v + 1, d, q + 1, 0);
    }
}

/// A group of a uniform routing has as many members as asked for, or all nodes:
/// neighbours in the list of nodes, going round, from the node on that the
/// group's number points to. The first leads, and there are no learners.
pub proof fn law_uniform_groups_are_neighbours(
    data_groups: u64,
    nodes: Seq<u64>,
    replicas: int,
    g: u64,
    i: int,
)
    requires
        g <= data_groups,
        0 < replicas,
        nodes.len() > 0,
        0 <= i < replicas,
        i < nodes.len(),
    ensures
        ({
            let info = RoutingView::uniform(data_groups, nodes, replicas).groups[g];
            let first = g as int % (nodes.len() as int);
            &&& info.members.len() == if replicas < nodes.len() {
                replicas
            } else {
                nodes.len() as int
            }
            &&& info.members[0] == nodes[first]
            &&& info.leader == info.members[0]
            &&& first + i < nodes.len() ==> info.members[i] == nodes[first + i]
            &&& first + i >= nodes.len() ==> info.members[i] == nodes[first + i - nodes.len()]
            &&& info.learners.len() == 0
        }),
{
    let len = nodes.len() as int;
    let first = g as int % len;
    vstd::arithmetic::div_mod::lemma_mod_bound(g as int, len);
    vstd::arithmetic::div_mod::lemma_small_mod(first as nat, len as nat);
    if first + i < len {
        vstd::arithmetic::div_mod::lemma_small_mod((first + i) as nat, len as nat);
    } else {
        vstd::arithmetic::div_mod::lemma_small_mod((first + i - len) as nat, len as nat);
        vstd::arithmetic::div_mod::lemma_mod_sub_multiples_vanish(first + i, len);
    }
}

/// What is done to one group leaves the node's own settings as they are.
pub proof fn law_settings_stay<S: LogStorage>(from: MultiRaft<S>, to: MultiRaft<S>, g: u64)
    requires
        from.same_but(&to, g),
    ensures
        to.node_id == from.node_id,
        to.election_timeout_min == from.election_timeout_min,
        to.election_timeout_max == from.election_timeout_max,
        to.heartbeat_interval == from.heartbeat_interval,
        to.routing == from.routing,
        to.groups@.dom() == from.groups@.dom().insert(g),
{
}

/// A message for a group that is not here changes nothing, and its sender is
/// told.
pub proof fn law_unknown_group_is_reported<S: LogStorage, T>(
    from: MultiRaft<S>,
    to: MultiRaft<S>,
    g: u64,
    r: Result<T, ClusterError>,
)
    requires
        from.unmounted(&to, g, r),
    ensures
        to == from,
        r == Err::<T, ClusterError>((ClusterError::GroupNotFound { group_id: g })),
{
}

/// A group cannot be mounted over storage whose entries have a gap; with storage
/// that does not fail, the caller is told of the first entry that does not
/// follow the one before it.
pub proof fn law_gap_in_storage_is_reported<S: LogStorage>(
    g: u64,
    storage: S,
    e: ClusterError,
)
    requires
        MultiRaft::<S>::mount_failed(g, storage, e),
        storage.reliable(),
    ensures
        e is Transport,
        !MultiRaft::<S>::restorable(storage),
{
    let st = storage.stored();
    let es = st.entries_after(st.snapshot_index);
    let cause = choose|cause: RaftError|
        e->Transport_detail@ == #[trigger] multi_raft::restore_failure(g, cause) && (
        storage.reliable() ==> log::is_gap_error(cause, st.snapshot_index, es));
    let k = choose|k: int|
        0 <= k < es.len() && (#[trigger] es[k]).index != st.snapshot_index + 1 + k;
    assert(es[k].index != st.snapshot_index + 1 + k);
}

/// A proposal for a shard goes to the group that owns it, and is refused by the
/// shard's number where none does.
pub proof fn law_proposal_goes_to_the_owner<S: LogStorage>(
    from: MultiRaft<S>,
    to: MultiRaft<S>,
    vshard_id: u32,
    data: Seq<u8>,
    r: Result<(u64, u64), ClusterError>,
)
    requires
        from.proposed_for(&to, vshard_id, data, r),
    ensures
        vshard_id >= from.routing@.owners.len() ==> r == Err::<(u64, u64), ClusterError>(
            (ClusterError::VShardNotMapped { vshard_id }),
        ) && to == from,
        r matches Ok(p) ==> vshard_id < from.routing@.owners.len() && p.0
            == from.routing@.owners[vshard_id as int] && from.groups@.contains_key(p.0)
            && from.groups@[p.0]@.role == NodeRole::Leader && p.1
            == from.groups@[p.0]@.log.last_index() + 1,
        vshard_id < from.routing@.owners.len() ==> {
            let g = from.routing@.owners[vshard_id as int];
            &&& !from.groups@.contains_key(g) ==> r == Err::<(u64, u64), ClusterError>(
                (ClusterError::GroupNotFound { group_id: g }),
            )
            &&& from.groups@.contains_key(g) && from.groups@[g]@.role == NodeRole::Leader
                && from.groups@[g].log.storage.reliable() ==> r is Ok
        },
{
}

/// The leader of a shard is the one that the owning group knows of, if it knows
/// one.
pub proof fn law_leader_of_a_shard_is_its_groups<S: LogStorage>(m: MultiRaft<S>, vshard_id: u32)
    ensures
        vshard_id >= m.routing@.owners.len() ==> m.leader_known(vshard_id) == Err::<
            Option<u64>,
            ClusterError,
        >((ClusterError::VShardNotMapped { vshard_id })),
        vshard_id < m.routing@.owners.len() ==> {
            let g = m.routing@.owners[vshard_id as int];
            &&& !m.groups@.contains_key(g) ==> m.leader_known(vshard_id) == Err::<
                Option<u64>,
                ClusterError,
            >((ClusterError::GroupNotFound { group_id: g }))
            &&& m.groups@.contains_key(g) && m.groups@[g]@.leader_id != 0 ==> m.leader_known(
                vshard_id,
            ) == Ok::<Option<u64>, ClusterError>(Some(m.groups@[g]@.leader_id))
            &&& m.groups@.contains_key(g) && m.groups@[g]@.leader_id == 0 ==> m.leader_known(
                vshard_id,
            ) == Ok::<Option<u64>, ClusterError>(None)
        },
{
}

} // verus!
