//! What the start of a cluster and the waits in it can be relied on for.

use vstd::prelude::*;

use crate::cluster::convergence;
use crate::cluster::convergence::{
    ClusterSight, DdlAction, DdlRun, NodeApplied, StartupAction, StartupEvent, StartupRun,
    StartupStage, WaitStep,
};
use crate::cluster::routing::RoutingView;
use crate::time::{Duration, Instant};

verus! {

/// A leader is agreed on exactly if there is one that every node sees, and there
/// are nodes.
pub proof fn law_agreed_leader_is_seen_by_all(s: Seq<u64>)
    ensures
        convergence::agreed_leader(s) <==> s.len() > 0 && exists|l: u64|
            #![trigger s.contains(l)]
            l != 0 && s.contains(l) && forall|i: int| 0 <= i < s.len() ==> s[i] == l,
{
    if convergence::agreed_leader(s) {
        assert(s.contains(s[0]));
        assert forall|i: int| 0 <= i < s.len() implies #[trigger] s[i] == s[0] by {}
    }
}

/// The leader that a node sees for a group is the one of its first entry for
/// the group.
pub proof fn law_first_entry_counts(node: Seq<(u64, u64)>, group: u64, i: int)
    requires
        0 <= i < node.len(),
        node[i].0 == group,
        forall|k: int| 0 <= k < i ==> (#[trigger] node[k]).0 != group,
    ensures
        convergence::leader_seen(node, group) == Some(node[i].1),
        convergence::applied_of(node, group) == node[i].1,
    decreases i,
{
    if i > 0 {
        let rest = node.skip(1);
        assert(node[0].0 != group);
        assert(rest[i - 1] == node[i]);
        assert forall|k: int| 0 <= k < i - 1 implies (#[trigger] rest[k]).0 != group by {
            assert(rest[k] == node[k + 1]);
        }
        law_first_entry_counts(rest, group, i - 1);
    }
}

/// A node that has no entry for a group sees no leader of it and has applied
/// nothing of it.
pub proof fn law_unknown_group_has_no_leader(node: Seq<(u64, u64)>, group: u64)
    requires
        forall|k: int| 0 <= k < node.len() ==> (#[trigger] node[k]).0 != group,
    ensures
        convergence::leader_seen(node, group) is None,
        convergence::applied_of(node, group) == 0,
    decreases node.len(),
{
    if node.len() > 0 {
        let rest = node.skip(1);
        assert(node[0].0 != group);
        assert forall|k: int| 0 <= k < rest.len() implies (#[trigger] rest[k]).0 != group by {
            assert(rest[k] == node[k + 1]);
        }
        law_unknown_group_has_no_leader(rest, group);
    }
}

/// Whatever leader a node sees for a group stands in one of its entries.
proof fn lemma_seen_leader_is_listed(node: Seq<(u64, u64)>, group: u64)
    requires
        convergence::leader_seen(node, group) is Some,
    ensures
        node.contains((group, convergence::leader_seen(node, group)->0)),
    decreases node.len(),
{
    if node.len() > 0 && node[0].0 != group {
        let rest = node.skip(1);
        lemma_seen_leader_is_listed(rest, group);
        let e = (group, convergence::leader_seen(node, group)->0);
        let i = rest.index_of(e);
        assert(node[i + 1] == e);
    } else if node.len() > 0 {
        assert(node[0] == (group, convergence::leader_seen(node, group)->0));
    }
}

/// Where every group counts as led, a group that one node knows is known to all,
/// with the same leader, and that is a node.
pub proof fn law_led_groups_are_led_on_every_node(
    nodes: Seq<Vec<(u64, u64)>>,
    n: int,
    m: int,
    i: int,
)
    requires
        convergence::groups_led(nodes),
        0 <= n < nodes.len(),
        0 <= m < nodes.len(),
        0 <= i < nodes[n]@.len(),
        forall|k: int| 0 <= k < i ==> (#[trigger] nodes[n]@[k]).0 != nodes[n]@[i].0,
    ensures
        nodes[n]@[i].1 != 0,
        nodes[m]@.contains(nodes[n]@[i]),
{
    let g = nodes[n]@[i].0;
    assert(convergence::group_known(nodes, g));
    law_first_entry_counts(nodes[n]@, g, i);
    lemma_seen_leader_is_listed(nodes[m]@, g);
}

/// Where no node lists a group twice, every group counts as led as soon as all
/// nodes list the same groups with the same leaders, at least one, and none
/// without a leader.
pub proof fn law_same_lists_are_led(nodes: Seq<Vec<(u64, u64)>>)
    requires
        nodes.len() > 0,
        forall|n: int| 0 <= n < nodes.len() ==> (#[trigger] nodes[n])@.len() > 0,
        forall|n: int, i: int, j: int|
            0 <= n < nodes.len() && 0 <= i < j < nodes[n]@.len() ==> (
            #[trigger] nodes[n]@[i]).0 != (#[trigger] nodes[n]@[j]).0,
        forall|n: int, i: int|
            0 <= n < nodes.len() && 0 <= i < nodes[n]@.len() ==> (#[trigger] nodes[n]@[i]).1 != 0,
        forall|n: int, m: int, e: (u64, u64)|
            0 <= n < nodes.len() && 0 <= m < nodes.len() && #[trigger] nodes[n]@.contains(e)
                ==> #[trigger] nodes[m]@.contains(e),
    ensures
        convergence::groups_led(nodes),
{
    assert forall|g: u64| #[trigger] convergence::group_known(nodes, g) implies
        convergence::group_led(nodes, g) by {
        let (a, i) = choose|a: int, i: int|
            0 <= a < nodes.len() && 0 <= i < nodes[a]@.len() && (#[trigger] nodes[a]@[i]).0 == g;
        let e = nodes[a]@[i];
        assert(nodes[a]@.contains(e));
        assert forall|n: int| 0 <= n < nodes.len() implies convergence::leader_seen(
            (#[trigger] nodes[n])@,
            g,
        ) == Some(e.1) by {
            assert(nodes[n]@.contains(e));
            let k = nodes[n]@.index_of(e);
            assert(nodes[n]@[k] == e);
            law_first_entry_counts(nodes[n]@, g, k);
        }
        assert(convergence::leader_seen(nodes[0]@, g) == Some(e.1));
        assert(nodes[a]@[i].1 != 0);
    }
}

/// Groups do not count as led where there is no node, or a node that knows no
/// group.
pub proof fn law_node_without_groups_is_not_led(nodes: Seq<Vec<(u64, u64)>>, n: int)
    ensures
        nodes.len() == 0 ==> !convergence::groups_led(nodes),
        0 <= n < nodes.len() && nodes[n]@.len() == 0 ==> !convergence::groups_led(nodes),
{
}

/// A node is to hold the groups that list it, as a member or as a learner.
pub proof fn law_listed_nodes_hold_a_group(routing: RoutingView, group: u64, node: u64)
    ensures
        routing.groups.contains_key(group) && routing.groups[group].members.contains(node)
            ==> convergence::hosts(routing, group, node),
        routing.groups.contains_key(group) && routing.groups[group].learners.contains(node)
            ==> convergence::hosts(routing, group, node),
        !routing.groups.contains_key(group) ==> !convergence::hosts(routing, group, node),
        routing.groups.contains_key(group) && !routing.groups[group].members.contains(node)
            && !routing.groups[group].learners.contains(node) ==> !convergence::hosts(
            routing,
            group,
            node,
        ),
{
}

/// Once the cluster has converged, a node that is to hold a group has applied
/// it as far as every other node has; a node that lacks an entry that another
/// one has applied shows that it has not.
pub proof fn law_converged_nodes_have_applied_the_same(
    nodes: Seq<NodeApplied>,
    routing: RoutingView,
    n: int,
    m: int,
    i: int,
)
    requires
        0 <= n < nodes.len(),
        0 <= m < nodes.len(),
        0 <= i < nodes[m].applied@.len(),
        routing.groups.contains_key(nodes[m].applied@[i].0),
        routing.groups[nodes[m].applied@[i].0].members.contains(nodes[n].node_id)
            || routing.groups[nodes[m].applied@[i].0].learners.contains(nodes[n].node_id),
    ensures
        convergence::converged(nodes, routing) ==> convergence::applied_of(
            nodes[n].applied@,
            nodes[m].applied@[i].0,
        ) >= nodes[m].applied@[i].1,
{
}

/// Nodes that have all applied nothing, or that are to hold nothing, have
/// converged: only a node that is behind keeps a cluster from it.
pub proof fn law_only_a_node_behind_prevents_convergence(
    nodes: Seq<NodeApplied>,
    routing: RoutingView,
)
    requires
        !convergence::converged(nodes, routing),
    ensures
        exists|n: int, m: int, i: int|
            0 <= n < nodes.len() && 0 <= m < nodes.len() && 0 <= i < nodes[m].applied@.len()
                && convergence::hosts(
                routing,
                (#[trigger] nodes[m].applied@[i]).0,
                (#[trigger] nodes[n]).node_id,
            ) && convergence::applied_of(nodes[n].applied@, nodes[m].applied@[i].0)
                < nodes[m].applied@[i].1,
{
}

/// A wait of the start is over exactly when what it waits for can be seen: the
/// first node sees itself, then a second one; every node sees three; every node
/// has left compatibility mode; all see one leader of the metadata group.
pub proof fn law_waits_end_when_seen(s: ClusterSight)
    ensures
        convergence::come_about(StartupStage::AwaitFirst, s) <==> s.topology_sizes@.len() > 0
            && s.topology_sizes@[0] > 0,
        convergence::come_about(StartupStage::AwaitSecond, s) <==> s.topology_sizes@.len() > 0
            && s.topology_sizes@[0] > 1,
        convergence::come_about(StartupStage::AwaitTopology, s) <==> !exists|i: int|
            0 <= i < s.topology_sizes@.len() && #[trigger] s.topology_sizes@[i] != 3,
        convergence::come_about(StartupStage::AwaitVersion, s) <==> !exists|i: int|
            0 <= i < s.upgraded@.len() && !#[trigger] s.upgraded@[i],
        convergence::come_about(StartupStage::AwaitMetadataLeader, s) ==>
            s.metadata_leaders@.len() > 0 && forall|i: int, j: int|
            0 <= i < s.metadata_leaders@.len() && 0 <= j < s.metadata_leaders@.len()
                ==> s.metadata_leaders@[i] != 0 && s.metadata_leaders@[i]
                == s.metadata_leaders@[j],
        convergence::come_about(StartupStage::AwaitMetadataLeader, s)
            <==> convergence::agreed_leader(s.metadata_leaders@),
        convergence::come_about(StartupStage::AwaitGroupLeaders, s) <==> convergence::groups_led(
            s.group_leaders@,
        ),
{
}

/// Where a stage stands on the way of a start.
pub open spec fn place(stage: StartupStage) -> int {
    match stage {
        StartupStage::SpawnFirst => 0,
        StartupStage::AwaitFirst => 1,
        StartupStage::SpawnSecond => 2,
        StartupStage::AwaitSecond => 3,
        StartupStage::SpawnThird => 4,
        StartupStage::AwaitTopology => 5,
        StartupStage::AwaitVersion => 6,
        StartupStage::AwaitMetadataLeader => 7,
        StartupStage::AwaitGroupLeaders => 8,
        StartupStage::Up => 9,
        StartupStage::Failed => 10,
    }
}

/// A start goes its way one stage at a time. A node that was started, and a
/// wait that has come about, move it on, the latter even after the deadline;
/// only a node that could not be started and a wait past its deadline end it.
pub proof fn law_start_goes_one_stage_at_a_time(
    from: StartupRun,
    ev: StartupEvent,
    now: Instant,
    to: StartupRun,
    act: StartupAction,
)
    requires
        StartupRun::advanced(from, ev, now, to, act),
    ensures
        to.limit == from.limit,
        to.stage == from.stage || to.stage == StartupStage::Failed || place(to.stage) == place(
            from.stage,
        ) + 1,
        place(from.stage) % 2 == 0 && place(from.stage) < 5 && ev is Spawned ==> place(to.stage)
            == place(from.stage) + 1,
        ev matches StartupEvent::Seen { sight } ==> convergence::come_about(from.stage, sight)
            ==> place(to.stage) == place(from.stage) + 1,
        ev matches StartupEvent::Seen { sight } ==> !convergence::come_about(from.stage, sight)
            && now.nanos < from.deadline.nanos ==> to == from && !(act is Ready) && !(
        act is Fail),
        ev matches StartupEvent::Seen { sight } ==> (from.stage == StartupStage::AwaitFirst
            || from.stage == StartupStage::AwaitSecond || from.stage == StartupStage::AwaitTopology
            || from.stage == StartupStage::AwaitVersion || from.stage
            == StartupStage::AwaitMetadataLeader || from.stage == StartupStage::AwaitGroupLeaders)
            && !convergence::come_about(from.stage, sight) && now.nanos >= from.deadline.nanos
            ==> to.stage == StartupStage::Failed && act is Fail,
        ev matches StartupEvent::SpawnFailed { detail } ==> (from.stage
            == StartupStage::SpawnFirst || from.stage == StartupStage::SpawnSecond || from.stage
            == StartupStage::SpawnThird) ==> to.stage == StartupStage::Failed && act == (
        StartupAction::Fail { detail }),
        act is Ready <==> to.stage == StartupStage::Up && from.stage != StartupStage::Up,
        act is Fail <==> to.stage == StartupStage::Failed && from.stage != StartupStage::Failed,
{
}

/// The nodes are started as 1, 2 and 3, in this order, and all but the first
/// join through the first.
pub proof fn law_nodes_are_started_in_order(
    from: StartupRun,
    ev: StartupEvent,
    now: Instant,
    to: StartupRun,
    act: StartupAction,
)
    requires
        StartupRun::advanced(from, ev, now, to, act),
    ensures
        act matches StartupAction::Spawn { node_id, join_first } ==> {
            &&& place(to.stage) == 2 * (node_id - 1)
            &&& 1 <= node_id <= 3
            &&& join_first <==> node_id > 1
        },
        from.stage == StartupStage::SpawnFirst && ev is Begin ==> act is Spawn,
        to.stage != from.stage && place(to.stage) < 5 && place(to.stage) % 2 == 0
            ==> act is Spawn,
{
}

/// Every wait has a deadline of its own, set when it begins: the start's limit,
/// and ten seconds for the topology. Until then the nodes are looked at again
/// after 20 ms, or 50 ms for the topology; the first look comes at once.
pub proof fn law_waits_are_limited(
    from: StartupRun,
    ev: StartupEvent,
    now: Instant,
    to: StartupRun,
    act: StartupAction,
)
    requires
        StartupRun::advanced(from, ev, now, to, act),
    ensures
        to.stage != from.stage && to.stage == StartupStage::AwaitTopology && now.nanos
            + 10_000_000_000 <= u64::MAX ==> to.deadline.nanos == now.nanos + 10_000_000_000,
        to.stage != from.stage && to.stage != StartupStage::AwaitTopology && to.stage
            != StartupStage::Failed && now.nanos + from.limit.nanos <= u64::MAX
            ==> to.deadline.nanos == now.nanos + from.limit.nanos,
        act matches StartupAction::Look { after } ==> after.nanos == if to.stage != from.stage {
            0u64
        } else if from.stage == StartupStage::AwaitTopology {
            50_000_000
        } else {
            20_000_000
        },
        to.stage == from.stage && !(ev is Begin) ==> to.deadline == from.deadline,
{
}

/// A start that is given up says which wait took too long.
pub proof fn law_late_wait_is_named(
    from: StartupRun,
    sight: ClusterSight,
    now: Instant,
    to: StartupRun,
    act: StartupAction,
)
    requires
        StartupRun::advanced(from, StartupEvent::Seen { sight }, now, to, act),
        act is Fail,
    ensures
        ({
            let said = act->Fail_detail@;
            &&& from.stage == StartupStage::AwaitFirst ==> said
                == "node 1 failed to bootstrap within deadline"@
            &&& from.stage == StartupStage::AwaitSecond ==> said
                == "node 2 failed to join within deadline"@
            &&& from.stage == StartupStage::AwaitTopology ==> said
                == "all 3 nodes report topology_size == 3"@
            &&& from.stage == StartupStage::AwaitVersion ==> said
                == "all 3 nodes exit rolling-upgrade compat mode"@
            &&& from.stage == StartupStage::AwaitMetadataLeader ==> said
                == "metadata group has stable leader visible on every node"@
            &&& from.stage == StartupStage::AwaitGroupLeaders ==> said
                == "every Raft group has a stable leader visible on every node"@
        }),
{
}

/// A statement is tried on the nodes from the first to the last, one after the
/// other: a refusal passes it on to the next one, and behind the last there is a
/// pause. The node that is said to have taken it is the one that was tried.
pub proof fn law_statement_is_tried_on_every_node(
    from: DdlRun,
    refused: Option<String>,
    to: DdlRun,
    act: DdlAction,
)
    requires
        0 < from.next <= from.nodes,
        DdlRun::goes_on(from, refused, to, act),
    ensures
        refused is None ==> act == (DdlAction::Accepted { node: (from.next - 1) as usize }),
        refused is Some && from.next < from.nodes ==> act == (DdlAction::Try { node: from.next })
            && to.next == from.next + 1,
        refused is Some && from.next == from.nodes ==> act == (DdlAction::Sleep {
            after: Duration { nanos: 100_000_000 },
        }),
        refused matches Some(e) ==> to.last_error == e,
        to.nodes == from.nodes,
        to.deadline == from.deadline,
{
}

/// A round begins with the first node, and none begins at the deadline: then
/// whoever asked is told what the last node to refuse had said.
pub proof fn law_rounds_end_at_the_deadline(from: DdlRun, now: Instant, to: DdlRun, act: DdlAction)
    requires
        DdlRun::rounds(from, now, to, act),
    ensures
        now.nanos >= from.deadline.nanos <==> act is Fail,
        now.nanos < from.deadline.nanos && from.nodes > 0 ==> act == (DdlAction::Try { node: 0 })
            && to.next == 1,
        act matches DdlAction::Fail { detail } ==> from.last_error@.is_suffix_of(detail@),
        to.nodes == from.nodes,
        to.deadline == from.deadline,
        to.last_error == from.last_error,
{
    if now.nanos >= from.deadline.nanos {
        let d = act->Fail_detail@;
        let e = from.last_error@;
        assert(e =~= d.subrange((d.len() - e.len()) as int, d.len() as int));
    }
}

/// A wait goes on exactly until what it waits for has come about or its deadline
/// has, with 5 ms between two looks.
pub proof fn law_wait_ends_at_its_deadline(reached: bool, deadline: Instant, now: Instant)
    ensures
        reached ==> convergence::waited(reached, deadline, now) == WaitStep::Over,
        now.nanos >= deadline.nanos ==> convergence::waited(reached, deadline, now)
            == WaitStep::Over,
        !reached && now.nanos < deadline.nanos ==> convergence::waited(reached, deadline, now) == (
        WaitStep::Sleep { after: Duration { nanos: 5_000_000 } }),
{
}

/// One node that is behind the proposer keeps the metadata group from having
/// caught up, and nothing else does.
pub proof fn law_metadata_waits_for_the_slowest(applied: Seq<u64>, target: u64)
    ensures
        !convergence::caught_up_with(applied, target) <==> exists|i: int|
            0 <= i < applied.len() && #[trigger] applied[i] < target,
{
}

} // verus!
