//! What holds in every run of a group.

use vstd::prelude::*;

use crate::raft::node::machine::NodeView;
use crate::raft::safety::events;
use crate::raft::safety::group;
use crate::raft::safety::group::{Answer, Event, GroupView};
use crate::raft::safety::growth;
use crate::raft::safety::history;
use crate::raft::safety::history::History;
use crate::raft::safety::holds;
use crate::raft::state::NodeRole;

verus! {

/// A step keeps what holds of a group.
proof fn lemma_step(
    g: GroupView,
    to: GroupView,
    n: u64,
    ev: Event,
    mid: NodeView,
    answer: Answer,
    h: History,
) -> (h2: History)
    requires
        holds::holds(g, h),
        group::is_step(g, to, n, ev, mid, answer),
    ensures
        holds::holds(to, h2),
        h.grows_to(h2),
        mid.hard_state.current_term >= g.nodes[n].hard_state.current_term,
        !(ev is Restart) ==> mid.commit_index >= g.nodes[n].commit_index,
{
    let v = g.nodes[n];
    let ms = holds::members_of(g.nodes);
    let voters = g.voters;
    growth::lemma_grows_same(h);
    assert(v.stored.hard_state == v.hard_state);
    assert(events::stands_for(ms, h, voters, n, v));
    events::lemma_member(ms, h, voters, n);
    let h2 = match ev {
        Event::Tick { now } => {
            lemma_tick_rises(ms, h, voters, n, v, now);
            events::on_tick(ms, h, voters, n, v, now)
        },
        Event::Propose { data } => {
            lemma_spread_rises(v.appending(v.proposal(data)));
            events::on_propose(ms, h, voters, n, v, data)
        },
        Event::Append { req, now } => {
            assert(g.net.appends.contains((n, req)));
            events::on_append(ms, h, voters, n, v, req, now, mid, answer->resp)
        },
        Event::AppendReply { from, resp, now } => {
            assert(g.net.append_replies.contains((from, n, resp)));
            lemma_reply_rises(v, from, resp, now);
            events::on_append_reply(ms, h, voters, n, v, from, resp, now);
            h
        },
        Event::VoteRequest { ask, now } => {
            assert(g.net.vote_requests.contains((n, ask)));
            events::on_vote_request(ms, h, voters, n, v, ask, now)
        },
        Event::VoteReply { from, vote, now } => {
            assert(g.net.vote_replies.contains((from, n, vote)));
            lemma_lead_rises(v.with_vote(from), now);
            events::on_vote_reply(ms, h, voters, n, v, from, vote, now)
        },
        Event::Applied { index } => {
            assert(ms.insert(n, holds::member_of(mid)) =~= ms);
            h
        },
        Event::Restart { now } => {
            events::on_restart(ms, h, voters, n, v, now);
            h
        },
    };
    holds::lemma_step_holds(g, to, n, ev, mid, answer, h, h2);
    h2
}

/// Spreading an entry lowers neither term nor commit index.
proof fn lemma_spread_rises(v: NodeView)
    requires
        v.log.wf(),
        v.commit_index <= v.log.last_index(),
    ensures
        v.spreading().hard_state == v.hard_state,
        v.spreading().commit_index >= v.commit_index,
{
    match v.leader {
        Some(l) => {
            crate::raft::node::internal::lemma_sending_all_frame(v, l.peers);
        },
        None => {},
    }
    let r = v.replicating();
    events::lemma_emitting(NodeView { commit_index: v.log.last_index() as u64, ..r });
}

/// Becoming leader lowers neither term nor commit index.
proof fn lemma_lead_rises(v: NodeView, now: u64)
    requires
        v.log.wf(),
        v.log.last_index() < u64::MAX,
        v.commit_index <= v.log.last_index(),
    ensures
        v.leading(now, true).hard_state == v.hard_state,
        v.leading(now, true).commit_index >= v.commit_index,
{
    let c = v.crowned(now);
    let w = c.appending(c.noop());
    assert(w.log.wf()) by {
        assert forall|k: int| 0 <= k < w.log.entries.len() implies (
        #[trigger] w.log.entries[k]).index == w.log.snapshot_index + 1 + k by {
            if k < v.log.entries.len() {
                assert(w.log.entries[k] == v.log.entries[k]);
            }
        }
    }
    lemma_spread_rises(w);
}

/// An answer to an append request does not lower the commit index.
proof fn lemma_reply_rises(
    v: NodeView,
    from: u64,
    resp: crate::raft::message::AppendEntriesResponse,
    now: u64,
)
    requires
        v.log.wf(),
    ensures
        v.append_answered(from, resp, now).commit_index >= v.commit_index,
{
    if v.leader is Some {
        let w = v.acknowledged(from, resp.last_log_index);
        let i = w.best_commit(w.log.last_index());
        crate::raft::node::internal::lemma_best_commit(w, w.log.last_index());
        events::lemma_emitting(NodeView { commit_index: i as u64, ..w });
    }
}

/// Time lowers neither term nor commit index.
proof fn lemma_tick_rises(
    ms: history::Members,
    h: History,
    voters: Set<u64>,
    n: u64,
    v: NodeView,
    now: u64,
)
    requires
        events::stands_for(ms, h, voters, n, v),
        v.can_tick(now),
    ensures
        v.ticked(now, true).hard_state.current_term >= v.hard_state.current_term,
        v.ticked(now, true).commit_index >= v.commit_index,
{
    events::lemma_member(ms, h, voters, n);
    if v.election_due(now) {
        lemma_lead_rises(v.standing(now), now);
    } else {
        match v.leader {
            Some(l) => {
                crate::raft::node::internal::lemma_sending_all_frame(v, l.peers);
            },
            None => {},
        }
    }
}

/// In a run there is, for every state, a history by which the group holds, and
/// histories only grow.
proof fn lemma_run(run: Seq<GroupView>) -> (hs: Seq<History>)
    requires
        group::is_run(run),
    ensures
        hs.len() == run.len(),
        forall|i: int| 0 <= i < run.len() ==> holds::holds(#[trigger] run[i], hs[i]),
        forall|i: int, j: int|
            0 <= i <= j < run.len() ==> (#[trigger] hs[i]).grows_to(#[trigger] hs[j]),
        forall|i: int| 0 <= i < run.len() ==> (#[trigger] run[i]).voters == run[0].voters,
    decreases run.len(),
{
    let last = run.len() - 1;
    if last == 0 {
        holds::lemma_new_group_holds(run[0]);
        growth::lemma_grows_same(History::empty());
        seq![History::empty()]
    } else {
        let init = run.drop_last();
        assert forall|i: int| 0 < i < init.len() implies group::steps_to(
            init[i - 1],
            #[trigger] init[i],
        ) by {
            assert(init[i] == run[i]);
            assert(init[i - 1] == run[i - 1]);
        }
        let hs = lemma_run(init);
        let g = run[last - 1];
        let to = run[last];
        assert(init[last - 1] == g);
        assert(group::steps_to(run[last - 1], run[last]));
        let (n, ev, mid, answer) = choose|n: u64, ev: Event, mid: NodeView, answer: Answer|
            #[trigger]
            group::is_step(g, to, n, ev, mid, answer);
        let h2 = lemma_step(g, to, n, ev, mid, answer, hs[last - 1]);
        let all = hs.push(h2);
        assert forall|i: int, j: int| 0 <= i <= j < run.len() implies (
        #[trigger] all[i]).grows_to(#[trigger] all[j]) by {
            if j < last {
                assert(all[i] == hs[i] && all[j] == hs[j]);
            } else if i < last {
                assert(all[i] == hs[i]);
                assert(hs[i].grows_to(hs[last - 1]));
                growth::lemma_grows_through(hs[i], hs[last - 1], h2);
            } else {
                growth::lemma_grows_same(h2);
            }
        }
        assert forall|i: int| 0 <= i < run.len() implies holds::holds(#[trigger] run[i], all[i])
            && run[i].voters == run[0].voters by {
            if i < last {
                assert(init[i] == run[i]);
            }
            assert(init[last - 1].voters == init[0].voters);
        }
        all
    }
}

/// Election safety: no term has two leaders, at whatever times they lead.
pub proof fn law_election_safety(run: Seq<GroupView>, i: int, j: int, a: u64, b: u64)
    requires
        group::is_run(run),
        0 <= i <= j < run.len(),
        run[i].nodes.contains_key(a),
        run[j].nodes.contains_key(b),
        run[i].nodes[a].role == NodeRole::Leader,
        run[j].nodes[b].role == NodeRole::Leader,
        run[i].nodes[a].hard_state.current_term == run[j].nodes[b].hard_state.current_term,
    ensures
        a == b,
{
    let hs = lemma_run(run);
    assert(holds::holds(run[i], hs[i]) && holds::holds(run[j], hs[j]));
    events::lemma_member(holds::members_of(run[i].nodes), hs[i], run[i].voters, a);
    events::lemma_member(holds::members_of(run[j].nodes), hs[j], run[j].voters, b);
    assert(hs[i].grows_to(hs[j]));
    assert(hs[i].lead.contains_key(run[i].nodes[a].hard_state.current_term));
}

/// Log matching: two logs with an entry of the same term at the same index are
/// the same up to it.
pub proof fn law_log_matching(run: Seq<GroupView>, i: int, a: u64, b: u64, k: int)
    requires
        group::is_run(run),
        0 <= i < run.len(),
        run[i].nodes.contains_key(a),
        run[i].nodes.contains_key(b),
        0 < k <= run[i].nodes[a].log.last_index(),
        k <= run[i].nodes[b].log.last_index(),
        run[i].nodes[a].log.term_at(k) == run[i].nodes[b].log.term_at(k),
    ensures
        run[i].nodes[a].log.entries.take(k) == run[i].nodes[b].log.entries.take(k),
{
    let hs = lemma_run(run);
    let g = run[i];
    assert(holds::holds(g, hs[i]));
    let ms = holds::members_of(g.nodes);
    let x = g.nodes[a].log.entries;
    let y = g.nodes[b].log.entries;
    assert(holds::node_ok(g.nodes[a], a, g.voters));
    assert(holds::node_ok(g.nodes[b], b, g.voters));
    assert(ms[a].log[k - 1] == x[k - 1]);
    assert(ms[b].log[k - 1] == y[k - 1]);
    assert(history::known(hs[i], x, k - 1) && history::known(hs[i], y, k - 1)) by {
        reveal(history::sound);
    }
    growth::lemma_same_term(hs[i], x, y, k - 1);
    assert(x.take(k) =~= y.take(k));
}

/// What two nodes count as committed, at whatever times, is the same as far as
/// both go.
pub proof fn law_state_machine_safety(
    run: Seq<GroupView>,
    i: int,
    j: int,
    a: u64,
    b: u64,
    k: int,
)
    requires
        group::is_run(run),
        0 <= i <= j < run.len(),
        run[i].nodes.contains_key(a),
        run[j].nodes.contains_key(b),
        0 <= k <= run[i].nodes[a].commit_index,
        k <= run[j].nodes[b].commit_index,
    ensures
        run[i].nodes[a].log.entries.take(k) == run[j].nodes[b].log.entries.take(k),
{
    let hs = lemma_run(run);
    let x = run[i].nodes[a];
    let y = run[j].nodes[b];
    assert(holds::holds(run[i], hs[i]) && holds::holds(run[j], hs[j]));
    assert(hs[i].grows_to(hs[j]));
    assert(run[i].voters == run[j].voters);
    if k == 0 {
        assert(x.log.entries.take(0) =~= y.log.entries.take(0));
    } else {
        lemma_committed(run[i], hs[i], a);
        lemma_committed(run[j], hs[j], b);
        let voters = run[j].voters;
        events::lemma_settled_less(
            hs[i],
            voters,
            x.log.entries,
            x.commit_index as int,
            k,
            x.hard_state.current_term,
        );
        growth::lemma_settled_grows(
            hs[i],
            hs[j],
            voters,
            x.log.entries,
            x.log.entries,
            k,
            x.hard_state.current_term,
            x.hard_state.current_term,
        );
        reveal(history::sound);
        growth::lemma_settled_agree(
            holds::members_of(run[j].nodes),
            hs[j],
            voters,
            x.log.entries,
            k,
            x.hard_state.current_term,
            y.log.entries,
            y.commit_index as int,
            y.hard_state.current_term,
        );
        assert(x.log.entries.take(k) =~= y.log.entries.take(k));
    }
}

/// What a node counts as committed was chosen, and is in its log.
proof fn lemma_committed(g: GroupView, h: History, n: u64)
    requires
        holds::holds(g, h),
        g.nodes.contains_key(n),
    ensures
        history::settled(
            h,
            g.voters,
            g.nodes[n].log.entries,
            g.nodes[n].commit_index as int,
            g.nodes[n].hard_state.current_term,
        ),
        g.nodes[n].commit_index <= g.nodes[n].log.entries.len(),
{
    let ms = holds::members_of(g.nodes);
    assert(ms.contains_key(n));
    reveal(history::sound);
    assert(history::settled(h, g.voters, ms[n].log, ms[n].commit as int, ms[n].term));
}

/// Leader completeness: what a node counts as committed is in the log of every
/// leader of that term or a later one, from then on.
pub proof fn law_leader_completeness(run: Seq<GroupView>, i: int, j: int, a: u64, b: u64)
    requires
        group::is_run(run),
        0 <= i <= j < run.len(),
        run[i].nodes.contains_key(a),
        run[j].nodes.contains_key(b),
        run[j].nodes[b].role == NodeRole::Leader,
        run[j].nodes[b].hard_state.current_term >= run[i].nodes[a].hard_state.current_term,
    ensures
        run[i].nodes[a].commit_index <= run[j].nodes[b].log.last_index(),
        ({
            let k = run[i].nodes[a].commit_index as int;
            run[j].nodes[b].log.entries.take(k) == run[i].nodes[a].log.entries.take(k)
        }),
{
    let hs = lemma_run(run);
    let x = run[i].nodes[a];
    let y = run[j].nodes[b];
    assert(holds::holds(run[i], hs[i]) && holds::holds(run[j], hs[j]));
    assert(hs[i].grows_to(hs[j]));
    assert(run[i].voters == run[j].voters);
    let voters = run[j].voters;
    let k = x.commit_index as int;
    assert(holds::node_ok(y, b, voters));
    if k == 0 {
        assert(x.log.entries.take(0) =~= y.log.entries.take(0));
    } else {
        lemma_committed(run[i], hs[i], a);
        let h = hs[j];
        growth::lemma_settled_grows(
            hs[i],
            h,
            voters,
            x.log.entries,
            x.log.entries,
            k,
            x.hard_state.current_term,
            x.hard_state.current_term,
        );
        events::lemma_member(holds::members_of(run[j].nodes), h, voters, b);
        let u = y.hard_state.current_term;
        let (t, n) = choose|t: u64, n: int| #[trigger]
            history::chosen(h, voters, t, n) && t <= x.hard_state.current_term && k <= n
                && history::agree(x.log.entries, h.lead[t], k);
        reveal(history::sound);
        growth::lemma_chosen_kept(holds::members_of(run[j].nodes), h, voters, t, n, u);
        growth::lemma_agree_less(h.lead[t], h.lead[u], n, k);
        growth::lemma_agree_through(x.log.entries, h.lead[t], h.lead[u], k);
        assert(x.log.entries.take(k) =~= y.log.entries.take(k));
    }
}

/// What is put out as committed is committed, and what is committed is in the
/// log.
pub proof fn law_commit_within_log(run: Seq<GroupView>, i: int, n: u64)
    requires
        group::is_run(run),
        0 <= i < run.len(),
        run[i].nodes.contains_key(n),
    ensures
        run[i].nodes[n].ready_commit_index <= run[i].nodes[n].commit_index,
        run[i].nodes[n].commit_index <= run[i].nodes[n].log.last_index(),
{
    let hs = lemma_run(run);
    assert(holds::holds(run[i], hs[i]));
    assert(holds::node_ok(run[i].nodes[n], n, run[i].voters));
    lemma_committed(run[i], hs[i], n);
}

/// Between two states of a run a node's term does not fall, across restarts too,
/// and the vote that it gave in a term stays the same.
pub proof fn law_one_vote_per_term(run: Seq<GroupView>, i: int, j: int, n: u64)
    requires
        group::is_run(run),
        0 <= i <= j < run.len(),
        run[i].nodes.contains_key(n),
    ensures
        run[j].nodes.contains_key(n),
        run[i].nodes[n].hard_state.current_term <= run[j].nodes[n].hard_state.current_term,
        run[i].nodes[n].hard_state.current_term == run[j].nodes[n].hard_state.current_term
            && run[i].nodes[n].hard_state.voted_for != 0 ==> run[j].nodes[n].hard_state.voted_for
            == run[i].nodes[n].hard_state.voted_for,
{
    lemma_terms_rise(run, i, j, n);
    let hs = lemma_run(run);
    assert(holds::holds(run[i], hs[i]) && holds::holds(run[j], hs[j]));
    assert(hs[i].grows_to(hs[j]));
    let a = holds::members_of(run[i].nodes);
    let b = holds::members_of(run[j].nodes);
    reveal(history::sound);
    assert(a.contains_key(n) && b.contains_key(n));
    if a[n].voted_for != 0 && a[n].term == b[n].term {
        assert(hs[i].votes.contains_key((n, a[n].term)));
        assert(hs[j].votes.contains_key((n, b[n].term)));
    }
}

/// A node's term does not fall, and no node goes missing.
proof fn lemma_terms_rise(run: Seq<GroupView>, i: int, j: int, n: u64)
    requires
        group::is_run(run),
        0 <= i <= j < run.len(),
        run[i].nodes.contains_key(n),
    ensures
        run[j].nodes.contains_key(n),
        run[i].nodes[n].hard_state.current_term <= run[j].nodes[n].hard_state.current_term,
    decreases j - i,
{
    if i < j {
        lemma_terms_rise(run, i, j - 1, n);
        let hs = lemma_run(run);
        assert(holds::holds(run[j - 1], hs[j - 1]));
        assert(group::steps_to(run[j - 1], run[j]));
        let (p, ev, mid, answer) = choose|n: u64, ev: Event, mid: NodeView, answer: Answer|
            #[trigger]
            group::is_step(run[j - 1], run[j], n, ev, mid, answer);
        let h2 = lemma_step(run[j - 1], run[j], p, ev, mid, answer, hs[j - 1]);
    }
}

/// A node's commit index does not fall unless the node restarts.
pub proof fn law_commit_monotonic(
    run: Seq<GroupView>,
    i: int,
    n: u64,
    ev: Event,
    mid: NodeView,
    answer: Answer,
)
    requires
        group::is_run(run),
        0 < i < run.len(),
        group::is_step(run[i - 1], run[i], n, ev, mid, answer),
        !(ev is Restart),
    ensures
        forall|p: u64| #[trigger]
            run[i - 1].nodes.contains_key(p) ==> run[i - 1].nodes[p].commit_index
                <= run[i].nodes[p].commit_index,
{
    let hs = lemma_run(run);
    assert(holds::holds(run[i - 1], hs[i - 1]));
    let h2 = lemma_step(run[i - 1], run[i], n, ev, mid, answer, hs[i - 1]);
}

/// Whether no node counts more as applied than as committed.
pub open spec fn applied_within_commit(g: GroupView) -> bool {
    forall|n: u64| #[trigger]
        g.nodes.contains_key(n) ==> g.nodes[n].last_applied <= g.nodes[n].commit_index
}

/// Spreading an entry leaves the applied index as it is.
proof fn lemma_spread_applies_nothing(v: NodeView)
    ensures
        v.spreading().last_applied == v.last_applied,
{
    match v.leader {
        Some(l) => {
            crate::raft::node::internal::lemma_sending_all_frame(v, l.peers);
        },
        None => {},
    }
}

/// Where drivers report only committed entries as applied, no node ever counts
/// more as applied than as committed.
pub proof fn law_applied_within_commit(
    run: Seq<GroupView>,
    i: int,
    n: u64,
    ev: Event,
    mid: NodeView,
    answer: Answer,
)
    requires
        group::is_run(run),
        0 < i < run.len(),
        group::is_step(run[i - 1], run[i], n, ev, mid, answer),
        ev matches Event::Applied { index } ==> index <= run[i - 1].nodes[n].commit_index,
    ensures
        applied_within_commit(run[0]),
        applied_within_commit(run[i - 1]) ==> applied_within_commit(run[i]),
{
    assert(applied_within_commit(run[0])) by {
        assert forall|p: u64| #[trigger] run[0].nodes.contains_key(p) implies run[0].nodes[p].last_applied
            <= run[0].nodes[p].commit_index by {
            assert(group::is_new_node(run[0].nodes[p], p, run[0].voters));
        }
    }
    let hs = lemma_run(run);
    let v = run[i - 1].nodes[n];
    assert(holds::holds(run[i - 1], hs[i - 1]));
    let h2 = lemma_step(run[i - 1], run[i], n, ev, mid, answer, hs[i - 1]);
    match ev {
        Event::Tick { now } => {
            let c = v.standing(now).crowned(now);
            lemma_spread_applies_nothing(c.appending(c.noop()));
            match v.leader {
                Some(l) => {
                    crate::raft::node::internal::lemma_sending_all_frame(v, l.peers);
                },
                None => {},
            }
        },
        Event::Propose { data } => {
            lemma_spread_applies_nothing(v.appending(v.proposal(data)));
        },
        Event::VoteReply { from, vote, now } => {
            let c = v.with_vote(from).crowned(now);
            lemma_spread_applies_nothing(c.appending(c.noop()));
        },
        _ => {},
    }
}

/// A candidate has voted for itself, and learners neither vote nor stand nor
/// lead.
pub proof fn law_roles(run: Seq<GroupView>, i: int, n: u64)
    requires
        group::is_run(run),
        0 <= i < run.len(),
        run[i].nodes.contains_key(n),
    ensures
        run[i].nodes[n].role == NodeRole::Candidate ==> run[i].nodes[n].hard_state.voted_for == n,
        !run[i].voters.contains(n) ==> run[i].nodes[n].role == NodeRole::Learner
            && run[i].nodes[n].hard_state.voted_for == 0,
        run[i].voters.contains(n) ==> run[i].nodes[n].role != NodeRole::Learner,
{
    let hs = lemma_run(run);
    assert(holds::holds(run[i], hs[i]));
    let ms = holds::members_of(run[i].nodes);
    events::lemma_member(ms, hs[i], run[i].voters, n);
    reveal(history::sound);
    assert(ms.contains_key(n));
    assert(ms[n].voted_for != 0 ==> hs[i].votes.contains_key((n, ms[n].term)));
}

} // verus!
