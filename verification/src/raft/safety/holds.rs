//! What holds of a group's nodes and of all that was sent.

use vstd::prelude::*;

use crate::raft::message::{AppendEntriesResponse, RequestVoteRequest, RequestVoteResponse};
use crate::raft::node::config::ConfigView;
use crate::raft::node::machine::{NodeView, ReadyView};
use crate::raft::safety::group;
use crate::raft::safety::group::{Answer, Event, GroupView, NetworkView};
use crate::raft::safety::history;
use crate::raft::safety::history::{History, Member, Members};
use crate::raft::safety::taking;
use crate::raft::state::{HardState, NodeRole};
use crate::raft::storage::StoredView;

verus! {

/// What matters about a node.
pub open spec fn member_of(v: NodeView) -> Member {
    Member {
        term: v.hard_state.current_term,
        voted_for: v.hard_state.voted_for,
        log: v.log.entries,
        role: v.role,
        votes: v.votes,
        commit: v.commit_index,
        leader: v.leader,
    }
}

/// What matters about a group's nodes.
pub open spec fn members_of(nodes: Map<u64, NodeView>) -> Members {
    Map::new(|n: u64| nodes.contains_key(n), |n: u64| member_of(nodes[n]))
}

/// A node's configuration is that of the group.
pub open spec fn config_ok(c: ConfigView, n: u64, voters: Set<u64>) -> bool {
    &&& n != 0
    &&& c.node_id == n
    &&& c.starts_as_learner == !voters.contains(n)
    &&& !c.learners.contains(n)
    &&& !c.peers.contains(n)
    &&& voters.contains(n) ==> {
        &&& c.peers.no_duplicates()
        &&& c.peers.to_set() == voters.remove(n)
    }
}

/// What holds of a node while it handles an event: nothing of its log was
/// compacted, storage mirrors it, and a hard state that is not stored yet is put
/// out. Nothing was put out as committed that is not.
pub open spec fn node_ok(v: NodeView, n: u64, voters: Set<u64>) -> bool {
    &&& config_ok(v.config, n, voters)
    &&& v.log.wf()
    &&& v.log.snapshot_index == 0
    &&& v.log.snapshot_term == 0
    &&& v.log.mirrored_by(v.stored)
    &&& v.saved().stored.hard_state == v.hard_state
    &&& v.leader matches Some(l) ==> !l.peers.contains(n)
    &&& v.ready_commit_index <= v.commit_index
}

/// What holds of vote requests.
pub open spec fn vote_request_ok(h: History, to: u64, req: RequestVoteRequest) -> bool {
    &&& req.candidate_id != to
    &&& req.candidate_id != 0
    &&& h.stood.contains_key((req.candidate_id, req.term))
    &&& h.stood[(req.candidate_id, req.term)] == (req.last_log_term, req.last_log_index as int)
}

/// What holds of answers to append requests: what was taken over is counted.
pub open spec fn append_reply_ok(h: History, from: u64, resp: AppendEntriesResponse) -> bool {
    resp.success ==> resp.last_log_index <= h.ack(from, resp.term)
}

/// What holds of answers to vote requests: a vote that was granted was given.
pub open spec fn vote_reply_ok(
    h: History,
    from: u64,
    to: u64,
    resp: RequestVoteResponse,
) -> bool {
    resp.vote_granted ==> from != to && h.votes.contains_key((from, resp.term)) && h.votes[(
        from,
        resp.term,
    )] == to
}

/// What holds of all that was sent.
pub open spec fn net_ok(net: NetworkView, h: History, voters: Set<u64>) -> bool {
    &&& forall|m: (u64, crate::raft::message::AppendView)| #[trigger]
        net.appends.contains(m) ==> taking::request_ok(h, voters, m.1) && m.0 != m.1.leader_id
    &&& forall|m: (u64, u64, AppendEntriesResponse)| #[trigger]
        net.append_replies.contains(m) ==> append_reply_ok(h, m.0, m.2) && m.0 != m.1
    &&& forall|m: (u64, RequestVoteRequest)| #[trigger]
        net.vote_requests.contains(m) ==> vote_request_ok(h, m.0, m.1)
    &&& forall|m: (u64, u64, RequestVoteResponse)| #[trigger]
        net.vote_replies.contains(m) ==> vote_reply_ok(h, m.0, m.1, m.2)
}

/// What holds of a group in every state.
pub open spec fn holds(g: GroupView, h: History) -> bool {
    &&& history::sound(members_of(g.nodes), h, g.voters)
    &&& forall|n: u64| #[trigger]
        g.nodes.contains_key(n) ==> node_ok(g.nodes[n], n, g.voters) && g.nodes[n].ready
            == ReadyView::empty()
    &&& net_ok(g.net, h, g.voters)
}

/// What holds of all that a node puts out.
pub open spec fn ready_ok(r: ReadyView, h: History, voters: Set<u64>) -> bool {
    &&& forall|i: int|
        0 <= i < r.messages.len() ==> taking::request_ok(h, voters, (#[trigger] r.messages[i]).1)
            && r.messages[i].0 != r.messages[i].1.leader_id
    &&& forall|i: int|
        0 <= i < r.vote_requests.len() ==> vote_request_ok(
            h,
            (#[trigger] r.vote_requests[i]).0,
            r.vote_requests[i].1,
        )
}

/// What holds of a node's answer.
pub open spec fn answer_ok(h: History, n: u64, ev: Event, answer: Answer) -> bool {
    match (ev, answer) {
        (Event::Append { req, .. }, Answer::ToAppend { resp }) => append_reply_ok(h, n, resp)
            && n != req.leader_id,
        (Event::VoteRequest { ask, .. }, Answer::ToVote { vote }) => vote_reply_ok(
            h,
            n,
            ask.candidate_id,
            vote,
        ),
        _ => true,
    }
}

/// What held of what was sent holds on.
pub proof fn lemma_net_grows(net: NetworkView, h: History, to: History, voters: Set<u64>)
    requires
        net_ok(net, h, voters),
        h.grows_to(to),
    ensures
        net_ok(net, to, voters),
{
    assert forall|m: (u64, crate::raft::message::AppendView)| #[trigger]
        net.appends.contains(m) implies taking::request_ok(to, voters, m.1) && m.0
        != m.1.leader_id by {
        taking::lemma_request_grows(h, to, voters, m.1);
    }
    assert forall|m: (u64, u64, AppendEntriesResponse)| #[trigger]
        net.append_replies.contains(m) implies append_reply_ok(to, m.0, m.2) && m.0 != m.1 by {
        assert(append_reply_ok(h, m.0, m.2));
        assert(h.ack(m.0, m.2.term) <= to.ack(m.0, m.2.term));
    }
    assert forall|m: (u64, RequestVoteRequest)| #[trigger]
        net.vote_requests.contains(m) implies vote_request_ok(to, m.0, m.1) by {
        assert(vote_request_ok(h, m.0, m.1));
    }
    assert forall|m: (u64, u64, RequestVoteResponse)| #[trigger]
        net.vote_replies.contains(m) implies vote_reply_ok(to, m.0, m.1, m.2) by {
        assert(vote_reply_ok(h, m.0, m.1, m.2));
        if m.2.vote_granted {
            assert(h.votes.contains_key((m.0, m.2.term)));
        }
    }
}

/// A group holds after a step if the node that took it does.
pub proof fn lemma_step_holds(
    g: GroupView,
    to: GroupView,
    n: u64,
    ev: Event,
    mid: NodeView,
    answer: Answer,
    h: History,
    h2: History,
)
    requires
        holds(g, h),
        group::is_step(g, to, n, ev, mid, answer),
        h.grows_to(h2),
        history::sound(members_of(g.nodes).insert(n, member_of(mid)), h2, g.voters),
        node_ok(mid, n, g.voters),
        ready_ok(mid.ready, h2, g.voters),
        answer_ok(h2, n, ev, answer),
    ensures
        holds(to, h2),
{
    let after = mid.saved().drained();
    assert(members_of(to.nodes) =~= members_of(g.nodes).insert(n, member_of(mid)));
    lemma_net_grows(g.net, h, h2, g.voters);
    assert(node_ok(after, n, g.voters));
    assert forall|m: (u64, crate::raft::message::AppendView)| #[trigger]
        to.net.appends.contains(m) implies taking::request_ok(h2, g.voters, m.1) && m.0
        != m.1.leader_id by {
        if !g.net.appends.contains(m) {
            assert(mid.ready.messages.to_set().contains(m));
            let i = mid.ready.messages.index_of(m);
            assert(mid.ready.messages[i] == m);
        }
    }
    assert forall|m: (u64, RequestVoteRequest)| #[trigger]
        to.net.vote_requests.contains(m) implies vote_request_ok(h2, m.0, m.1) by {
        if !g.net.vote_requests.contains(m) {
            assert(mid.ready.vote_requests.to_set().contains(m));
            let i = mid.ready.vote_requests.index_of(m);
            assert(mid.ready.vote_requests[i] == m);
        }
    }
    assert(net_ok(to.net, h2, g.voters));
}

/// A group that has just been set up holds, with nothing having happened.
pub proof fn lemma_new_group_holds(g: GroupView)
    requires
        group::is_new_group(g),
    ensures
        holds(g, History::empty()),
{
    reveal(history::sound);
    let h = History::empty();
    let ms = members_of(g.nodes);
    assert forall|n: u64| #[trigger] g.nodes.contains_key(n) implies node_ok(
        g.nodes[n],
        n,
        g.voters,
    ) && g.nodes[n].ready == ReadyView::empty() && g.nodes[n].log.entries.len() == 0
        && g.nodes[n].commit_index == 0 && g.nodes[n].hard_state == (HardState {
        current_term: 0,
        voted_for: 0,
    }) && g.nodes[n].role == if g.voters.contains(n) {
        NodeRole::Follower
    } else {
        NodeRole::Learner
    } by {
        assert(group::is_new_node(g.nodes[n], n, g.voters));
        reveal(Seq::filter);
        assert(StoredView::fresh().entries_after(0) =~= Seq::empty());
    }
    assert forall|n: u64| #[trigger] ms.contains_key(n) implies ms[n].role == if g.voters.contains(
        n,
    ) {
        NodeRole::Follower
    } else {
        NodeRole::Learner
    } by {
        assert(g.nodes.contains_key(n));
    }
    assert forall|n: u64| #[trigger] g.voters.contains(n) implies ms.contains_key(n) by {
        assert(g.nodes.dom().contains(n));
    }
    if g.voters.contains(0) {
        assert(g.nodes.contains_key(0));
        assert(node_ok(g.nodes[0], 0, g.voters));
    }
    assert forall|n: u64, i: int|
        #![trigger ms[n].log[i]]
        ms.contains_key(n) && 0 <= i < ms[n].log.len() implies history::known(h, ms[n].log, i)
        && ms[n].log[i].term <= ms[n].term by {
        assert(g.nodes.contains_key(n));
    }
    assert forall|n: u64| #[trigger] ms.contains_key(n) implies ms[n].voted_for == 0
        && ms[n].commit == 0 by {
        assert(g.nodes.contains_key(n));
    }
}

} // verus!
