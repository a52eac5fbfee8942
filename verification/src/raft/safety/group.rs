//! A group of nodes with a fixed membership and a network that may lose, repeat
//! and reorder what is sent.
//!
//! What a node does at an event is what the contracts of its functions say. Its
//! driver writes the hard state to storage before anything that the event
//! brought about leaves the node, and storage does not fail. Logs are not
//! compacted.

use vstd::prelude::*;

use crate::raft::message::{
    AppendEntriesResponse, AppendView, RequestVoteRequest, RequestVoteResponse,
};
use crate::raft::node::machine::{NodeView, ReadyView};
use crate::raft::state::NodeRole;
use crate::raft::storage::StoredView;

verus! {

/// All that was ever sent. What is on its way is some of it, any number of times.
#[verifier::ext_equal]
pub struct NetworkView {
    /// Append requests, each with the node that it goes to.
    pub appends: Set<(u64, AppendView)>,
    /// Answers to append requests, from the first node to the second.
    pub append_replies: Set<(u64, u64, AppendEntriesResponse)>,
    /// Vote requests, each with the node that it goes to.
    pub vote_requests: Set<(u64, RequestVoteRequest)>,
    /// Answers to vote requests, from the first node to the second.
    pub vote_replies: Set<(u64, u64, RequestVoteResponse)>,
}

/// A group.
#[verifier::ext_equal]
pub struct GroupView {
    pub voters: Set<u64>,
    pub nodes: Map<u64, NodeView>,
    pub net: NetworkView,
}

/// What can happen at a node.
pub enum Event {
    Tick { now: u64 },
    Propose { data: Seq<u8> },
    Append { req: AppendView, now: u64 },
    AppendReply { from: u64, resp: AppendEntriesResponse, now: u64 },
    VoteRequest { ask: RequestVoteRequest, now: u64 },
    VoteReply { from: u64, vote: RequestVoteResponse, now: u64 },
    Applied { index: u64 },
    Restart { now: u64 },
}

/// What a node answers.
pub enum Answer {
    Nothing,
    ToAppend { resp: AppendEntriesResponse },
    ToVote { vote: RequestVoteResponse },
}

/// Whether a node that was `v` is `to` after an event, with that answer.
pub open spec fn handles(v: NodeView, ev: Event, to: NodeView, answer: Answer) -> bool {
    match ev {
        Event::Tick { now } => v.can_tick(now) && to == v.ticked(now, true) && answer is Nothing,
        Event::Propose { data } => v.role == NodeRole::Leader && v.log.last_index() < u64::MAX
            && to == v.proposed(data) && answer is Nothing,
        Event::Append { req, now } => answer matches Answer::ToAppend { resp }
            && v.append_handled(req, now, true, to, resp),
        Event::AppendReply { from, resp, now } => resp.last_log_index < u64::MAX && to
            == v.append_answered(from, resp, now) && answer is Nothing,
        Event::VoteRequest { ask, now } => to == v.canvassed(ask, now) && answer == (
        Answer::ToVote { vote: to.vote_reply(v.grants(ask)) }),
        Event::VoteReply { from, vote, now } => v.log.last_index() < u64::MAX && to
            == v.vote_answered(from, vote, now, true) && answer is Nothing,
        Event::Applied { index } => to == (NodeView { last_applied: index, ..v })
            && answer is Nothing,
        Event::Restart { now } => to == NodeView::booting(v.config, v.stored, now).restored(now)
            && answer is Nothing,
    }
}

impl NetworkView {
    /// Nothing was sent.
    pub open spec fn silent() -> NetworkView {
        NetworkView {
            appends: Set::empty(),
            append_replies: Set::empty(),
            vote_requests: Set::empty(),
            vote_replies: Set::empty(),
        }
    }

    /// Whether what an event at `n` needs has been sent to it.
    pub open spec fn brings(self, n: u64, ev: Event) -> bool {
        match ev {
            Event::Append { req, .. } => self.appends.contains((n, req)),
            Event::AppendReply { from, resp, .. } => self.append_replies.contains(
                (from, n, resp),
            ),
            Event::VoteRequest { ask, .. } => self.vote_requests.contains((n, ask)),
            Event::VoteReply { from, vote, .. } => self.vote_replies.contains((from, n, vote)),
            _ => true,
        }
    }

    /// After `n` put out `ready` and answered an event.
    pub open spec fn after(
        self,
        n: u64,
        ev: Event,
        ready: ReadyView,
        answer: Answer,
    ) -> NetworkView {
        NetworkView {
            appends: self.appends.union(ready.messages.to_set()),
            append_replies: match (ev, answer) {
                (Event::Append { req, .. }, Answer::ToAppend { resp }) =>
                    self.append_replies.insert((n, req.leader_id, resp)),
                _ => self.append_replies,
            },
            vote_requests: self.vote_requests.union(ready.vote_requests.to_set()),
            vote_replies: match (ev, answer) {
                (Event::VoteRequest { ask, .. }, Answer::ToVote { vote }) =>
                    self.vote_replies.insert((n, ask.candidate_id, vote)),
                _ => self.vote_replies,
            },
        }
    }
}

/// A node that has just been set up.
pub open spec fn is_new_node(v: NodeView, n: u64, voters: Set<u64>) -> bool {
    &&& exists|now: u64|
        v == (#[trigger] NodeView::booting(v.config, StoredView::fresh(), now)).restored(now)
    &&& n != 0
    &&& v.config.node_id == n
    &&& v.config.wf()
    &&& v.config.starts_as_learner == !voters.contains(n)
    &&& !v.config.learners.contains(n)
    &&& !v.config.peers.contains(n)
    &&& voters.contains(n) ==> {
        &&& v.config.peers.no_duplicates()
        &&& v.config.peers.to_set() == voters.remove(n)
    }
}

/// A group that has just been set up.
pub open spec fn is_new_group(g: GroupView) -> bool {
    &&& g.net == NetworkView::silent()
    &&& g.voters.finite()
    &&& g.voters.subset_of(g.nodes.dom())
    &&& forall|n: u64| #[trigger]
        g.nodes.contains_key(n) ==> is_new_node(g.nodes[n], n, g.voters)
}

/// Whether the group is `to` after an event at node `n`, which first is `mid`.
pub open spec fn is_step(
    g: GroupView,
    to: GroupView,
    n: u64,
    ev: Event,
    mid: NodeView,
    answer: Answer,
) -> bool {
    &&& g.nodes.contains_key(n)
    &&& g.net.brings(n, ev)
    &&& handles(g.nodes[n], ev, mid, answer)
    &&& to.voters == g.voters
    &&& to.nodes == g.nodes.insert(n, mid.saved().drained())
    &&& to.net == g.net.after(n, ev, mid.ready, answer)
}

/// Whether the group can get from one state to the next.
pub open spec fn steps_to(g: GroupView, to: GroupView) -> bool {
    exists|n: u64, ev: Event, mid: NodeView, answer: Answer| #[trigger]
        is_step(g, to, n, ev, mid, answer)
}

/// A run of a group: its states, one after the other.
pub open spec fn is_run(run: Seq<GroupView>) -> bool {
    &&& run.len() > 0
    &&& is_new_group(run[0])
    &&& forall|i: int| 0 < i < run.len() ==> steps_to(run[i - 1], #[trigger] run[i])
}

} // verus!
