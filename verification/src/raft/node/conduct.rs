//! What a node does with each message and each tick, said in terms of what went
//! in and what came out.

use vstd::prelude::*;

use crate::raft::log;
use crate::raft::log::LogView;
use crate::raft::message::{
    AppendEntriesResponse, AppendView, EntryView, InstallSnapshotRequest, RequestVoteRequest,
    RequestVoteResponse,
};
use crate::raft::node::config::ConfigView;
use crate::raft::node::internal;
use crate::raft::node::laws;
use crate::raft::node::machine::NodeView;
use crate::raft::node::membership;
use crate::raft::state;
use crate::raft::state::{HardState, LeaderView, NodeRole};
use crate::raft::storage::StoredView;

verus! {

/// What becoming leader leaves as it is, and the role it brings.
proof fn lemma_leading_frame(v: NodeView, now: u64, stored_ok: bool)
    ensures
        v.leading(now, stored_ok).role == NodeRole::Leader,
        v.leading(now, stored_ok).hard_state == v.hard_state,
        v.leading(now, stored_ok).config == v.config,
        v.leading(now, stored_ok).votes == v.votes,
        v.leading(now, stored_ok).leader_id == v.config.node_id,
        v.leading(now, stored_ok).election_deadline == v.election_deadline,
        v.leading(now, stored_ok).leader == v.crowned(now).leader,
        v.leading(now, stored_ok).ready.hard_state == v.ready.hard_state,
        v.leading(now, stored_ok).ready.vote_requests == v.ready.vote_requests,
        v.leading(now, stored_ok).last_applied == v.last_applied,
        v.leading(now, stored_ok).heartbeat_deadline == v.crowned(now).heartbeat_deadline,
{
    let c = v.crowned(now);
    let a = c.appending(c.noop());
    internal::lemma_sending_all_frame(a, a.leader->0.peers);
}

/// A candidate that is handed a granted vote of its own term leads afterwards
/// exactly if the voters that granted it their vote, itself included and each
/// counted once, are more than half of the voters. Short of that it stays a
/// candidate, and the vote is counted.
pub proof fn law_majority_of_votes_elects(
    v: NodeView,
    peer: u64,
    resp: RequestVoteResponse,
    now: u64,
    stored_ok: bool,
)
    requires
        v.votes.finite(),
        v.role == NodeRole::Candidate,
        resp.vote_granted,
        resp.term == v.hard_state.current_term,
    ensures
        ({
            let to = v.vote_answered(peer, resp, now, stored_ok);
            let voters = v.config.peers.len() + 1;
            &&& 2 * (v.votes.insert(peer).len() + 1) > voters <==> to.role == NodeRole::Leader
            &&& 2 * (v.votes.insert(peer).len() + 1) <= voters ==> to.role == NodeRole::Candidate
            &&& to.votes == v.votes.insert(peer)
            &&& to.hard_state == v.hard_state
            &&& to.role == NodeRole::Leader ==> to.leader_id == v.config.node_id
                && to.leader is Some
        }),
{
    lemma_leading_frame(v.with_vote(peer), now, stored_ok);
}

/// A candidate that hears from enough voters leads, whatever the order in which
/// their answers come: the answer that makes the votes a majority decides.
pub proof fn law_election_is_won_by_votes(
    run: Seq<NodeView>,
    peers: Seq<u64>,
    resp: RequestVoteResponse,
    now: u64,
)
    requires
        peers.len() > 0,
        peers.no_duplicates(),
        run.len() == peers.len() + 1,
        run[0].role == NodeRole::Candidate,
        run[0].votes == Set::<u64>::empty(),
        resp.vote_granted,
        resp.term == run[0].hard_state.current_term,
        forall|i: int|
            0 <= i < peers.len() ==> #[trigger] run[i + 1] == run[i].vote_answered(
                peers[i],
                resp,
                now,
                true,
            ),
        2 * peers.len() <= run[0].config.peers.len() + 1,
        2 * (peers.len() + 1) > run[0].config.peers.len() + 1,
    ensures
        run.last().role == NodeRole::Leader,
        run.last().hard_state == run[0].hard_state,
{
    let n = peers.len() as int;
    lemma_votes_add_up(run, peers, resp, now, n - 1);
    let v = run[n - 1];
    assert(run[(n - 1) + 1] == v.vote_answered(peers[n - 1], resp, now, true));
    let before = peers.take(n - 1);
    assert forall|x: u64| v.votes.contains(x) implies before.contains(x) by {}
    if v.votes.contains(peers[n - 1]) {
        let i = before.index_of(peers[n - 1]);
        assert(peers[i] == peers[n - 1]);
    }
    assert(v.votes.insert(peers[n - 1]).len() == n);
    law_majority_of_votes_elects(v, peers[n - 1], resp, now, true);
}

/// As long as the votes are no majority, each answer adds one voter.
proof fn lemma_votes_add_up(
    run: Seq<NodeView>,
    peers: Seq<u64>,
    resp: RequestVoteResponse,
    now: u64,
    k: int,
)
    requires
        0 <= k < peers.len(),
        peers.no_duplicates(),
        run.len() == peers.len() + 1,
        run[0].role == NodeRole::Candidate,
        run[0].votes == Set::<u64>::empty(),
        resp.vote_granted,
        resp.term == run[0].hard_state.current_term,
        forall|i: int|
            0 <= i < peers.len() ==> #[trigger] run[i + 1] == run[i].vote_answered(
                peers[i],
                resp,
                now,
                true,
            ),
        2 * peers.len() <= run[0].config.peers.len() + 1,
    ensures
        run[k].role == NodeRole::Candidate,
        run[k].hard_state == run[0].hard_state,
        run[k].config == run[0].config,
        run[k].votes == peers.take(k).to_set(),
        run[k].votes.finite(),
        run[k].votes.len() == k,
    decreases k,
{
    if k == 0 {
        assert(peers.take(0).to_set() =~= Set::<u64>::empty());
    } else {
        lemma_votes_add_up(run, peers, resp, now, k - 1);
        let v = run[k - 1];
        assert(run[(k - 1) + 1] == v.vote_answered(peers[k - 1], resp, now, true));
        let before = peers.take(k - 1);
        if v.votes.contains(peers[k - 1]) {
            assert(before.contains(peers[k - 1]));
            let i = before.index_of(peers[k - 1]);
            assert(peers[i] == peers[k - 1]);
        }
        assert(v.votes.insert(peers[k - 1]).len() == k);
        law_majority_of_votes_elects(v, peers[k - 1], resp, now, true);
        assert(peers.take(k) =~= before.push(peers[k - 1]));
        assert(peers.take(k).to_set() =~= before.to_set().insert(peers[k - 1])) by {
            assert forall|x: u64| #[trigger] peers.take(k).contains(x) implies before.contains(x)
                || x == peers[k - 1] by {
                let i = peers.take(k).index_of(x);
                if i < k - 1 {
                    assert(before[i] == x);
                }
            }
            assert forall|x: u64| #[trigger] before.contains(x) implies peers.take(k).contains(
                x,
            ) by {
                let i = before.index_of(x);
                assert(peers.take(k)[i] == x);
            }
            assert(peers.take(k)[k - 1] == peers[k - 1]);
        }
    }
}

/// A vote that was refused, and one for a node that is no candidate, change
/// nothing; one of a later term makes the node a follower of that term.
pub proof fn law_other_vote_answers(
    v: NodeView,
    peer: u64,
    resp: RequestVoteResponse,
    now: u64,
    stored_ok: bool,
)
    ensures
        resp.term <= v.hard_state.current_term && (!resp.vote_granted || v.role
            != NodeRole::Candidate) ==> v.vote_answered(peer, resp, now, stored_ok) == v,
        resp.term > v.hard_state.current_term ==> {
            let to = v.vote_answered(peer, resp, now, stored_ok);
            &&& to.hard_state == (HardState { current_term: resp.term, voted_for: 0 })
            &&& to.role == NodeRole::Follower || to.role == NodeRole::Learner
            &&& to.leader is None
            &&& to.log == v.log
            &&& to.commit_index == v.commit_index
        },
{
}

/// A node that hears of a later term gives up what it was, unless it is a
/// learner, forgets its vote and knows no leader, and has the new term stored.
pub proof fn law_later_term_makes_a_follower(
    v: NodeView,
    peer: u64,
    resp: AppendEntriesResponse,
    now: u64,
)
    requires
        resp.term > v.hard_state.current_term,
    ensures
        ({
            let to = v.append_answered(peer, resp, now);
            &&& v.role != NodeRole::Learner ==> to.role == NodeRole::Follower
            &&& v.role == NodeRole::Learner ==> to.role == NodeRole::Learner
            &&& to.hard_state == (HardState { current_term: resp.term, voted_for: 0 })
            &&& to.ready.hard_state == Some(to.hard_state)
            &&& to.leader is None
            &&& to.leader_id == 0
            &&& to.votes == Set::<u64>::empty()
            &&& to.log == v.log
            &&& to.commit_index == v.commit_index
        }),
{
}

/// The end of a log: its last entry, or its snapshot where there is none.
pub proof fn law_log_end(l: LogView)
    requires
        l.wf(),
    ensures
        l.entries.len() > 0 ==> l.last_index() == l.entries.last().index && l.last_term()
            == l.entries.last().term,
        l.entries.len() == 0 ==> l.last_index() == l.snapshot_index && l.last_term()
            == l.snapshot_term,
        forall|k: int|
            0 <= k < l.entries.len() ==> l.term_at((#[trigger] l.entries[k]).index as int) == Some(
                l.entries[k].term,
            ) && l.at(l.entries[k].index as int) == l.entries[k],
        l.snapshot_index > 0 ==> l.term_at(l.snapshot_index as int) == Some(l.snapshot_term),
        forall|i: int| i > l.last_index() ==> #[trigger] l.term_at(i) is None,
        forall|i: int| 0 < i < l.snapshot_index ==> #[trigger] l.term_at(i) is None,
{
}

/// A voter gives its vote exactly to a candidate of its own or a later term
/// whose log ends in a later term, or in the same term and no sooner, if it has
/// not given it to another in that term. The vote is put out for storing.
pub proof fn law_vote_goes_to_current_candidates(v: NodeView, req: RequestVoteRequest, now: u64)
    requires
        v.role != NodeRole::Learner,
        v.log.wf(),
    ensures
        ({
            let to = v.canvassed(req, now);
            let own_term = if v.log.entries.len() > 0 {
                v.log.entries.last().term
            } else {
                v.log.snapshot_term
            };
            let own_index = if v.log.entries.len() > 0 {
                v.log.entries.last().index
            } else {
                v.log.snapshot_index
            };
            let as_current = req.last_log_term > own_term || (req.last_log_term == own_term
                && req.last_log_index >= own_index);
            let free = req.term > v.hard_state.current_term || v.hard_state.voted_for == 0
                || v.hard_state.voted_for == req.candidate_id;
            &&& v.grants(req) <==> req.term >= v.hard_state.current_term && free && as_current
            &&& v.grants(req) ==> to.hard_state == (HardState {
                current_term: req.term,
                voted_for: req.candidate_id,
            }) && to.ready.hard_state == Some(to.hard_state)
            &&& !v.grants(req) && req.term > v.hard_state.current_term ==> to.hard_state == (
            HardState { current_term: req.term, voted_for: 0 }) && to.ready.hard_state == Some(
                to.hard_state,
            )
            &&& !v.grants(req) && req.term <= v.hard_state.current_term ==> to == v
            &&& req.term > v.hard_state.current_term ==> to.role == NodeRole::Follower
            &&& v.grants(req) && now + v.config.election_timeout_min <= u64::MAX
                ==> to.election_deadline >= now + v.config.election_timeout_min
            &&& to.log == v.log
            &&& to.vote_reply(v.grants(req)).vote_granted == v.grants(req)
            &&& to.vote_reply(v.grants(req)).term == to.hard_state.current_term
        }),
{
    law_log_end(v.log);
}

/// What is to be applied next is not lost when a log takes over entries: the
/// log then holds every one of them that lies behind its snapshot, and what it
/// held up to the entry that they follow.
proof fn lemma_merged_holds(l: LogView, prev: u64, es: Seq<EntryView>)
    requires
        l.wf(),
        log::follows(prev, es),
        prev <= l.last_index(),
    ensures
        l.merged(es).wf(),
        l.merged(es).snapshot_index == l.snapshot_index,
        l.merged(es).snapshot_term == l.snapshot_term,
        forall|k: int|
            0 <= k < es.len() && (#[trigger] es[k]).index > l.snapshot_index ==> es[k].index
                <= l.merged(es).last_index() && l.merged(es).at(es[k].index as int).term
                == es[k].term,
        forall|k: int|
            0 <= k < es.len() && (#[trigger] es[k]).index > l.snapshot_index && (es[k].index
                > l.last_index() || l.at(es[k].index as int).term != es[k].term) ==> l.merged(
                es,
            ).at(es[k].index as int) == es[k],
        forall|i: int|
            #![trigger l.merged(es).at(i)]
            l.snapshot_index < i <= prev ==> l.merged(es).at(i) == l.at(i),
        (forall|k: int|
            0 <= k < es.len() && l.snapshot_index < (#[trigger] es[k]).index <= l.last_index()
                ==> l.at(es[k].index as int).term == es[k].term) ==> l.merged(es).last_index()
            >= l.last_index() && (forall|i: int|
            #![trigger l.merged(es).at(i)]
            l.snapshot_index < i <= l.last_index() ==> l.merged(es).at(i) == l.at(i)),
        forall|k: int|
            0 <= k < es.len() && l.snapshot_index < (#[trigger] es[k]).index <= l.last_index()
                && l.at(es[k].index as int).term != es[k].term ==> l.merged(es).last_index()
                == prev + es.len(),
        prev + es.len() <= l.merged(es).last_index() || l.merged(es) == l,
{
    log::lemma_merged_wf(l, prev, es);
    log::lemma_covered_range(l, es);
    let k0 = l.covered(es);
    let m = l.merged(es);
    if k0 < es.len() {
        let from = es[k0].index;
        let keep = from - l.snapshot_index - 1;
        assert forall|k: int| 0 <= k < es.len() && (#[trigger] es[k]).index
            > l.snapshot_index implies es[k].index <= m.last_index() && m.at(
            es[k].index as int,
        ).term == es[k].term by {
            if k < k0 {
                assert(l.holds(es[k]));
                assert(m.entries[es[k].index - l.snapshot_index - 1] == l.entries[es[k].index
                    - l.snapshot_index - 1]);
            } else {
                assert(m.entries[keep + (k - k0)] == es[k]);
            }
        }
        assert forall|k: int|
            0 <= k < es.len() && (#[trigger] es[k]).index > l.snapshot_index && (es[k].index
                > l.last_index() || l.at(es[k].index as int).term != es[k].term) implies m.at(
            es[k].index as int,
        ) == es[k] by {
            if k < k0 {
                assert(l.holds(es[k]));
            } else {
                assert(m.entries[keep + (k - k0)] == es[k]);
            }
        }
        assert forall|i: int|
            #![trigger m.at(i)]
            l.snapshot_index < i <= prev implies m.at(i) == l.at(i) by {
            assert(m.entries[i - l.snapshot_index - 1] == l.entries[i - l.snapshot_index - 1]);
        }
        if forall|k: int|
            0 <= k < es.len() && l.snapshot_index < (#[trigger] es[k]).index <= l.last_index()
                ==> l.at(es[k].index as int).term == es[k].term {
            assert(from > l.last_index());
            assert forall|i: int|
                #![trigger m.at(i)]
                l.snapshot_index < i <= l.last_index() implies m.at(i) == l.at(i) by {
                assert(m.entries[i - l.snapshot_index - 1] == l.entries[i - l.snapshot_index - 1]);
            }
        }
    } else {
        assert forall|k: int| 0 <= k < es.len() && (#[trigger] es[k]).index
            > l.snapshot_index implies es[k].index <= m.last_index() && m.at(
            es[k].index as int,
        ).term == es[k].term by {
            assert(l.holds(es[k]));
        }
        assert forall|k: int|
            0 <= k < es.len() && l.snapshot_index < (#[trigger] es[k]).index
                <= l.last_index() implies l.at(es[k].index as int).term == es[k].term by {
            assert(l.holds(es[k]));
        }
        assert forall|k: int|
            0 <= k < es.len() && (#[trigger] es[k]).index > l.snapshot_index && (es[k].index
                > l.last_index() || l.at(es[k].index as int).term != es[k].term) implies m.at(
            es[k].index as int,
        ) == es[k] by {
            assert(l.holds(es[k]));
        }
    }
}

/// An append request of the node's own or a later term, whose entries follow an
/// entry that the node holds, is accepted: afterwards the log holds the
/// request's entries, what stood before them is as it was, and an entry is
/// dropped only for one of another term in its place; what the log lacked, or
/// held in another term, is taken over as it was sent. The commit index follows
/// the leader's as far as the log goes.
pub proof fn law_matching_append_is_taken_over(
    v: NodeView,
    req: AppendView,
    now: u64,
    to: NodeView,
    resp: AppendEntriesResponse,
)
    requires
        v.log.wf(),
        v.append_handled(req, now, true, to, resp),
        req.term >= v.hard_state.current_term,
        req.prev_log_index == 0 || (req.prev_log_index == v.log.snapshot_index
            && req.prev_log_term == v.log.snapshot_term) || exists|j: int|
            0 <= j < v.log.entries.len() && (#[trigger] v.log.entries[j]).index
                == req.prev_log_index && v.log.entries[j].term == req.prev_log_term,
        forall|k: int|
            0 <= k < req.entries.len() ==> (#[trigger] req.entries[k]).index == req.prev_log_index
                + 1 + k,
    ensures
        resp.success,
        resp.term == req.term,
        resp.last_log_index == to.log.last_index(),
        to.hard_state.current_term == req.term,
        to.leader_id == req.leader_id,
        to.log.wf(),
        to.log.snapshot_index == v.log.snapshot_index,
        forall|k: int|
            0 <= k < req.entries.len() && (#[trigger] req.entries[k]).index > v.log.snapshot_index
                ==> req.entries[k].index <= to.log.last_index() && to.log.at(
                req.entries[k].index as int,
            ).term == req.entries[k].term,
        forall|k: int|
            0 <= k < req.entries.len() && (#[trigger] req.entries[k]).index > v.log.snapshot_index
                && (req.entries[k].index > v.log.last_index() || v.log.at(
                req.entries[k].index as int,
            ).term != req.entries[k].term) ==> to.log.at(req.entries[k].index as int)
                == req.entries[k],
        forall|i: int|
            #![trigger to.log.at(i)]
            v.log.snapshot_index < i <= req.prev_log_index ==> to.log.at(i) == v.log.at(i),
        (forall|k: int|
            0 <= k < req.entries.len() && v.log.snapshot_index < (#[trigger] req.entries[k]).index
                <= v.log.last_index() ==> v.log.at(req.entries[k].index as int).term
                == req.entries[k].term) ==> to.log.last_index() >= v.log.last_index(),
        forall|k: int|
            0 <= k < req.entries.len() && v.log.snapshot_index < (#[trigger] req.entries[k]).index
                <= v.log.last_index() && v.log.at(req.entries[k].index as int).term
                != req.entries[k].term ==> to.log.last_index() == req.prev_log_index
                + req.entries.len(),
        to.commit_index == if req.leader_commit <= v.commit_index {
            v.commit_index as int
        } else if req.leader_commit <= to.log.last_index() {
            req.leader_commit as int
        } else {
            to.log.last_index()
        },
{
    let h = v.hearing(req.term, req.leader_id, now);
    assert(h.log == v.log);
    if req.prev_log_index != 0 && !(req.prev_log_index == v.log.snapshot_index
        && req.prev_log_term == v.log.snapshot_term) {
        let j = choose|j: int|
            0 <= j < v.log.entries.len() && (#[trigger] v.log.entries[j]).index
                == req.prev_log_index && v.log.entries[j].term == req.prev_log_term;
        assert(v.log.at(req.prev_log_index as int) == v.log.entries[j]);
    }
    assert(h.prev_matches(req));
    assert(log::follows(req.prev_log_index, req.entries));
    assert(req.prev_log_index <= v.log.last_index());
    lemma_merged_holds(v.log, req.prev_log_index, req.entries);
    assert(to == h.accepting(req));
    assert(to.log == v.log.merged(req.entries));
}

/// An append request whose entries follow an entry that the node does not hold,
/// or holds in another term, is refused, and so is one whose entries have a gap.
/// Log and commit index stay, and the answer says where the log ends.
pub proof fn law_mismatched_append_is_refused(
    v: NodeView,
    req: AppendView,
    now: u64,
    reliable: bool,
    to: NodeView,
    resp: AppendEntriesResponse,
)
    requires
        v.log.wf(),
        v.append_handled(req, now, reliable, to, resp),
        ({
            ||| req.prev_log_index > v.log.last_index()
            ||| 0 < req.prev_log_index < v.log.snapshot_index
            ||| req.prev_log_index > 0 && req.prev_log_index == v.log.snapshot_index
                && req.prev_log_term != v.log.snapshot_term
            ||| exists|j: int|
                0 <= j < v.log.entries.len() && (#[trigger] v.log.entries[j]).index
                    == req.prev_log_index && v.log.entries[j].term != req.prev_log_term
            ||| exists|k: int|
                0 <= k < req.entries.len() && (#[trigger] req.entries[k]).index
                    != req.prev_log_index + 1 + k
        }),
    ensures
        !resp.success,
        resp.last_log_index == v.log.last_index(),
        to.log == v.log,
        to.stored == v.stored,
        to.commit_index == v.commit_index,
{
    let h = v.hearing(req.term, req.leader_id, now);
    assert(h.log == v.log);
    if exists|j: int|
        0 <= j < v.log.entries.len() && (#[trigger] v.log.entries[j]).index == req.prev_log_index
            && v.log.entries[j].term != req.prev_log_term {
        let j = choose|j: int|
            0 <= j < v.log.entries.len() && (#[trigger] v.log.entries[j]).index
                == req.prev_log_index && v.log.entries[j].term != req.prev_log_term;
        assert(v.log.at(req.prev_log_index as int) == v.log.entries[j]);
    }
}

/// Whoever hears from a leader of its own or a later term follows it: a
/// candidate gives up, the term is taken over, and the election timeout starts
/// afresh.
pub proof fn law_leader_is_followed(
    v: NodeView,
    req: AppendView,
    now: u64,
    reliable: bool,
    to: NodeView,
    resp: AppendEntriesResponse,
)
    requires
        v.append_handled(req, now, reliable, to, resp),
        req.term >= v.hard_state.current_term,
    ensures
        to.hard_state.current_term == req.term,
        req.term == v.hard_state.current_term ==> to.hard_state.voted_for
            == v.hard_state.voted_for,
        req.term > v.hard_state.current_term ==> to.hard_state.voted_for == 0
            && to.ready.hard_state == Some(to.hard_state),
        to.leader_id == req.leader_id,
        to.leader_hint() == if req.leader_id == 0 {
            None
        } else {
            Some(req.leader_id)
        },
        to.role != NodeRole::Candidate,
        v.role == NodeRole::Candidate ==> to.role == NodeRole::Follower,
        v.role == NodeRole::Leader && req.term > v.hard_state.current_term ==> to.role
            == NodeRole::Follower && to.leader is None,
        now + v.config.election_timeout_min <= u64::MAX ==> to.election_deadline >= now
            + v.config.election_timeout_min,
{
    law_election_timeout_in_range(v, now);
}

/// The election timeout lies between the shortest and the longest one, short of
/// the latter, and follows the clock's low digits; where the two are no range it
/// is the shortest one.
pub proof fn law_election_timeout_in_range(v: NodeView, now: u64)
    ensures
        ({
            let min = v.config.election_timeout_min;
            let max = v.config.election_timeout_max;
            let at = v.rested(now).election_deadline;
            &&& now + min <= u64::MAX ==> at >= now + min
            &&& now + min > u64::MAX ==> at == u64::MAX
            &&& max > min && now + max <= u64::MAX ==> at < now + max && (at - now - min) == now
                as int % (max - min)
            &&& max <= min && now + min <= u64::MAX ==> at == now + min
        }),
{
}

/// A node that has just been made waits for as long as the longest timeout, and
/// one that has read its storage for a timeout within the range.
pub proof fn law_new_node_waits_before_it_stands(config: ConfigView, stored: StoredView, now: u64)
    ensures
        ({
            let made = NodeView::booting(config, stored, now);
            let restored = made.restored(now);
            &&& now + config.election_timeout_max <= u64::MAX ==> made.election_deadline == now
                + config.election_timeout_max
            &&& now + config.election_timeout_min <= u64::MAX ==> restored.election_deadline >= now
                + config.election_timeout_min
            &&& config.election_timeout_min < config.election_timeout_max && now
                + config.election_timeout_max <= u64::MAX ==> restored.election_deadline < now
                + config.election_timeout_max
        }),
{
    law_election_timeout_in_range(NodeView::booting(config, stored, now), now);
}

/// Nothing else starts the timeout afresh: an answer, a vote that is refused in
/// the node's own term and a tick that finds nothing due leave it running.
pub proof fn law_timeout_runs_on(
    v: NodeView,
    peer: u64,
    append: AppendEntriesResponse,
    vote: RequestVoteResponse,
    req: RequestVoteRequest,
    now: u64,
    stored_ok: bool,
)
    requires
        append.term <= v.hard_state.current_term,
        vote.term <= v.hard_state.current_term,
        req.term <= v.hard_state.current_term,
        !v.grants(req),
    ensures
        v.append_answered(peer, append, now).election_deadline == v.election_deadline,
        v.vote_answered(peer, vote, now, stored_ok).election_deadline == v.election_deadline,
        v.canvassed(req, now).election_deadline == v.election_deadline,
        now < v.election_deadline ==> v.ticked(now, stored_ok).election_deadline
            == v.election_deadline,
{
    lemma_leading_frame(v.with_vote(peer), now, stored_ok);
    match v.leader {
        Some(l) => {
            internal::lemma_sending_all_frame(v, l.peers);
        },
        None => {},
    }
}

/// Once its timeout has run out, and no sooner, a follower or candidate stands
/// in the next term: it votes for itself, has that stored, and asks every other
/// voter for its vote, naming the end of its log.
pub proof fn law_timeout_calls_an_election(v: NodeView, now: u64, stored_ok: bool)
    requires
        v.role == NodeRole::Follower || v.role == NodeRole::Candidate,
        v.hard_state.current_term < u64::MAX,
        v.log.wf(),
    ensures
        ({
            let to = v.ticked(now, stored_ok);
            let asked = to.ready.vote_requests;
            let had = v.ready.vote_requests.len();
            &&& now < v.election_deadline ==> to == v
            &&& now >= v.election_deadline ==> {
                &&& to.hard_state == (HardState {
                    current_term: (v.hard_state.current_term + 1) as u64,
                    voted_for: v.config.node_id,
                })
                &&& to.ready.hard_state == Some(to.hard_state)
                &&& to.votes == Set::<u64>::empty()
                &&& now + v.config.election_timeout_min <= u64::MAX ==> to.election_deadline >= now
                    + v.config.election_timeout_min
                &&& v.config.peers.len() == 0 ==> to.role == NodeRole::Leader
                &&& v.config.peers.len() > 0 ==> {
                    &&& to.role == NodeRole::Candidate
                    &&& to.leader is None
                    &&& to.leader_id == 0
                    &&& asked.len() == had + v.config.peers.len()
                    &&& forall|i: int|
                        0 <= i < v.config.peers.len() ==> (#[trigger] asked[had + i]).0
                            == v.config.peers[i] && asked[had + i].1.term
                            == v.hard_state.current_term + 1 && asked[had + i].1.candidate_id
                            == v.config.node_id && asked[had + i].1.last_log_index
                            == v.log.last_index() && asked[had + i].1.last_log_term
                            == v.log.last_term() && asked[had + i].1.group_id
                            == v.config.group_id
                    &&& forall|i: int| 0 <= i < had ==> #[trigger] asked[i]
                        == v.ready.vote_requests[i]
                    &&& to.log == v.log
                }
            }
        }),
{
    lemma_leading_frame(v.standing(now), now, stored_ok);
}

/// A leader calls no election. It sends its next heartbeats once the last ones
/// are as old as the interval, and no sooner.
pub proof fn law_leader_keeps_to_its_interval(v: NodeView, now: u64, stored_ok: bool)
    requires
        v.role == NodeRole::Leader,
    ensures
        ({
            let to = v.ticked(now, stored_ok);
            &&& to.role == NodeRole::Leader
            &&& to.hard_state == v.hard_state
            &&& to.log == v.log
            &&& now < v.heartbeat_deadline ==> to == v
            &&& now >= v.heartbeat_deadline && now + v.config.heartbeat_interval <= u64::MAX
                ==> to.heartbeat_deadline == now + v.config.heartbeat_interval
        }),
{
    match v.leader {
        Some(l) => {
            internal::lemma_sending_all_frame(v, l.peers);
        },
        None => {},
    }
}

/// What a leader sends a peer is what the peer lacks: the entries from the
/// peer's next index to the end of the log, behind the entry before them, under
/// the leader's term and with its commit index.
pub proof fn law_peer_gets_what_it_lacks(v: NodeView, peer: u64)
    requires
        v.log.wf(),
        v.leader is Some,
        v.log.snapshot_index < v.leader->0.next_of(peer) <= v.log.last_index() + 1,
    ensures
        ({
            let to = v.sending(peer);
            let n = v.ready.messages.len() as int;
            let next = v.leader->0.next_of(peer);
            let m = to.ready.messages[n].1;
            &&& to.ready.messages.len() == n + 1
            &&& to.ready.messages[n].0 == peer
            &&& m.term == v.hard_state.current_term
            &&& m.leader_id == v.config.node_id
            &&& m.group_id == v.config.group_id
            &&& m.leader_commit == v.commit_index
            &&& m.prev_log_index == next - 1
            &&& m.prev_log_index == v.log.snapshot_index && next > 1 ==> m.prev_log_term
                == v.log.snapshot_term
            &&& m.prev_log_index > v.log.snapshot_index ==> m.prev_log_term == v.log.at(
                next - 1,
            ).term
            &&& m.entries.len() == v.log.last_index() - next + 1
            &&& forall|k: int|
                0 <= k < m.entries.len() ==> #[trigger] m.entries[k] == v.log.at(next + k)
            &&& to.ready.snapshots_needed == v.ready.snapshots_needed
        }),
{
    let next = v.leader->0.next_of(peer);
    let m = v.append_for(peer);
    if next <= v.log.last_index() {
        assert forall|k: int| 0 <= k < m.entries.len() implies #[trigger] m.entries[k] == v.log.at(
            next + k,
        ) by {
            assert(m.entries[k] == v.log.entries[next - 1 - v.log.snapshot_index + k]);
        }
    }
}

/// A peer whose next entry has been compacted away is sent nothing, and named
/// as one that needs a snapshot.
pub proof fn law_peer_behind_the_snapshot_is_named(v: NodeView, peer: u64)
    requires
        v.leader is Some,
        v.leader->0.next_of(peer) <= v.log.snapshot_index,
    ensures
        v.sending(peer).ready.messages == v.ready.messages,
        v.sending(peer).ready.snapshots_needed == v.ready.snapshots_needed.push(peer),
{
}

/// A new leader takes nothing to be replicated on its peers, and begins with
/// the entry that opens its term.
pub proof fn law_new_leader_starts_at_its_log_end(
    v: NodeView,
    peer: u64,
    now: u64,
    stored_ok: bool,
)
    requires
        v.log.last_index() < u64::MAX,
        v.config.peers.contains(peer) || v.config.learners.contains(peer),
    ensures
        ({
            let to = v.leading(now, stored_ok);
            &&& to.leader is Some
            &&& to.leader->0.next_of(peer) == v.log.last_index() + 1
            &&& to.leader->0.match_of(peer) == 0
            &&& to.leader_id == v.config.node_id
            &&& now + v.config.heartbeat_interval <= u64::MAX ==> to.heartbeat_deadline == now
                + v.config.heartbeat_interval
        }),
{
    lemma_leading_frame(v, now, stored_ok);
    let all = v.config.peers + v.config.learners;
    if v.config.peers.contains(peer) {
        let i = v.config.peers.index_of(peer);
        assert(all[i] == peer);
    } else {
        let i = v.config.learners.index_of(peer);
        assert(all[v.config.peers.len() + i] == peer);
    }
}

/// A leader that is told by a peer how far it holds the log takes note: the
/// record of the peer rises to that index, never falls, and the peer is to get
/// the entry behind it next. Other peers' records stay.
pub proof fn law_acknowledgement_is_recorded(
    v: NodeView,
    peer: u64,
    resp: AppendEntriesResponse,
    now: u64,
    other: u64,
)
    requires
        v.role == NodeRole::Leader,
        v.leader is Some,
        resp.success,
        resp.term == v.hard_state.current_term,
        resp.last_log_index < u64::MAX,
        other != peer,
    ensures
        ({
            let to = v.append_answered(peer, resp, now);
            let was = v.leader->0.match_of(peer);
            &&& to.leader is Some
            &&& to.role == NodeRole::Leader
            &&& resp.last_log_index > was ==> to.leader->0.match_of(peer) == resp.last_log_index
                && to.leader->0.next_of(peer) == resp.last_log_index + 1
            &&& resp.last_log_index <= was ==> to.leader->0.match_of(peer) == was
                && to.leader->0.next_of(peer) == v.leader->0.next_of(peer)
            &&& to.leader->0.match_of(other) == v.leader->0.match_of(other)
            &&& to.leader->0.next_of(other) == v.leader->0.next_of(other)
        }),
{
}

/// How many of `s` are picked when those that `f` picks are picked by `g` too.
proof fn lemma_filter_same(s: Seq<u64>, f: spec_fn(u64) -> bool, g: spec_fn(u64) -> bool)
    requires
        forall|p: u64| #[trigger] f(p) == g(p),
    ensures
        s.filter(f) == s.filter(g),
    decreases s.len(),
{
    reveal(Seq::filter);
    if s.len() > 0 {
        lemma_filter_same(s.drop_last(), f, g);
    }
}

/// An entry of the leader's own term that more than half of the voters hold,
/// the leader included, is committed once the answer that makes it so is in.
/// And no further than such an entry does the commit index move.
pub proof fn law_majority_commits(
    v: NodeView,
    peer: u64,
    resp: AppendEntriesResponse,
    now: u64,
    n: u64,
)
    requires
        v.log.wf(),
        v.role == NodeRole::Leader,
        v.leader is Some,
        v.config.peers.contains(peer),
        resp.success,
        resp.term == v.hard_state.current_term,
        resp.last_log_index < u64::MAX,
        v.log.snapshot_index < n <= v.log.last_index(),
        v.log.at(n as int).term == v.hard_state.current_term,
        n > v.commit_index,
    ensures
        ({
            let to = v.append_answered(peer, resp, now);
            let holding = v.config.peers.filter(
                |p: u64|
                    if p == peer {
                        v.leader->0.match_of(p) >= n || resp.last_log_index >= n
                    } else {
                        v.leader->0.match_of(p) >= n
                    },
            );
            &&& 2 * (holding.len() + 1) > v.config.peers.len() + 1 ==> to.commit_index >= n
            &&& to.commit_index == n ==> 2 * (holding.len() + 1) > v.config.peers.len() + 1
        }),
{
    let to = v.append_answered(peer, resp, now);
    let a = v.acknowledged(peer, resp.last_log_index);
    let f = |p: u64|
        if p == peer {
            v.leader->0.match_of(p) >= n || resp.last_log_index >= n
        } else {
            v.leader->0.match_of(p) >= n
        };
    let g = |p: u64| a.leader->0.match_of(p) >= n as int;
    assert forall|p: u64| #[trigger] f(p) == g(p) by {}
    lemma_filter_same(v.config.peers, f, g);
    assert(a.holders(n as int) == 1 + v.config.peers.filter(f).len());
    internal::lemma_best_commit(a, a.log.last_index());
    assert(a.committable(n as int) <==> 2 * (v.config.peers.filter(f).len() + 1)
        > v.config.peers.len() + 1);
}

/// A peer that refused is taken to lack more: its next index falls to the one
/// behind the end of its log, or by one, but not below 1, and what it then lacks
/// is sent at once. Nothing is committed.
pub proof fn law_refusal_moves_back(
    v: NodeView,
    peer: u64,
    resp: AppendEntriesResponse,
    now: u64,
)
    requires
        v.role == NodeRole::Leader,
        v.leader is Some,
        !resp.success,
        resp.term == v.hard_state.current_term,
        resp.last_log_index < u64::MAX,
    ensures
        ({
            let to = v.append_answered(peer, resp, now);
            let was = v.leader->0.next_of(peer);
            let is = to.leader->0.next_of(peer);
            &&& to.leader is Some
            &&& was > 1 ==> is < was
            &&& is >= 1
            &&& resp.last_log_index + 1 < was ==> is == resp.last_log_index + 1
            &&& resp.last_log_index + 1 >= was && was > 1 ==> is == was - 1
            &&& to.commit_index == v.commit_index
            &&& to.leader->0.match_of(peer) == v.leader->0.match_of(peer)
            &&& is > v.log.snapshot_index ==> to.ready.messages.len() == v.ready.messages.len() + 1
                && to.ready.messages.last().0 == peer && to.ready.messages.last().1.prev_log_index
                == is - 1
            &&& is <= v.log.snapshot_index ==> to.ready.snapshots_needed
                == v.ready.snapshots_needed.push(peer)
        }),
{
}

/// A proposal becomes the last entry of the leader's log, under its term, and
/// nothing before it changes. A sole voter commits and puts it out at once.
pub proof fn law_proposal_is_appended(v: NodeView, data: Seq<u8>)
    requires
        v.log.wf(),
        v.role == NodeRole::Leader,
        v.log.last_index() < u64::MAX,
        v.commit_index <= v.log.last_index(),
        v.ready_commit_index <= v.commit_index,
    ensures
        ({
            let to = v.proposed(data);
            let e = EntryView {
                term: v.hard_state.current_term,
                index: (v.log.last_index() + 1) as u64,
                data,
            };
            &&& to.log.entries == v.log.entries.push(e)
            &&& to.stored.entries == v.stored.entries.push(e)
            &&& to.log.snapshot_index == v.log.snapshot_index
            &&& to.hard_state == v.hard_state
            &&& to.role == v.role
            &&& v.config.peers.len() > 0 ==> to.commit_index == v.commit_index
            &&& v.config.peers.len() == 0 ==> to.commit_index == e.index
                && to.ready.committed_entries.len() > 0 && to.ready.committed_entries.last() == e
        }),
{
    let e = v.proposal(data);
    let a = v.appending(e);
    match v.leader {
        Some(l) => {
            internal::lemma_sending_all_frame(a, l.peers);
        },
        None => {},
    }
    assert(v.stored.entries + seq![e] =~= v.stored.entries.push(e));
    if v.config.peers.len() == 0 {
        let r = a.replicating();
        let c = NodeView { commit_index: e.index, ..r };
        let first = c.first_unemitted();
        assert(first <= c.commit_index);
        let out = c.log.entries.subrange(
            first - c.log.snapshot_index - 1,
            c.commit_index - c.log.snapshot_index,
        );
        assert(out.last() == e);
        assert(a.spreading() == c.emitting());
    }
}

/// Every committed entry that has not been put out is put out, as it stands in
/// the log, and counts as put out from then on.
pub proof fn law_committed_entry_is_put_out(v: NodeView, i: u64)
    requires
        v.log.wf(),
        v.commit_index <= v.log.last_index(),
        v.ready_commit_index < i <= v.commit_index,
        v.log.snapshot_index < i,
    ensures
        v.emitting().ready.committed_entries.contains(v.log.at(i as int)),
        v.emitting().ready_commit_index == v.commit_index,
        v.ready.committed_entries.is_prefix_of(v.emitting().ready.committed_entries),
{
    let first = v.first_unemitted();
    let part = v.log.entries.subrange(
        first - v.log.snapshot_index - 1,
        v.commit_index - v.log.snapshot_index,
    );
    let out = v.emitting().ready.committed_entries;
    let n = v.ready.committed_entries.len();
    assert(part[i - first] == v.log.at(i as int));
    assert(out[n + (i - first)] == v.log.at(i as int));
}

/// A snapshot whose last entry the node holds in the same term leaves what
/// follows that entry in place; with any other the old entries go. The commit
/// and applied indexes rise to it and do not fall.
pub proof fn law_snapshot_keeps_what_follows_it(
    v: NodeView,
    req: InstallSnapshotRequest,
    now: u64,
)
    requires
        v.log.wf(),
        req.term >= v.hard_state.current_term,
        req.done,
        req.last_included_index > v.log.snapshot_index,
    ensures
        ({
            let to = v.snapshot_installed(req, now);
            let i = req.last_included_index;
            let held = i <= v.log.last_index() && v.log.at(i as int).term
                == req.last_included_term;
            &&& held ==> to.log.last_index() == v.log.last_index() && forall|j: int|
                #![trigger to.log.at(j)]
                i < j <= v.log.last_index() ==> to.log.at(j) == v.log.at(j)
            &&& !held ==> to.log.entries.len() == 0 && to.log.last_index() == i
            &&& to.commit_index == if v.commit_index > i {
                v.commit_index
            } else {
                i
            }
            &&& to.last_applied == if v.last_applied > i {
                v.last_applied
            } else {
                i
            }
            &&& to.hard_state.current_term == req.term
            &&& req.term == v.hard_state.current_term ==> to.role == v.role && to.hard_state
                == v.hard_state
            &&& req.term > v.hard_state.current_term && v.role != NodeRole::Learner ==> to.role
                == NodeRole::Follower
        }),
{
    let to = v.snapshot_installed(req, now);
    let i = req.last_included_index;
    let skip = i - v.log.snapshot_index;
    if i <= v.log.last_index() && v.log.at(i as int).term == req.last_included_term {
        assert forall|j: int|
            #![trigger to.log.at(j)]
            i < j <= v.log.last_index() implies to.log.at(j) == v.log.at(j) by {
            assert(v.log.entries.skip(skip)[j - i - 1] == v.log.entries[j - v.log.snapshot_index
                - 1]);
        }
    }
}

/// Whatever changes the term or the vote puts the new ones out for storing.
pub proof fn law_changed_hard_state_is_put_out(
    v: NodeView,
    peer: u64,
    append: AppendEntriesResponse,
    vote: RequestVoteResponse,
    req: RequestVoteRequest,
    snapshot: InstallSnapshotRequest,
    now: u64,
    stored_ok: bool,
)
    ensures
        ({
            let to = v.append_answered(peer, append, now);
            to.hard_state != v.hard_state ==> to.ready.hard_state == Some(to.hard_state)
        }),
        ({
            let to = v.vote_answered(peer, vote, now, stored_ok);
            to.hard_state != v.hard_state ==> to.ready.hard_state == Some(to.hard_state)
        }),
        ({
            let to = v.canvassed(req, now);
            to.hard_state != v.hard_state ==> to.ready.hard_state == Some(to.hard_state)
        }),
        ({
            let to = v.snapshot_installed(snapshot, now);
            to.hard_state != v.hard_state ==> to.ready.hard_state == Some(to.hard_state)
        }),
        ({
            let to = v.ticked(now, stored_ok);
            to.hard_state != v.hard_state ==> to.ready.hard_state == Some(to.hard_state)
        }),
        v.ready.hard_state is Some ==> v.saved().stored.hard_state == v.ready.hard_state->0,
        v.ready.hard_state is None ==> v.saved().stored == v.stored,
{
    lemma_leading_frame(v.with_vote(peer), now, stored_ok);
    lemma_leading_frame(v.standing(now), now, stored_ok);
    match v.leader {
        Some(l) => {
            internal::lemma_sending_all_frame(v, l.peers);
        },
        None => {},
    }
}

/// A voter or learner that is added is a member from then on, one that is
/// removed is none, and every other member stays what it is.
pub proof fn law_membership_changes_one_member(v: NodeView, peer: u64, other: u64)
    requires
        other != peer,
        peer != v.config.node_id,
    ensures
        !v.config.learners.contains(peer) ==> v.with_peer(peer).config.peers.contains(peer),
        v.with_peer(peer).config.peers.contains(other) == v.config.peers.contains(other),
        v.with_peer(peer).config.learners == v.config.learners,
        !v.without_peer(peer).config.peers.contains(peer),
        v.without_peer(peer).config.peers.contains(other) == v.config.peers.contains(other),
        v.without_peer(peer).config.learners == v.config.learners,
        !v.config.peers.contains(peer) ==> v.with_learner(peer).config.learners.contains(peer),
        v.with_learner(peer).config.learners.contains(other) == v.config.learners.contains(other),
        v.with_learner(peer).config.peers == v.config.peers,
        !v.without_learner(peer).config.learners.contains(peer),
        v.without_learner(peer).config.learners.contains(other) == v.config.learners.contains(
            other,
        ),
        v.without_learner(peer).config.peers == v.config.peers,
        v.config.learners.contains(peer) ==> v.with_promoted(peer).config.peers.contains(peer)
            && !v.with_promoted(peer).config.learners.contains(peer),
        !v.config.learners.contains(peer) ==> v.with_promoted(peer) == v,
        v.with_promoted(peer).config.peers.contains(other) == v.config.peers.contains(other),
        v.with_promoted(peer).config.learners.contains(other) == v.config.learners.contains(other),
        v.role == NodeRole::Learner ==> v.self_promoted().role == NodeRole::Follower
            && !v.self_promoted().config.starts_as_learner,
        v.role != NodeRole::Learner ==> v.self_promoted() == v,
{
    state::lemma_without(v.config.peers, peer);
    state::lemma_without(v.config.learners, peer);
    lemma_push_keeps(v.config.peers, peer, other);
    lemma_push_keeps(v.config.learners, peer, other);
}

/// What a sequence contains after one more element.
proof fn lemma_push_keeps(s: Seq<u64>, x: u64, other: u64)
    requires
        other != x,
    ensures
        s.push(x).contains(x),
        s.push(x).contains(other) == s.contains(other),
{
    assert(s.push(x)[s.len() as int] == x);
    if s.contains(other) {
        let i = s.index_of(other);
        assert(s.push(x)[i] == other);
    }
    if s.push(x).contains(other) {
        let i = s.push(x).index_of(other);
        assert(s[i] == other);
    }
}

/// A leader that gets other voters has those, and keeps what it knows of the
/// ones that stay.
pub proof fn law_voters_that_stay_keep_their_progress(v: NodeView, new: Seq<u64>, p: u64)
    requires
        v.leader is Some,
        new.contains(p),
        v.config.peers.contains(p) || v.config.learners.contains(p),
    ensures
        v.with_voters(new).config.peers == new,
        v.with_voters(new).config.learners == v.config.learners,
        v.with_voters(new).leader->0.match_of(p) == v.leader->0.match_of(p),
        v.with_voters(new).leader->0.next_of(p) == v.leader->0.next_of(p),
{
    lemma_adding_keeps(v, new, p);
    let a = membership::adding_voters(
        v.leader->0,
        new,
        v.config.peers,
        v.config.learners,
        v.log.last_index(),
    );
    lemma_removing_keeps(a, new, v.config.peers, v.config.learners, p);
}

/// Adding voters leaves the records of members alone.
proof fn lemma_adding_keeps(v: NodeView, new: Seq<u64>, p: u64)
    requires
        v.leader is Some,
        v.config.peers.contains(p) || v.config.learners.contains(p),
    ensures
        ({
            let a = membership::adding_voters(
                v.leader->0,
                new,
                v.config.peers,
                v.config.learners,
                v.log.last_index(),
            );
            a.match_of(p) == v.leader->0.match_of(p) && a.next_of(p) == v.leader->0.next_of(p)
        }),
    decreases new.len(),
{
    if new.len() > 0 {
        lemma_adding_keeps(v, new.drop_last(), p);
    }
}

/// Removing voters leaves the records of those that stay alone.
proof fn lemma_removing_keeps(
    l: LeaderView,
    new: Seq<u64>,
    old_peers: Seq<u64>,
    learners: Seq<u64>,
    p: u64,
)
    requires
        new.contains(p) || learners.contains(p),
    ensures
        ({
            let r = membership::removing_voters(l, new, old_peers, learners);
            r.match_of(p) == l.match_of(p) && r.next_of(p) == l.next_of(p)
        }),
    decreases old_peers.len(),
{
    if old_peers.len() > 0 {
        lemma_removing_keeps(l, new, old_peers.drop_last(), learners, p);
    }
}

/// A proposal is sent on at once to every tracked peer that lacks nothing but
/// entries behind the snapshot: what goes to the peer ends with it.
pub proof fn law_proposal_is_sent_to_every_peer(v: NodeView, data: Seq<u8>, p: u64)
    requires
        v.log.wf(),
        v.log.last_index() < u64::MAX,
        v.leader is Some,
        v.leader->0.peers.contains(p),
        v.log.snapshot_index < v.leader->0.next_of(p) <= v.log.last_index() + 1,
        v.ready.messages.len() == 0,
    ensures
        exists|i: int|
            0 <= i < v.proposed(data).ready.messages.len() && (
            #[trigger] v.proposed(data).ready.messages[i]).0 == p
                && v.proposed(data).ready.messages[i].1.entries.len() > 0
                && v.proposed(data).ready.messages[i].1.entries.last() == (EntryView {
                term: v.hard_state.current_term,
                index: (v.log.last_index() + 1) as u64,
                data,
            }) && v.proposed(data).ready.messages[i].1.prev_log_index
                == v.leader->0.next_of(p) - 1,
{
    let e = v.proposal(data);
    let a = v.appending(e);
    lemma_spread_entry_reaches(a, e, p);
}

/// Every tracked peer behind whose next entry the log is complete gets what it
/// lacks, up to the last entry.
proof fn lemma_spread_entry_reaches(a: NodeView, e: EntryView, p: u64)
    requires
        a.leader is Some,
        a.leader->0.peers.contains(p),
        a.log.entries.len() > 0,
        a.log.entries.last() == e,
        a.log.snapshot_index < a.leader->0.next_of(p) <= a.log.last_index(),
        a.ready.messages.len() == 0,
    ensures
        exists|i: int|
            0 <= i < a.spreading().ready.messages.len() && (
            #[trigger] a.spreading().ready.messages[i]).0 == p
                && a.spreading().ready.messages[i].1.entries.len() > 0
                && a.spreading().ready.messages[i].1.entries.last() == e
                && a.spreading().ready.messages[i].1.prev_log_index == a.leader->0.next_of(p) - 1,
{
    let peers = a.leader->0.peers;
    let r = a.replicating();
    internal::lemma_sending_all_frame(a, peers);
    laws::lemma_sending_targets(a, peers);
    laws::lemma_peer_is_addressed(a, peers, p);
    let i = choose|i: int|
        0 <= i < r.ready.messages.len() && (#[trigger] r.ready.messages[i]).0 == p;
    assert(r.ready.messages[i].1 == a.append_for(p));
    assert(a.spreading().ready.messages == r.ready.messages);
    assert(a.spreading().ready.messages[i].0 == p);
}

/// A node that becomes leader tells every voter and learner at once: each is
/// sent the entry that opens the term, behind the end of the log so far.
pub proof fn law_new_leader_tells_everyone(v: NodeView, now: u64, p: u64)
    requires
        v.log.wf(),
        v.log.last_index() < u64::MAX,
        v.config.peers.contains(p) || v.config.learners.contains(p),
        v.ready.messages.len() == 0,
    ensures
        exists|i: int|
            0 <= i < v.leading(now, true).ready.messages.len() && (
            #[trigger] v.leading(now, true).ready.messages[i]).0 == p
                && v.leading(now, true).ready.messages[i].1.entries.len() > 0
                && v.leading(now, true).ready.messages[i].1.entries.last() == (EntryView {
                term: v.hard_state.current_term,
                index: (v.log.last_index() + 1) as u64,
                data: Seq::empty(),
            }) && v.leading(now, true).ready.messages[i].1.prev_log_index == v.log.last_index(),
{
    let c = v.crowned(now);
    let e = c.noop();
    let a = c.appending(e);
    law_new_leader_starts_at_its_log_end(v, p, now, false);
    let all = v.config.peers + v.config.learners;
    if v.config.peers.contains(p) {
        let i = v.config.peers.index_of(p);
        assert(all[i] == p);
    } else {
        let i = v.config.learners.index_of(p);
        assert(all[v.config.peers.len() + i] == p);
    }
    assert(a.leader->0.peers.contains(p));
    lemma_spread_entry_reaches(a, e, p);
}

/// A voter that a leader gets anew is to receive the log from its end on, and
/// nothing is taken to be replicated on it.
pub proof fn law_added_voters_start_at_log_end(v: NodeView, new: Seq<u64>, p: u64)
    requires
        v.leader is Some,
        v.log.last_index() < u64::MAX,
        new.contains(p),
        !v.config.peers.contains(p),
        !v.config.learners.contains(p),
    ensures
        v.with_voters(new).leader->0.next_of(p) == v.log.last_index() + 1,
        v.with_voters(new).leader->0.match_of(p) == 0,
{
    lemma_added_at_log_end(v, new, p);
    let a = membership::adding_voters(
        v.leader->0,
        new,
        v.config.peers,
        v.config.learners,
        v.log.last_index(),
    );
    lemma_removing_keeps(a, new, v.config.peers, v.config.learners, p);
}

/// A voter that is added is recorded at the log's end.
proof fn lemma_added_at_log_end(v: NodeView, new: Seq<u64>, p: u64)
    requires
        v.leader is Some,
        v.log.last_index() < u64::MAX,
        new.contains(p),
        !v.config.peers.contains(p),
        !v.config.learners.contains(p),
    ensures
        ({
            let a = membership::adding_voters(
                v.leader->0,
                new,
                v.config.peers,
                v.config.learners,
                v.log.last_index(),
            );
            a.next_of(p) == v.log.last_index() + 1 && a.match_of(p) == 0
        }),
    decreases new.len(),
{
    if new.last() != p {
        let i = new.index_of(p);
        assert(new.drop_last()[i] == p);
        lemma_added_at_log_end(v, new.drop_last(), p);
    }
}

} // verus!
