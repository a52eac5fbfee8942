//! What a node does at an event keeps what holds of its group.

use vstd::prelude::*;

use crate::raft::log;
use crate::raft::message::{
    AppendEntriesResponse, AppendView, EntryView, RequestVoteRequest, RequestVoteResponse,
};
use crate::raft::node::internal;
use crate::raft::node::machine::{NodeView, ReadyView};
use crate::raft::safety::growth;
use crate::raft::safety::history;
use crate::raft::safety::history::{History, Member, Members};
use crate::raft::safety::holds;
use crate::raft::safety::leading;
use crate::raft::safety::steps;
use crate::raft::safety::taking;
use crate::raft::state::NodeRole;

verus! {

/// Whether `v` is the node of member `n` in a group that holds.
pub open spec fn stands_for(
    ms: Members,
    h: History,
    voters: Set<u64>,
    n: u64,
    v: NodeView,
) -> bool {
    &&& history::sound(ms, h, voters)
    &&& ms.contains_key(n)
    &&& ms[n] == holds::member_of(v)
    &&& holds::node_ok(v, n, voters)
    &&& holds::ready_ok(v.ready, h, voters)
}

/// What is known of one member of a group that holds.
pub proof fn lemma_member(ms: Members, h: History, voters: Set<u64>, n: u64)
    requires
        history::sound(ms, h, voters),
        ms.contains_key(n),
    ensures
        history::leader_ok(ms, h, voters, n),
        history::candidate_ok(ms, h, voters, n),
        voters.contains(n) <==> ms[n].role != NodeRole::Learner,
        ms[n].commit <= ms[n].log.len(),
{
    reveal(history::sound);
    assert(history::settled(h, voters, ms[n].log, ms[n].commit as int, ms[n].term));
}

/// A node turns to following.
pub proof fn lemma_following(
    ms: Members,
    h: History,
    voters: Set<u64>,
    n: u64,
    v: NodeView,
    term: u64,
    now: u64,
)
    requires
        stands_for(ms, h, voters, n, v),
    ensures
        ({
            let to = v.following(term, now);
            &&& stands_for(ms.insert(n, holds::member_of(to)), h, voters, n, to)
            &&& to.role == NodeRole::Follower || to.role == NodeRole::Learner
        }),
{
    let to = v.following(term, now);
    steps::step_rest(ms, h, voters, n, holds::member_of(to));
}

/// What a leader sends is in order.
pub proof fn lemma_append_for(
    ms: Members,
    h: History,
    voters: Set<u64>,
    n: u64,
    v: NodeView,
    p: u64,
)
    requires
        stands_for(ms, h, voters, n, v),
        v.role == NodeRole::Leader,
    ensures
        taking::request_ok(h, voters, v.append_for(p)),
        v.append_for(p).leader_id == n,
        !v.needs_snapshot(p),
        v.leader is Some,
{
    reveal(history::sound);
    assert(history::leader_ok(ms, h, voters, n));
    let t = v.hard_state.current_term;
    let lead = h.lead[t];
    let req = v.append_for(p);
    assert(history::lead_ok(h, t));
    let next = v.leader->0.next_of(p);
    assert(1 <= ms[n].leader->0.next_of(p) <= lead.len() + 1);
    assert(v.log.entries == lead);
    if next <= v.log.last_index() {
        assert(req.entries =~= lead.subrange(next - 1, lead.len() as int));
    } else {
        assert(req.entries =~= lead.subrange(lead.len() as int, lead.len() as int));
    }
    assert(taking::end_of(req) == lead.len());
    assert(lead[lead.len() - 1] == lead.last());
    assert(history::settled(h, voters, ms[n].log, ms[n].commit as int, ms[n].term));
}

/// A leader sends something to each of some peers.
pub proof fn lemma_sending_all(
    ms: Members,
    h: History,
    voters: Set<u64>,
    n: u64,
    v: NodeView,
    peers: Seq<u64>,
)
    requires
        stands_for(ms, h, voters, n, v),
        v.role == NodeRole::Leader,
        !peers.contains(n),
    ensures
        stands_for(ms, h, voters, n, v.sending_all(peers)),
        v.sending_all(peers) == (NodeView { ready: v.sending_all(peers).ready, ..v }),
        v.sending_all(peers).ready.vote_requests == v.ready.vote_requests,
    decreases peers.len(),
{
    if peers.len() > 0 {
        let init = peers.drop_last();
        let p = peers.last();
        assert(!init.contains(n)) by {
            if init.contains(n) {
                let i = init.index_of(n);
                assert(peers[i] == n);
            }
        }
        assert(p != n) by {
            assert(peers[peers.len() - 1] == p);
        }
        lemma_sending_all(ms, h, voters, n, v, init);
        internal::lemma_sending_all_frame(v, init);
        let w = v.sending_all(init);
        lemma_append_for(ms, h, voters, n, w, p);
        assert(v.sending_all(peers) == w.sending(p));
        assert(w.sending(p).ready.messages == w.ready.messages.push((p, w.append_for(p))));
    }
}

/// Putting out committed entries changes nothing else.
pub proof fn lemma_emitting(v: NodeView)
    ensures
        v.emitting() == (NodeView {
            ready: ReadyView {
                committed_entries: v.emitting().ready.committed_entries,
                ..v.ready
            },
            ready_commit_index: v.emitting().ready_commit_index,
            ..v
        }),
{
}

/// A member counts as committed what was chosen.
pub proof fn lemma_committing(
    ms: Members,
    h: History,
    voters: Set<u64>,
    n: u64,
    v: NodeView,
    index: u64,
)
    requires
        stands_for(ms, h, voters, n, v),
        v.commit_index <= index,
        history::settled(h, voters, v.log.entries, index as int, v.hard_state.current_term),
    ensures
        ({
            let to = v.committing(index);
            &&& stands_for(ms.insert(n, holds::member_of(to)), h, voters, n, to)
            &&& to.commit_index == index
        }),
{
    reveal(history::sound);
    let to = v.committing(index);
    lemma_emitting(NodeView { commit_index: index, ..v });
    let m2 = holds::member_of(to);
    let ms2 = ms.insert(n, m2);
    assert(history::leader_ok(ms, h, voters, n));
    assert(history::candidate_ok(ms, h, voters, n));
    assert(history::leader_ok(ms2, h, voters, n));
    assert(history::candidate_ok(ms2, h, voters, n));
    steps::step_learn(ms, h, voters, n, m2);
}

/// A sole voter commits what it writes.
pub proof fn lemma_sole_voter_commits(
    ms: Members,
    h: History,
    voters: Set<u64>,
    n: u64,
    v: NodeView,
)
    requires
        stands_for(ms, h, voters, n, v),
        v.role == NodeRole::Leader,
        v.config.cluster_size() == 1,
    ensures
        history::settled(
            h,
            voters,
            v.log.entries,
            v.log.last_index(),
            v.hard_state.current_term,
        ),
{
    reveal(history::sound);
    let t = v.hard_state.current_term;
    assert(history::leader_ok(ms, h, voters, n));
    assert(history::lead_ok(h, t));
    assert(voters.contains(n));
    assert(v.config.peers.to_set() =~= Set::empty());
    let q = set![n];
    assert(voters =~= q) by {
        assert forall|x: u64| #[trigger] voters.contains(x) implies q.contains(x) by {
            if x != n {
                assert(voters.remove(n).contains(x));
            }
        }
    }
    assert(q.len() == 1);
    let i = v.log.last_index();
    assert(h.lead[t][i - 1] == h.lead[t].last());
    assert(history::is_quorum(voters, q) && history::all_took(h, q, t, i));
    assert(history::chosen(h, voters, t, i));
    assert(history::agree(v.log.entries, h.lead[t], i));
}

/// A leader sends its last entry on, and commits it at once where it is the only
/// voter.
pub proof fn lemma_spreading(ms: Members, h: History, voters: Set<u64>, n: u64, v: NodeView)
    requires
        stands_for(ms, h, voters, n, v),
        v.role == NodeRole::Leader,
        v.leader is Some,
    ensures
        ({
            let to = v.spreading();
            stands_for(ms.insert(n, holds::member_of(to)), h, voters, n, to)
        }),
{
    let l = v.leader->0;
    lemma_sending_all(ms, h, voters, n, v, l.peers);
    let r = v.replicating();
    assert(ms.insert(n, holds::member_of(r)) =~= ms);
    if v.config.cluster_size() == 1 {
        lemma_sole_voter_commits(ms, h, voters, n, r);
        lemma_member(ms, h, voters, n);
        lemma_committing(ms, h, voters, n, r, v.log.last_index() as u64);
    }
}

/// Storage mirrors a log with one more entry.
pub proof fn lemma_appending(v: NodeView, e: EntryView, n: u64, voters: Set<u64>)
    requires
        holds::node_ok(v, n, voters),
        v.log.last_index() < u64::MAX,
        e.index == v.log.last_index() + 1,
    ensures
        holds::node_ok(v.appending(e), n, voters),
        leading::written(v.log.entries, v.appending(e).log.entries, e.term),
{
    let w = v.appending(e);
    assert(w.stored.entries =~= w.log.entries);
    assert(w.log.wf()) by {
        assert forall|k: int| 0 <= k < w.log.entries.len() implies (
        #[trigger] w.log.entries[k]).index == w.log.snapshot_index + 1 + k by {
            if k < v.log.entries.len() {
                assert(w.log.entries[k] == v.log.entries[k]);
            }
        }
    }
}

/// A candidate with enough votes becomes leader.
pub proof fn lemma_leading(
    ms: Members,
    h: History,
    voters: Set<u64>,
    n: u64,
    v: NodeView,
    q: Set<u64>,
    now: u64,
) -> (h2: History)
    requires
        stands_for(ms, h, voters, n, v),
        v.role == NodeRole::Candidate,
        v.log.last_index() < u64::MAX,
        history::is_quorum(voters, q),
        history::all_voted(h, q, v.hard_state.current_term, n),
    ensures
        h.grows_to(h2),
        ({
            let to = v.leading(now, true);
            stands_for(ms.insert(n, holds::member_of(to)), h2, voters, n, to)
        }),
{
    let c = v.crowned(now);
    let peers = v.config.peers + v.config.learners;
    assert(!peers.contains(n)) by {
        if peers.contains(n) {
            let i = peers.index_of(n);
            if i < v.config.peers.len() {
                assert(v.config.peers[i] == n);
            } else {
                assert(v.config.learners[i - v.config.peers.len()] == n);
            }
        }
    }
    assert(holds::node_ok(c, n, voters));
    lemma_appending(c, c.noop(), n, voters);
    let w = c.appending(c.noop());
    let m2 = holds::member_of(w);
    let h2 = leading::after_writing(h, n, m2.term, m2.log);
    leading::step_crown(ms, h, voters, n, m2, q);
    let ms2 = ms.insert(n, m2);
    lemma_ready_grows(v.ready, h, h2, voters);
    lemma_spreading(ms2, h2, voters, n, w);
    let to = v.leading(now, true);
    assert(ms2.insert(n, holds::member_of(to)) =~= ms.insert(n, holds::member_of(to)));
    h2
}

/// What held of what is put out holds on.
pub proof fn lemma_ready_grows(r: ReadyView, h: History, to: History, voters: Set<u64>)
    requires
        holds::ready_ok(r, h, voters),
        h.grows_to(to),
    ensures
        holds::ready_ok(r, to, voters),
{
    assert forall|i: int| 0 <= i < r.messages.len() implies taking::request_ok(
        to,
        voters,
        (#[trigger] r.messages[i]).1,
    ) && r.messages[i].0 != r.messages[i].1.leader_id by {
        taking::lemma_request_grows(h, to, voters, r.messages[i].1);
    }
    assert forall|i: int| 0 <= i < r.vote_requests.len() implies holds::vote_request_ok(
        to,
        (#[trigger] r.vote_requests[i]).0,
        r.vote_requests[i].1,
    ) by {
        assert(holds::vote_request_ok(h, r.vote_requests[i].0, r.vote_requests[i].1));
    }
}

/// A voter calls an election.
pub proof fn lemma_electing(
    ms: Members,
    h: History,
    voters: Set<u64>,
    n: u64,
    v: NodeView,
    now: u64,
) -> (h2: History)
    requires
        stands_for(ms, h, voters, n, v),
        v.role == NodeRole::Follower || v.role == NodeRole::Candidate,
        v.hard_state.current_term < u64::MAX,
        v.log.last_index() < u64::MAX,
    ensures
        h.grows_to(h2),
        ({
            let to = v.electing(now, true);
            stands_for(ms.insert(n, holds::member_of(to)), h2, voters, n, to)
        }),
{
    reveal(history::sound);
    let c = v.standing(now);
    let m1 = holds::member_of(c);
    let t = c.hard_state.current_term;
    let h1 = steps::after_standing(h, n, t, m1.log);
    steps::step_stand(ms, h, voters, n, m1);
    let ms1 = ms.insert(n, m1);
    lemma_ready_grows(v.ready, h, h1, voters);
    assert(stands_for(ms1, h1, voters, n, c));
    let to = v.electing(now, true);
    assert(ms1.insert(n, holds::member_of(to)) =~= ms.insert(n, holds::member_of(to)));
    if c.config.quorum() == 1 {
        let q = set![n];
        assert(voters.contains(n));
        assert(c.config.peers.len() == 0);
        assert(c.config.peers.to_set() =~= Set::empty());
        assert(voters =~= q) by {
            assert forall|x: u64| #[trigger] voters.contains(x) implies q.contains(x) by {
                if x != n {
                    assert(voters.remove(n).contains(x));
                }
            }
        }
        assert(q.len() == 1);
        let h2 = lemma_leading(ms1, h1, voters, n, c, q, now);
        growth::lemma_grows_through(h, h1, h2);
        h2
    } else {
        let r = to.ready;
        let before = c.ready.vote_requests.len();
        assert forall|i: int| 0 <= i < r.vote_requests.len() implies holds::vote_request_ok(
            h1,
            (#[trigger] r.vote_requests[i]).0,
            r.vote_requests[i].1,
        ) by {
            if i < before {
                assert(r.vote_requests[i] == c.ready.vote_requests[i]);
            } else {
                assert(r.vote_requests[i] == (c.config.peers[i - before], c.vote_request()));
                assert(c.config.peers.contains(c.config.peers[i - before]));
            }
        }
        assert(holds::member_of(to) == m1);
        h1
    }
}

/// Time passes.
pub proof fn on_tick(
    ms: Members,
    h: History,
    voters: Set<u64>,
    n: u64,
    v: NodeView,
    now: u64,
) -> (h2: History)
    requires
        stands_for(ms, h, voters, n, v),
        v.can_tick(now),
    ensures
        h.grows_to(h2),
        ({
            let to = v.ticked(now, true);
            stands_for(ms.insert(n, holds::member_of(to)), h2, voters, n, to)
        }),
{
    if v.election_due(now) {
        lemma_electing(ms, h, voters, n, v, now)
    } else {
        growth::lemma_grows_same(h);
        let to = v.ticked(now, true);
        if v.role == NodeRole::Leader && now >= v.heartbeat_deadline {
            lemma_member(ms, h, voters, n);
            lemma_sending_all(ms, h, voters, n, v, v.leader->0.peers);
        }
        assert(ms.insert(n, holds::member_of(to)) =~= ms);
        h
    }
}

/// A leader is handed data.
pub proof fn on_propose(
    ms: Members,
    h: History,
    voters: Set<u64>,
    n: u64,
    v: NodeView,
    data: Seq<u8>,
) -> (h2: History)
    requires
        stands_for(ms, h, voters, n, v),
        v.role == NodeRole::Leader,
        v.log.last_index() < u64::MAX,
    ensures
        h.grows_to(h2),
        ({
            let to = v.proposed(data);
            stands_for(ms.insert(n, holds::member_of(to)), h2, voters, n, to)
        }),
{
    reveal(history::sound);
    assert(history::leader_ok(ms, h, voters, n));
    let e = v.proposal(data);
    lemma_appending(v, e, n, voters);
    let w = v.appending(e);
    let m2 = holds::member_of(w);
    let h2 = leading::after_writing(h, n, m2.term, m2.log);
    leading::step_extend(ms, h, voters, n, m2);
    let ms2 = ms.insert(n, m2);
    lemma_ready_grows(v.ready, h, h2, voters);
    lemma_spreading(ms2, h2, voters, n, w);
    let to = v.proposed(data);
    assert(ms2.insert(n, holds::member_of(to)) =~= ms.insert(n, holds::member_of(to)));
    h2
}

/// Storage mirrors a log that took over entries.
pub proof fn lemma_merged_mirrored(l: log::LogView, v: NodeView, prev: u64, es: Seq<EntryView>)
    requires
        v.log == l,
        l.wf(),
        l.mirrored_by(v.stored),
        log::follows(prev, es),
        prev <= l.last_index(),
    ensures
        l.merged(es).wf(),
        l.merged(es).mirrored_by(log::stored_merge(l, v.stored, es)),
        log::stored_merge(l, v.stored, es).hard_state == v.stored.hard_state,
{
    log::lemma_merged_wf(l, prev, es);
    log::lemma_covered_range(l, es);
    let k = l.covered(es);
    if k < es.len() {
        let from = es[k].index;
        if l.conflicts(es) {
            log::lemma_filter_below(l.snapshot_index, l.entries, from);
            assert(log::stored_merge(l, v.stored, es).entries =~= l.merged(es).entries);
        } else {
            assert(l.cut(from).entries =~= l.entries);
            assert(log::stored_merge(l, v.stored, es).entries =~= l.merged(es).entries);
        }
    }
}

/// An append request arrives.
pub proof fn on_append(
    ms: Members,
    h: History,
    voters: Set<u64>,
    n: u64,
    v: NodeView,
    req: AppendView,
    now: u64,
    to: NodeView,
    resp: AppendEntriesResponse,
) -> (h2: History)
    requires
        stands_for(ms, h, voters, n, v),
        taking::request_ok(h, voters, req),
        req.leader_id != n,
        v.append_handled(req, now, true, to, resp),
    ensures
        h.grows_to(h2),
        stands_for(ms.insert(n, holds::member_of(to)), h2, voters, n, to),
        holds::append_reply_ok(h2, n, resp),
        to.commit_index >= v.commit_index,
{
    growth::lemma_grows_same(h);
    if req.term < v.hard_state.current_term {
        assert(ms.insert(n, holds::member_of(to)) =~= ms);
        h
    } else {
        lemma_append_heard(ms, h, voters, n, v, req, now, to, resp)
    }
}

/// An append request of a term that is not over arrives.
proof fn lemma_append_heard(
    ms: Members,
    h: History,
    voters: Set<u64>,
    n: u64,
    v: NodeView,
    req: AppendView,
    now: u64,
    to: NodeView,
    resp: AppendEntriesResponse,
) -> (h2: History)
    requires
        stands_for(ms, h, voters, n, v),
        taking::request_ok(h, voters, req),
        req.leader_id != n,
        req.term >= v.hard_state.current_term,
        v.append_handled(req, now, true, to, resp),
    ensures
        h.grows_to(h2),
        stands_for(ms.insert(n, holds::member_of(to)), h2, voters, n, to),
        holds::append_reply_ok(h2, n, resp),
        to.commit_index >= v.commit_index,
{
    growth::lemma_grows_same(h);
    lemma_member(ms, h, voters, n);
    let b = if req.term > v.hard_state.current_term || v.role == NodeRole::Candidate {
        v.following(req.term, now)
    } else {
        v
    };
    let heard = v.hearing(req.term, req.leader_id, now);
    let ms1 = ms.insert(n, holds::member_of(heard));
    if req.term > v.hard_state.current_term || v.role == NodeRole::Candidate {
        lemma_following(ms, h, voters, n, v, req.term, now);
        assert(holds::member_of(heard) == holds::member_of(b));
    } else {
        assert(ms1 =~= ms);
    }
    assert(stands_for(ms1, h, voters, n, heard));
    assert(ms1.insert(n, holds::member_of(to)) =~= ms.insert(n, holds::member_of(to)));
    if !heard.prev_matches(req) || !log::follows(req.prev_log_index, req.entries) {
        h
    } else {
        let h2 = lemma_accepting(ms1, h, voters, n, heard, req);
        assert(to == heard.accepting(req));
        h2
    }
}

/// A member takes over what a leader of its term sent, and the leader's commit
/// index as far as it has the entries.
proof fn lemma_accepting(
    ms: Members,
    h: History,
    voters: Set<u64>,
    n: u64,
    v: NodeView,
    req: AppendView,
) -> (h2: History)
    requires
        stands_for(ms, h, voters, n, v),
        taking::request_ok(h, voters, req),
        req.term == v.hard_state.current_term,
        v.role == NodeRole::Follower || v.role == NodeRole::Learner,
        v.prev_matches(req),
        log::follows(req.prev_log_index, req.entries),
    ensures
        h.grows_to(h2),
        ({
            let to = v.accepting(req);
            &&& stands_for(ms.insert(n, holds::member_of(to)), h2, voters, n, to)
            &&& h2.ack(n, req.term) == to.log.last_index()
            &&& to.hard_state == v.hard_state
            &&& to.commit_index >= v.commit_index
        }),
{
    let l = v.log;
    let m = l.merged(req.entries);
    let h2 = taking::after_taking(h, n, req.term, m.entries.len() as int);
    taking::step_take(ms, h, voters, n, l, req);
    assert(req.prev_log_index <= l.last_index());
    lemma_merged_mirrored(l, v, req.prev_log_index, req.entries);
    lemma_ready_grows(v.ready, h, h2, voters);
    let w = NodeView {
        log: m,
        stored: log::stored_merge(l, v.stored, req.entries),
        ..v
    };
    let ms2 = ms.insert(n, holds::member_of(w));
    assert(holds::member_of(w) == (Member { log: m.entries, ..ms[n] }));
    assert(stands_for(ms2, h2, voters, n, w));
    assert(h2.ack(n, req.term) == m.entries.len());
    let to = v.accepting(req);
    assert(ms2.insert(n, holds::member_of(to)) =~= ms.insert(n, holds::member_of(to)));
    if req.leader_commit > w.commit_index {
        let k = crate::raft::node::rpc::lesser(req.leader_commit as int, m.last_index()) as u64;
        let lead = h.lead[req.term];
        lemma_settled_less(h, voters, lead, req.leader_commit as int, k as int, req.term);
        growth::lemma_agree_less(m.entries, lead, m.entries.len() as int, k as int);
        growth::lemma_settled_grows(h, h2, voters, lead, m.entries, k as int, req.term, req.term);
        lemma_committing(ms2, h2, voters, n, w, k);
        lemma_emitting(NodeView { commit_index: k, ..w });
    } else {
        assert(to == w);
    }
    h2
}

/// What is settled is settled up to any earlier place.
pub proof fn lemma_settled_less(
    h: History,
    voters: Set<u64>,
    log: Seq<EntryView>,
    k: int,
    x: int,
    limit: u64,
)
    requires
        history::settled(h, voters, log, k, limit),
        0 <= x <= k,
    ensures
        history::settled(h, voters, log, x, limit),
{
    if x > 0 {
        let (t, i) = choose|t: u64, i: int| #[trigger]
            history::chosen(h, voters, t, i) && t <= limit && k <= i && history::agree(
                log,
                h.lead[t],
                k,
            );
        growth::lemma_agree_less(log, h.lead[t], k, x);
        assert(history::chosen(h, voters, t, i) && t <= limit && x <= i && history::agree(
            log,
            h.lead[t],
            x,
        ));
    }
}

/// A vote request arrives.
pub proof fn on_vote_request(
    ms: Members,
    h: History,
    voters: Set<u64>,
    n: u64,
    v: NodeView,
    req: RequestVoteRequest,
    now: u64,
) -> (h2: History)
    requires
        stands_for(ms, h, voters, n, v),
        holds::vote_request_ok(h, n, req),
    ensures
        h.grows_to(h2),
        ({
            let to = v.canvassed(req, now);
            &&& stands_for(ms.insert(n, holds::member_of(to)), h2, voters, n, to)
            &&& holds::vote_reply_ok(h2, n, req.candidate_id, to.vote_reply(v.grants(req)))
        }),
{
    reveal(history::sound);
    growth::lemma_grows_same(h);
    let to = v.canvassed(req, now);
    if v.role == NodeRole::Learner {
        assert(ms.insert(n, holds::member_of(to)) =~= ms);
        h
    } else {
        let b = v.catching_up(req.term, now);
        let ms1 = ms.insert(n, holds::member_of(b));
        if req.term > v.hard_state.current_term {
            lemma_following(ms, h, voters, n, v, req.term, now);
        } else {
            assert(ms1 =~= ms);
        }
        assert(ms1.insert(n, holds::member_of(to)) =~= ms.insert(n, holds::member_of(to)));
        if v.grants(req) {
            let c = req.candidate_id;
            let h2 = steps::after_voting(h, n, req.term, c);
            steps::step_vote(ms1, h, voters, n, c);
            lemma_ready_grows(b.ready, h, h2, voters);
            assert(holds::member_of(to) == (Member { voted_for: c, ..ms1[n] }));
            h2
        } else {
            h
        }
    }
}

/// An answer to a vote request arrives.
pub proof fn on_vote_reply(
    ms: Members,
    h: History,
    voters: Set<u64>,
    n: u64,
    v: NodeView,
    from: u64,
    resp: RequestVoteResponse,
    now: u64,
) -> (h2: History)
    requires
        stands_for(ms, h, voters, n, v),
        holds::vote_reply_ok(h, from, n, resp),
        v.log.last_index() < u64::MAX,
    ensures
        h.grows_to(h2),
        ({
            let to = v.vote_answered(from, resp, now, true);
            stands_for(ms.insert(n, holds::member_of(to)), h2, voters, n, to)
        }),
{
    reveal(history::sound);
    growth::lemma_grows_same(h);
    let to = v.vote_answered(from, resp, now, true);
    if resp.term > v.hard_state.current_term {
        lemma_following(ms, h, voters, n, v, resp.term, now);
        h
    } else if resp.term < v.hard_state.current_term || v.role != NodeRole::Candidate
        || !resp.vote_granted {
        assert(ms.insert(n, holds::member_of(to)) =~= ms);
        h
    } else {
        let w = v.with_vote(from);
        let m1 = holds::member_of(w);
        let ms1 = ms.insert(n, m1);
        let t = v.hard_state.current_term;
        assert(history::candidate_ok(ms, h, voters, n));
        assert(history::leader_ok(ms1, h, voters, n));
        assert(history::candidate_ok(ms1, h, voters, n));
        assert(history::settled(h, voters, ms[n].log, ms[n].commit as int, ms[n].term));
        steps::step_learn(ms, h, voters, n, m1);
        assert(stands_for(ms1, h, voters, n, w));
        assert(ms1.insert(n, holds::member_of(to)) =~= ms.insert(n, holds::member_of(to)));
        if w.won() {
            let q = w.votes.insert(n);
            lemma_majority(w.config.peers, voters, n, q.len());
            assert forall|p: u64| #[trigger] q.contains(p) implies h.votes.contains_key((p, t))
                && h.votes[(p, t)] == n && voters.contains(p) by {
                if p != n {
                    assert(w.votes.contains(p));
                }
                assert(h.votes.contains_key((p, t)));
            }
            assert(history::is_quorum(voters, q));
            lemma_leading(ms1, h, voters, n, w, q, now)
        } else {
            h
        }
    }
}

/// A quorum by the node's count is more than half of the voters.
pub proof fn lemma_majority(peers: Seq<u64>, voters: Set<u64>, n: u64, count: nat)
    requires
        voters.finite(),
        voters.contains(n),
        peers.no_duplicates(),
        peers.to_set() == voters.remove(n),
        count >= (peers.len() + 1) / 2 + 1,
    ensures
        2 * count > voters.len(),
{
    peers.unique_seq_to_set();
}

/// The elements that pass a test occur once if they did before, and all pass it.
pub proof fn lemma_filter_set(s: Seq<u64>, keep: spec_fn(u64) -> bool)
    requires
        s.no_duplicates(),
    ensures
        s.filter(keep).no_duplicates(),
        forall|x: u64| #[trigger] s.filter(keep).contains(x) ==> s.contains(x) && keep(x),
    decreases s.len(),
{
    reveal(Seq::filter);
    if s.len() > 0 {
        let init = s.drop_last();
        let last = s.last();
        lemma_filter_set(init, keep);
        let f = init.filter(keep);
        assert forall|x: u64| #[trigger] init.contains(x) implies s.contains(x) && x != last by {
            let i = init.index_of(x);
            assert(s[i] == x);
        }
        assert(s.contains(last)) by {
            assert(s[s.len() - 1] == last);
        }
        if keep(last) {
            let g = f.push(last);
            assert(s.filter(keep) == g);
            assert forall|x: u64| #[trigger] g.contains(x) implies s.contains(x) && keep(x) by {
                if x != last {
                    let i = g.index_of(x);
                    assert(f[i] == x);
                    assert(f.contains(x));
                }
            }
            assert forall|i: int, j: int| 0 <= i < g.len() && 0 <= j < g.len() && i != j implies g[i]
                != g[j] by {
                if i < f.len() {
                    assert(f.contains(f[i]));
                }
                if j < f.len() {
                    assert(f.contains(f[j]));
                }
            }
        }
    }
}

/// An entry that enough voters hold, by the leader's record, was chosen.
pub proof fn lemma_committable(
    ms: Members,
    h: History,
    voters: Set<u64>,
    n: u64,
    v: NodeView,
    i: int,
)
    requires
        stands_for(ms, h, voters, n, v),
        v.role == NodeRole::Leader,
        v.committable(i),
    ensures
        history::settled(h, voters, v.log.entries, i, v.hard_state.current_term),
{
    reveal(history::sound);
    let t = v.hard_state.current_term;
    let l = v.leader->0;
    let keep = |p: u64| v.leader->0.match_of(p) >= i;
    assert(history::leader_ok(ms, h, voters, n));
    assert(history::lead_ok(h, t));
    let peers = v.config.peers;
    let f = peers.filter(keep);
    lemma_filter_set(peers, keep);
    f.unique_seq_to_set();
    let q = f.to_set().insert(n);
    assert(!f.to_set().contains(n)) by {
        if f.to_set().contains(n) {
            assert(f.contains(n));
            assert(peers.contains(n));
        }
    }
    assert(v.holders(i) == 1 + f.len());
    assert(q.len() == 1 + f.len());
    assert(voters.contains(n));
    lemma_majority(peers, voters, n, q.len());
    assert(q.subset_of(voters)) by {
        assert forall|p: u64| #[trigger] q.contains(p) implies voters.contains(p) by {
            if p != n {
                assert(f.contains(p));
                assert(peers.to_set().contains(p));
                assert(voters.remove(n).contains(p));
            }
        }
    }
    assert(history::all_took(h, q, t, i)) by {
        assert forall|p: u64| #[trigger] q.contains(p) implies h.ack(p, t) >= i by {
            if p != n {
                assert(f.contains(p));
                assert(keep(p));
                assert(ms[n].leader->0.match_of(p) <= h.ack(p, t));
            }
        }
    }
    assert(history::is_quorum(voters, q) && history::all_took(h, q, t, i));
    assert(h.lead[t][i - 1] == v.log.at(i));
    assert(history::chosen(h, voters, t, i));
    assert(history::agree(v.log.entries, h.lead[t], i));
}

/// An answer to an append request arrives.
pub proof fn on_append_reply(
    ms: Members,
    h: History,
    voters: Set<u64>,
    n: u64,
    v: NodeView,
    from: u64,
    resp: AppendEntriesResponse,
    now: u64,
)
    requires
        stands_for(ms, h, voters, n, v),
        holds::append_reply_ok(h, from, resp),
        from != n,
        resp.last_log_index < u64::MAX,
    ensures
        ({
            let to = v.append_answered(from, resp, now);
            stands_for(ms.insert(n, holds::member_of(to)), h, voters, n, to)
        }),
{
    reveal(history::sound);
    let to = v.append_answered(from, resp, now);
    if resp.term > v.hard_state.current_term {
        lemma_following(ms, h, voters, n, v, resp.term, now);
    } else if resp.term < v.hard_state.current_term || v.role != NodeRole::Leader
        || v.leader is None {
        assert(ms.insert(n, holds::member_of(to)) =~= ms);
    } else {
        let last = resp.last_log_index;
        let t = v.hard_state.current_term;
        let w = if resp.success {
            v.acknowledged(from, last)
        } else {
            v.backed_off(from, last)
        };
        let m1 = holds::member_of(w);
        let ms1 = ms.insert(n, m1);
        assert(history::leader_ok(ms, h, voters, n));
        let l = v.leader->0;
        let l1 = w.leader->0;
        assert forall|p: u64| #![trigger l1.match_of(p)] l1.match_of(p) <= h.ack(p, t) by {
            assert(ms[n].leader->0.match_of(p) <= h.ack(p, t));
        }
        assert(h.ack(from, t) <= h.lead[t].len()) by {
            assert(0 <= h.ack(from, t));
        }
        assert forall|p: u64|
            #![trigger l1.next_of(p)]
            1 <= l1.next_of(p) <= v.log.entries.len() + 1 by {
            assert(1 <= ms[n].leader->0.next_of(p) <= ms[n].log.len() + 1);
        }
        assert(history::leader_ok(ms1, h, voters, n));
        assert(history::candidate_ok(ms1, h, voters, n));
        assert(history::settled(h, voters, ms[n].log, ms[n].commit as int, ms[n].term));
        steps::step_learn(ms, h, voters, n, m1);
        assert(stands_for(ms1, h, voters, n, w));
        assert(ms1.insert(n, holds::member_of(to)) =~= ms.insert(n, holds::member_of(to)));
        if resp.success {
            if v.config.peers.contains(from) {
                let i = w.best_commit(w.log.last_index());
                internal::lemma_best_commit(w, w.log.last_index());
                if i > w.commit_index {
                    lemma_committable(ms1, h, voters, n, w, i);
                    lemma_committing(ms1, h, voters, n, w, i as u64);
                } else {
                    assert(to == w);
                    assert(ms1.insert(n, holds::member_of(to)) =~= ms1);
                }
            }
        } else {
            lemma_append_for(ms1, h, voters, n, w, from);
            assert(to.ready.messages == w.ready.messages.push((from, w.append_for(from))));
            assert(ms1.insert(n, holds::member_of(to)) =~= ms1);
        }
    }
}

/// A node restarts from what it stored.
pub proof fn on_restart(
    ms: Members,
    h: History,
    voters: Set<u64>,
    n: u64,
    v: NodeView,
    now: u64,
)
    requires
        stands_for(ms, h, voters, n, v),
        v.stored.hard_state == v.hard_state,
    ensures
        ({
            let to = NodeView::booting(v.config, v.stored, now).restored(now);
            stands_for(ms.insert(n, holds::member_of(to)), h, voters, n, to)
        }),
{
    let to = NodeView::booting(v.config, v.stored, now).restored(now);
    log::lemma_filter_above(0, v.log.entries, 0);
    assert(v.log.entries.skip(0) =~= v.log.entries);
    assert(to.log.entries == v.log.entries);
    assert(to.log.mirrored_by(to.stored));
    lemma_member(ms, h, voters, n);
    steps::step_rest(ms, h, voters, n, holds::member_of(to));
}

} // verus!
