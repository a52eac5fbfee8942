//! What can be relied on of a single node.

use vstd::prelude::*;

use crate::raft::log;
use crate::raft::message::{
    AppendEntriesResponse, AppendView, EntryView, InstallSnapshotRequest, RequestVoteRequest,
    RequestVoteResponse,
};
use crate::raft::node::config::ConfigView;
use crate::raft::node::internal;
use crate::raft::node::machine::{NodeView, ReadyView};
use crate::raft::node::membership;
use crate::raft::node::rpc;
use crate::raft::state;
use crate::raft::state::{LeaderView, NodeRole};
use crate::raft::storage::StoredView;

verus! {

/// Spreading the last entry changes neither role, term, log nor storage.
proof fn lemma_spreading_frame(v: NodeView)
    ensures
        v.spreading().role == v.role,
        v.spreading().hard_state == v.hard_state,
        v.spreading().log == v.log,
        v.spreading().stored == v.stored,
        v.spreading().leader == v.leader,
{
    match v.leader {
        Some(l) => {
            internal::lemma_sending_all_frame(v, l.peers);
        },
        None => {},
    }
}

/// A node that becomes leader opens its term with an empty entry of that term.
pub proof fn law_leader_opens_its_term(
    v: NodeView,
    peer: u64,
    resp: RequestVoteResponse,
    now: u64,
)
    requires
        v.log.last_index() < u64::MAX,
        v.hard_state.current_term < u64::MAX,
    ensures
        ({
            let to = v.vote_answered(peer, resp, now, true);
            v.role != NodeRole::Leader && to.role == NodeRole::Leader ==> to.log
                == v.log.appended(
                EntryView {
                    term: to.hard_state.current_term,
                    index: (v.log.last_index() + 1) as u64,
                    data: Seq::empty(),
                },
            ) && to.hard_state == v.hard_state
        }),
        ({
            let to = v.ticked(now, true);
            v.role != NodeRole::Leader && to.role == NodeRole::Leader ==> to.log
                == v.log.appended(
                EntryView {
                    term: to.hard_state.current_term,
                    index: (v.log.last_index() + 1) as u64,
                    data: Seq::empty(),
                },
            ) && to.hard_state.current_term == v.hard_state.current_term + 1
        }),
{
    let a = v.with_vote(peer).crowned(now);
    lemma_spreading_frame(a.appending(a.noop()));
    let b = v.standing(now).crowned(now);
    lemma_spreading_frame(b.appending(b.noop()));
}

/// A leader moves its commit index on an answer only to an entry of its own
/// term that a quorum of voters holds.
pub proof fn law_leader_commits_own_term(
    v: NodeView,
    peer: u64,
    resp: AppendEntriesResponse,
    now: u64,
)
    requires
        v.log.wf(),
    ensures
        ({
            let to = v.append_answered(peer, resp, now);
            to.commit_index != v.commit_index ==> {
                &&& v.role == NodeRole::Leader
                &&& to.commit_index > v.commit_index
                &&& to.commit_index <= v.log.last_index()
                &&& to.log.term_at(to.commit_index as int) == Some(to.hard_state.current_term)
                &&& to.holders(to.commit_index as int) >= to.config.quorum()
            }
        }),
{
    let to = v.append_answered(peer, resp, now);
    if v.leader is Some && to.commit_index != v.commit_index {
        let w = v.acknowledged(peer, resp.last_log_index);
        let i = w.best_commit(w.log.last_index());
        internal::lemma_best_commit(w, w.log.last_index());
        assert(w.committable(i));
        let f = |p: u64| w.leader->0.match_of(p) >= i;
        let g = |p: u64| to.leader->0.match_of(p) >= to.commit_index;
        assert(to.leader == w.leader);
        assert(to.commit_index == i);
        assert(f =~= g);
    }
}

/// An answer of a term that is over changes nothing.
pub proof fn law_stale_answers_are_ignored(
    v: NodeView,
    peer: u64,
    append: AppendEntriesResponse,
    vote: RequestVoteResponse,
    now: u64,
    stored_ok: bool,
)
    requires
        append.term < v.hard_state.current_term,
        vote.term < v.hard_state.current_term,
    ensures
        v.append_answered(peer, append, now) == v,
        v.vote_answered(peer, vote, now, stored_ok) == v,
{
}

/// A request of a term that is over is refused and changes nothing.
pub proof fn law_stale_requests_are_refused(
    v: NodeView,
    req: AppendView,
    vote: RequestVoteRequest,
    snapshot: InstallSnapshotRequest,
    now: u64,
    reliable: bool,
    to: NodeView,
    resp: AppendEntriesResponse,
)
    requires
        req.term < v.hard_state.current_term,
        vote.term < v.hard_state.current_term,
        snapshot.term < v.hard_state.current_term,
        v.append_handled(req, now, reliable, to, resp),
    ensures
        to == v && !resp.success && resp.term == v.hard_state.current_term,
        v.canvassed(vote, now) == v && !v.grants(vote),
        v.snapshot_installed(snapshot, now) == v,
{
}

/// A learner calls no election, gives no vote and wins none.
pub proof fn law_learners_stay_out_of_elections(
    v: NodeView,
    req: RequestVoteRequest,
    peer: u64,
    resp: RequestVoteResponse,
    now: u64,
    stored_ok: bool,
)
    requires
        v.role == NodeRole::Learner,
    ensures
        v.ticked(now, stored_ok) == v,
        !v.grants(req),
        v.canvassed(req, now) == v,
        v.vote_answered(peer, resp, now, stored_ok).role == NodeRole::Learner,
{
}

/// A learner that takes over entries stays a learner.
pub proof fn law_learner_replicates(
    v: NodeView,
    req: AppendView,
    now: u64,
    reliable: bool,
    to: NodeView,
    resp: AppendEntriesResponse,
)
    requires
        v.role == NodeRole::Learner,
        v.append_handled(req, now, reliable, to, resp),
    ensures
        to.role == NodeRole::Learner,
{
}

/// An answer from a learner is recorded but commits nothing.
pub proof fn law_learner_answers_do_not_commit(
    v: NodeView,
    peer: u64,
    resp: AppendEntriesResponse,
    now: u64,
)
    requires
        v.role == NodeRole::Leader,
        v.leader is Some,
        !v.config.peers.contains(peer),
        resp.success,
        resp.term == v.hard_state.current_term,
        resp.last_log_index < u64::MAX,
    ensures
        v.append_answered(peer, resp, now).commit_index == v.commit_index,
        v.append_answered(peer, resp, now).leader is Some,
        v.append_answered(peer, resp, now).leader->0.match_of(peer) >= resp.last_log_index,
{
}

/// Learners do not count: adding or removing one changes no quorum, and
/// promoting one makes it a voter that keeps its recorded progress.
pub proof fn law_quorum_counts_voters(v: NodeView, peer: u64)
    ensures
        v.with_learner(peer).config.quorum() == v.config.quorum(),
        v.without_learner(peer).config.quorum() == v.config.quorum(),
        v.config.learners.contains(peer) && !v.config.peers.contains(peer) ==> {
            let to = v.with_promoted(peer);
            &&& to.config.peers.contains(peer)
            &&& !to.config.learners.contains(peer)
            &&& to.config.cluster_size() == v.config.cluster_size() + 1
            &&& to.leader == v.leader
        },
{
    if v.config.learners.contains(peer) && !v.config.peers.contains(peer) {
        state::lemma_without(v.config.learners, peer);
        let to = v.with_promoted(peer);
        assert(to.config.peers[v.config.peers.len() as int] == peer);
    }
}

/// Whether a leader tracks exactly its voters and learners.
pub open spec fn tracks_members(v: NodeView) -> bool {
    v.leader matches Some(l) ==> forall|p: u64| #[trigger]
        l.peers.contains(p) <==> v.config.peers.contains(p) || v.config.learners.contains(p)
}

/// What a sequence contains after one more element.
proof fn lemma_push_contains(s: Seq<u64>, x: u64, p: u64)
    ensures
        s.push(x).contains(p) <==> s.contains(p) || p == x,
{
    if s.contains(p) {
        let i = s.index_of(p);
        assert(s.push(x)[i] == p);
    }
    if p == x {
        assert(s.push(x)[s.len() as int] == p);
    }
    if s.push(x).contains(p) && p != x {
        let i = s.push(x).index_of(p);
        assert(s[i] == p);
    }
}

/// Which peers are tracked after voters were added.
proof fn lemma_adding_voters(
    l: LeaderView,
    new: Seq<u64>,
    old_peers: Seq<u64>,
    learners: Seq<u64>,
    last: int,
    p: u64,
)
    ensures
        membership::adding_voters(l, new, old_peers, learners, last).peers.contains(p) <==> (
        l.peers.contains(p) || (new.contains(p) && !old_peers.contains(p) && !learners.contains(
            p,
        ))),
    decreases new.len(),
{
    if new.len() > 0 {
        let init = new.drop_last();
        let x = new.last();
        lemma_adding_voters(l, init, old_peers, learners, last, p);
        assert(new =~= init.push(x));
        lemma_push_contains(init, x, p);
        let r = membership::adding_voters(l, init, old_peers, learners, last);
        lemma_push_contains(r.peers, x, p);
    }
}

/// Which peers are tracked after voters were removed.
proof fn lemma_removing_voters(
    l: LeaderView,
    new: Seq<u64>,
    old_peers: Seq<u64>,
    learners: Seq<u64>,
    p: u64,
)
    ensures
        membership::removing_voters(l, new, old_peers, learners).peers.contains(p) <==> (
        l.peers.contains(p) && !(old_peers.contains(p) && !new.contains(p) && !learners.contains(
            p,
        ))),
    decreases old_peers.len(),
{
    if old_peers.len() > 0 {
        let init = old_peers.drop_last();
        let x = old_peers.last();
        lemma_removing_voters(l, new, init, learners, p);
        assert(old_peers =~= init.push(x));
        lemma_push_contains(init, x, p);
        let r = membership::removing_voters(l, new, init, learners);
        state::lemma_without(r.peers, x);
    }
}

/// A new leader tracks exactly its voters and learners, and every change of
/// membership keeps it so. (A learner is removed only where it is no voter.)
pub proof fn law_leader_tracks_members(v: NodeView, peer: u64, new: Seq<u64>, now: u64)
    ensures
        tracks_members(v.crowned(now)),
        tracks_members(v) ==> tracks_members(v.with_peer(peer)),
        tracks_members(v) ==> tracks_members(v.without_peer(peer)),
        tracks_members(v) ==> tracks_members(v.with_learner(peer)),
        tracks_members(v) && !v.config.peers.contains(peer) ==> tracks_members(
            v.without_learner(peer),
        ),
        tracks_members(v) ==> tracks_members(v.with_promoted(peer)),
        tracks_members(v) ==> tracks_members(v.with_voters(new)),
{
    let ps = v.config.peers;
    let ls = v.config.learners;
    assert forall|p: u64| #[trigger] (ps + ls).contains(p) <==> ps.contains(p) || ls.contains(p) by {
        if ps.contains(p) {
            let i = ps.index_of(p);
            assert((ps + ls)[i] == p);
        }
        if ls.contains(p) {
            let i = ls.index_of(p);
            assert((ps + ls)[ps.len() + i] == p);
        }
        if (ps + ls).contains(p) {
            let i = (ps + ls).index_of(p);
            if i < ps.len() {
                assert(ps[i] == p);
            } else {
                assert(ls[i - ps.len()] == p);
            }
        }
    }
    state::lemma_without(ps, peer);
    state::lemma_without(ls, peer);
    assert forall|p: u64| #[trigger] ps.push(peer).contains(p) <==> ps.contains(p) || p == peer by {
        lemma_push_contains(ps, peer, p);
    }
    assert forall|p: u64| #[trigger] ls.push(peer).contains(p) <==> ls.contains(p) || p == peer by {
        lemma_push_contains(ls, peer, p);
    }
    if v.leader is Some && tracks_members(v) {
        let l = v.leader->0;
        state::lemma_without(l.peers, peer);
        assert forall|p: u64| #[trigger] l.peers.push(peer).contains(p) <==> l.peers.contains(p)
            || p == peer by {
            lemma_push_contains(l.peers, peer, p);
        }
        let a = membership::adding_voters(l, new, ps, ls, v.log.last_index());
        let r = membership::removing_voters(a, new, ps, ls);
        assert forall|p: u64| #[trigger] r.peers.contains(p) <==> new.contains(p) || ls.contains(
            p,
        ) by {
            lemma_adding_voters(l, new, ps, ls, v.log.last_index(), p);
            lemma_removing_voters(a, new, ps, ls, p);
        }
    }
}

/// A member that a leader starts to track gets the log from its end on, and
/// nothing is taken to be replicated on it.
pub proof fn law_new_members_start_at_log_end(v: NodeView, peer: u64)
    requires
        v.leader is Some,
        !v.is_member(peer),
        v.log.last_index() < u64::MAX,
    ensures
        v.with_peer(peer).leader->0.next_of(peer) == v.log.last_index() + 1,
        v.with_peer(peer).leader->0.match_of(peer) == 0,
        v.with_learner(peer).leader->0.next_of(peer) == v.log.last_index() + 1,
        v.with_learner(peer).leader->0.match_of(peer) == 0,
{
}

/// Who gets something when something goes out to `peers`.
pub proof fn lemma_sending_targets(v: NodeView, peers: Seq<u64>)
    requires
        v.leader is Some,
    ensures
        ({
            let to = v.sending_all(peers);
            &&& to.ready.messages.len() + to.ready.snapshots_needed.len()
                == v.ready.messages.len() + v.ready.snapshots_needed.len() + peers.len()
            &&& forall|p: u64| #[trigger]
                to.ready.snapshots_needed.contains(p) <==> v.ready.snapshots_needed.contains(p)
                    || (peers.contains(p) && v.needs_snapshot(p))
            &&& forall|i: int|
                v.ready.messages.len() <= i < to.ready.messages.len() ==> peers.contains(
                    (#[trigger] to.ready.messages[i]).0,
                ) && !v.needs_snapshot(to.ready.messages[i].0) && to.ready.messages[i].1
                    == v.append_for(to.ready.messages[i].0)
            &&& forall|i: int|
                0 <= i < v.ready.messages.len() ==> #[trigger] to.ready.messages[i]
                    == v.ready.messages[i]
            &&& v.ready.messages.len() <= to.ready.messages.len()
        }),
    decreases peers.len(),
{
    if peers.len() > 0 {
        let init = peers.drop_last();
        let x = peers.last();
        lemma_sending_targets(v, init);
        internal::lemma_sending_all_frame(v, init);
        let w = v.sending_all(init);
        let to = v.sending_all(peers);
        assert(peers =~= init.push(x));
        assert forall|p: u64| #[trigger] peers.contains(p) <==> init.contains(p) || p == x by {
            lemma_push_contains(init, x, p);
        }
        assert(w.append_for(x) == v.append_for(x));
        assert(w.needs_snapshot(x) == v.needs_snapshot(x));
        assert forall|p: u64| #[trigger]
            to.ready.snapshots_needed.contains(p) <==> v.ready.snapshots_needed.contains(p) || (
            peers.contains(p) && v.needs_snapshot(p)) by {
            lemma_push_contains(w.ready.snapshots_needed, x, p);
        }
        assert forall|i: int|
            v.ready.messages.len() <= i < to.ready.messages.len() implies peers.contains(
            (#[trigger] to.ready.messages[i]).0,
        ) && !v.needs_snapshot(to.ready.messages[i].0) && to.ready.messages[i].1 == v.append_for(
            to.ready.messages[i].0,
        ) by {
            if i < w.ready.messages.len() {
                assert(to.ready.messages[i] == w.ready.messages[i]);
            }
        }
        assert forall|i: int| 0 <= i < v.ready.messages.len() implies #[trigger] to.ready.messages[i]
            == v.ready.messages[i] by {
            assert(to.ready.messages[i] == w.ready.messages[i]);
        }
    }
}

/// A heartbeat sends every tracked peer the entries it lacks, or notes that it
/// needs a snapshot because they have been compacted away.
pub proof fn law_heartbeat_reaches_every_peer(v: NodeView, now: u64, stored_ok: bool)
    requires
        v.role == NodeRole::Leader,
        v.leader is Some,
        now >= v.heartbeat_deadline,
        v.ready == ReadyView::empty(),
    ensures
        ({
            let to = v.ticked(now, stored_ok);
            let peers = v.leader->0.peers;
            &&& to.ready.messages.len() + to.ready.snapshots_needed.len() == peers.len()
            &&& forall|p: u64| #[trigger]
                to.ready.snapshots_needed.contains(p) <==> peers.contains(p) && v.needs_snapshot(p)
            &&& forall|i: int|
                0 <= i < to.ready.messages.len() ==> peers.contains(
                    (#[trigger] to.ready.messages[i]).0,
                ) && to.ready.messages[i].1 == v.append_for(to.ready.messages[i].0)
            &&& forall|p: u64| #[trigger]
                peers.contains(p) && !v.needs_snapshot(p) ==> exists|i: int|
                    0 <= i < to.ready.messages.len() && (#[trigger] to.ready.messages[i]).0 == p
        }),
{
    let peers = v.leader->0.peers;
    lemma_sending_targets(v, peers);
    assert forall|p: u64| #[trigger] peers.contains(p) && !v.needs_snapshot(p) implies exists|
        i: int,
    |
        0 <= i < v.ticked(now, stored_ok).ready.messages.len() && (
        #[trigger] v.ticked(now, stored_ok).ready.messages[i]).0 == p by {
        lemma_peer_is_addressed(v, peers, p);
    }
}

/// Every listed peer that needs no snapshot gets a message.
pub proof fn lemma_peer_is_addressed(v: NodeView, peers: Seq<u64>, p: u64)
    requires
        v.leader is Some,
        peers.contains(p),
        !v.needs_snapshot(p),
    ensures
        exists|i: int|
            0 <= i < v.sending_all(peers).ready.messages.len() && (
            #[trigger] v.sending_all(peers).ready.messages[i]).0 == p,
    decreases peers.len(),
{
    let to = v.sending_all(peers);
    let w = v.sending_all(peers.drop_last());
    internal::lemma_sending_all_frame(v, peers.drop_last());
    if peers.last() == p {
        assert(to.ready.messages[to.ready.messages.len() - 1].0 == p);
    } else {
        let k = peers.index_of(p);
        assert(peers.drop_last()[k] == p);
        lemma_peer_is_addressed(v, peers.drop_last(), p);
        let i = choose|i: int|
            0 <= i < w.ready.messages.len() && (#[trigger] w.ready.messages[i]).0 == p;
        assert(to.ready.messages[i] == w.ready.messages[i]);
    }
}

/// A snapshot that was taken over is the log's new start: everything up to it
/// counts as committed and applied, and only later entries are left.
pub proof fn law_snapshot_becomes_log_start(v: NodeView, req: InstallSnapshotRequest, now: u64)
    requires
        v.log.wf(),
        req.term >= v.hard_state.current_term,
        req.done,
        req.last_included_index > v.log.snapshot_index,
    ensures
        ({
            let to = v.snapshot_installed(req, now);
            &&& to.log.snapshot_index == req.last_included_index
            &&& to.log.snapshot_term == req.last_included_term
            &&& to.commit_index >= req.last_included_index
            &&& to.last_applied >= req.last_included_index
            &&& forall|i: int|
                0 <= i < to.log.entries.len() ==> (#[trigger] to.log.entries[i]).index
                    > req.last_included_index
            &&& to.leader_id == req.leader_id
        }),
{
    let to = v.snapshot_installed(req, now);
    assert forall|i: int| 0 <= i < to.log.entries.len() implies (
    #[trigger] to.log.entries[i]).index > req.last_included_index by {
        let j = i + (req.last_included_index - v.log.snapshot_index);
        assert(to.log.entries[i] == v.log.entries[j]);
    }
}

/// A snapshot that is not complete, or not newer than the one held, leaves log,
/// commit index and applied index as they are.
pub proof fn law_partial_snapshot_is_not_applied(
    v: NodeView,
    req: InstallSnapshotRequest,
    now: u64,
)
    requires
        !req.done || req.last_included_index <= v.log.snapshot_index,
    ensures
        ({
            let to = v.snapshot_installed(req, now);
            &&& to.log == v.log
            &&& to.stored == v.stored
            &&& to.commit_index == v.commit_index
            &&& to.last_applied == v.last_applied
        }),
{
}

/// A node that restarts has the hard state and the log that it stored, and knows
/// of nothing more to be committed or applied than its snapshot.
pub proof fn law_restart_restores_what_was_stored(
    v: NodeView,
    config: ConfigView,
    now: u64,
)
    requires
        v.log.wf(),
        v.log.mirrored_by(v.stored),
        v.stored.hard_state == v.hard_state,
    ensures
        ({
            let to = NodeView::booting(config, v.stored, now).restored(now);
            &&& to.hard_state == v.hard_state
            &&& to.log == v.log
            &&& to.commit_index == v.log.snapshot_index
            &&& to.last_applied == v.log.snapshot_index
            &&& to.ready == ReadyView::empty()
            &&& to.leader is None
            &&& to.leader_id == 0
        }),
{
    log::lemma_filter_above(v.log.snapshot_index, v.log.entries, v.log.snapshot_index);
    assert(v.log.entries.skip(0) =~= v.log.entries);
    let to = NodeView::booting(config, v.stored, now).restored(now);
    assert(to.log =~= v.log);
}

/// A node that gave its vote and restarts does not give it to another candidate
/// of the same term.
pub proof fn law_no_second_vote_after_restart(
    config: ConfigView,
    stored: StoredView,
    req: RequestVoteRequest,
    now: u64,
)
    requires
        stored.hard_state.voted_for != 0,
        req.term == stored.hard_state.current_term,
        req.candidate_id != stored.hard_state.voted_for,
    ensures
        !NodeView::booting(config, stored, now).restored(now).grants(req),
{
}

/// Committed entries are put out once: after they were, there are none to put
/// out until more is committed.
pub proof fn law_committed_entries_are_put_out_once(v: NodeView)
    ensures
        v.emitting().emitting() == v.emitting(),
        v.emitting().drained().emitting().ready.committed_entries == Seq::<EntryView>::empty(),
{
    let e = v.emitting();
    assert(e.first_unemitted() > e.commit_index);
}

/// The entries that are put out are those that were committed since the last
/// ones, in order and without a gap.
pub proof fn law_put_out_entries_are_consecutive(v: NodeView)
    requires
        v.log.wf(),
        v.commit_index <= v.log.last_index(),
        v.ready.committed_entries.len() == 0,
    ensures
        forall|i: int|
            0 <= i < v.emitting().ready.committed_entries.len() ==> (
            #[trigger] v.emitting().ready.committed_entries[i]).index == v.first_unemitted() + i,
        v.first_unemitted() <= v.commit_index ==> v.emitting().ready.committed_entries.len()
            == v.commit_index - v.first_unemitted() + 1,
{
    let first = v.first_unemitted();
    if first <= v.commit_index {
        let out = v.emitting().ready.committed_entries;
        assert(out =~= v.log.entries.subrange(
            first - v.log.snapshot_index - 1,
            v.commit_index - v.log.snapshot_index,
        ));
        assert forall|i: int| 0 <= i < out.len() implies (#[trigger] out[i]).index == first + i by {
            assert(out[i] == v.log.entries[first - v.log.snapshot_index - 1 + i]);
        }
    }
}

/// Whether no member is listed twice, none is both voter and learner, and the
/// node itself is in neither list.
pub open spec fn members_apart(v: NodeView) -> bool {
    &&& v.config.peers.no_duplicates()
    &&& v.config.learners.no_duplicates()
    &&& forall|p: u64| #[trigger]
        v.config.peers.contains(p) ==> !v.config.learners.contains(p)
    &&& !v.config.peers.contains(v.config.node_id)
    &&& !v.config.learners.contains(v.config.node_id)
}

/// Adding a voter changes nothing for the node itself and for a member, so that
/// doing it again changes nothing; anyone else becomes the last voter, of whose
/// log a leader knows nothing yet. Learners are not touched, and voters and
/// learners stay apart.
pub proof fn law_added_voter_is_listed_once(v: NodeView, peer: u64)
    requires
        members_apart(v),
    ensures
        v.is_member(peer) ==> v.with_peer(peer) == v,
        !v.is_member(peer) ==> v.with_peer(peer).config.peers == v.config.peers.push(peer),
        !v.is_member(peer) ==> (v.with_peer(peer).leader matches Some(l) ==> l.match_of(peer)
            == 0),
        v.with_peer(peer).config.learners == v.config.learners,
        v.with_peer(peer).with_peer(peer) == v.with_peer(peer),
        members_apart(v.with_peer(peer)),
{
    let to = v.with_peer(peer);
    if !v.is_member(peer) {
        let ps = to.config.peers;
        assert(ps[ps.len() - 1] == peer);
        assert forall|p: u64| #[trigger] ps.contains(p) implies p == peer || v.config.peers.contains(
            p,
        ) by {
            let i = ps.index_of(p);
            if i < v.config.peers.len() {
                assert(v.config.peers[i] == p);
            }
        }
        assert forall|i: int, j: int| 0 <= i < ps.len() && 0 <= j < ps.len() && i != j implies ps[i]
            != ps[j] by {
            if i == ps.len() - 1 {
                assert(v.config.peers.contains(v.config.peers[j]));
            } else if j == ps.len() - 1 {
                assert(v.config.peers.contains(v.config.peers[i]));
            }
        }
    }
}

/// Removing a learner takes back that it was added: voters and learners are what
/// they were. To remove it once more changes nothing, nor does removing a voter
/// as a learner; voters stay in any case.
pub proof fn law_removed_learner_was_never_there(v: NodeView, peer: u64)
    ensures
        !v.is_member(peer) ==> {
            let to = v.with_learner(peer).without_learner(peer);
            &&& to.config == v.config
            &&& to.without_learner(peer) == to
        },
        !v.config.learners.contains(peer) ==> v.without_learner(peer) == v,
        members_apart(v) && v.config.peers.contains(peer) ==> v.without_learner(peer) == v,
        v.without_learner(peer).config.peers == v.config.peers,
        v.without_learner(peer).without_learner(peer) == v.without_learner(peer),
{
    state::lemma_without(v.config.learners, peer);
    if !v.is_member(peer) {
        let added = v.config.learners.push(peer);
        assert(added[added.len() - 1] == peer);
        assert(state::without(added, peer) =~= v.config.learners) by {
            reveal(Seq::filter);
            assert(added.drop_last() =~= v.config.learners);
        }
        assert(v.with_learner(peer).without_learner(peer).config =~= v.config);
    }
}

/// What can happen to a node between two restarts: each of its operations, with
/// any argument and whatever storage says.
pub enum NodeEvent {
    Tick { now: u64, stored_ok: bool },
    Propose { data: Seq<u8> },
    TakeReady,
    PersistReady,
    AdvanceApplied { applied_to: u64 },
    MoveDeadline { deadline: u64 },
    PersistHardState,
    Replicate,
    SetVoters { voters: Seq<u64> },
    AddPeer { peer: u64 },
    RemovePeer { peer: u64 },
    AddLearner { peer: u64 },
    RemoveLearner { peer: u64 },
    PromoteLearner { peer: u64 },
    PromoteSelf,
    AppendRequest { append: AppendView, now: u64, reliable: bool, reply: AppendEntriesResponse },
    VoteRequest { canvass: RequestVoteRequest, now: u64 },
    AppendAnswer { peer: u64, reply: AppendEntriesResponse, now: u64 },
    VoteAnswer { peer: u64, vote: RequestVoteResponse, now: u64, stored_ok: bool },
    SnapshotRequest { snapshot: InstallSnapshotRequest, now: u64 },
}

/// What an event makes of a node.
pub open spec fn happens(v: NodeView, e: NodeEvent, to: NodeView) -> bool {
    match e {
        NodeEvent::Tick { now, stored_ok } => v.can_tick(now) && to == v.ticked(now, stored_ok),
        NodeEvent::Propose { data } => to == v || (v.role == NodeRole::Leader && to
            == v.proposed(data)),
        NodeEvent::TakeReady => to == v.drained(),
        NodeEvent::PersistReady => to == v || to == v.saved(),
        NodeEvent::AdvanceApplied { applied_to } => to == (NodeView {
            last_applied: applied_to,
            ..v
        }),
        NodeEvent::MoveDeadline { deadline } => to == (NodeView {
            election_deadline: deadline,
            ..v
        }),
        NodeEvent::PersistHardState => to == v.persisting(),
        NodeEvent::Replicate => to == v.replicating(),
        NodeEvent::SetVoters { voters } => to == v.with_voters(voters),
        NodeEvent::AddPeer { peer } => to == v.with_peer(peer),
        NodeEvent::RemovePeer { peer } => to == v.without_peer(peer),
        NodeEvent::AddLearner { peer } => to == v.with_learner(peer),
        NodeEvent::RemoveLearner { peer } => to == v.without_learner(peer),
        NodeEvent::PromoteLearner { peer } => to == v.with_promoted(peer),
        NodeEvent::PromoteSelf => to == v.self_promoted(),
        NodeEvent::AppendRequest { append, now, reliable, reply } => v.append_handled(
            append,
            now,
            reliable,
            to,
            reply,
        ),
        NodeEvent::VoteRequest { canvass, now } => to == v.canvassed(canvass, now),
        NodeEvent::AppendAnswer { peer, reply, now } => to == v.append_answered(
            peer,
            reply,
            now,
        ),
        NodeEvent::VoteAnswer { peer, vote, now, stored_ok } => to == v.vote_answered(
            peer,
            vote,
            now,
            stored_ok,
        ),
        NodeEvent::SnapshotRequest { snapshot, now } => to == (NodeView {
            stored: to.stored,
            ..v.snapshot_installed(snapshot, now)
        }),
    }
}

/// No operation lowers a node's term.
pub proof fn law_operations_keep_term(v: NodeView, e: NodeEvent, to: NodeView)
    requires
        happens(v, e, to),
    ensures
        v.hard_state.current_term <= to.hard_state.current_term,
{
    match e {
        NodeEvent::Tick { now, stored_ok } => {
            match v.leader {
                Some(l) => internal::lemma_sending_all_frame(v, l.peers),
                None => {},
            }
            if v.election_due(now) {
                let c = v.standing(now).crowned(now);
                lemma_spreading_frame(c.appending(c.noop()));
            }
        },
        NodeEvent::Replicate => {
            match v.leader {
                Some(l) => internal::lemma_sending_all_frame(v, l.peers),
                None => {},
            }
        },
        NodeEvent::Propose { data } => {
            lemma_spreading_frame(v.appending(v.proposal(data)));
        },
        NodeEvent::VoteAnswer { peer, vote, now, stored_ok } => {
            let c = v.with_vote(peer).crowned(now);
            lemma_spreading_frame(c.appending(c.noop()));
        },
        _ => {},
    }
}

/// Whether a node leads if and only if it tracks its peers' progress.
pub open spec fn leads_by_record(v: NodeView) -> bool {
    v.role == NodeRole::Leader <==> v.leader is Some
}

/// A node that boots, with or without what it stored, does not lead and tracks no
/// one.
pub proof fn law_booting_node_does_not_lead(config: ConfigView, stored: StoredView, now: u64)
    ensures
        leads_by_record(NodeView::booting(config, stored, now)),
        leads_by_record(NodeView::booting(config, stored, now).restored(now)),
        NodeView::booting(config, stored, now).role != NodeRole::Leader,
{
}

/// Putting out committed entries changes neither role nor tracking.
proof fn lemma_committing_frame(v: NodeView, index: u64)
    ensures
        v.committing(index).role == v.role,
        v.committing(index).leader == v.leader,
{
}

/// An append request keeps role and tracking in step.
proof fn lemma_append_keeps_leader_record(
    v: NodeView,
    append: AppendView,
    now: u64,
    reliable: bool,
    to: NodeView,
    reply: AppendEntriesResponse,
)
    requires
        leads_by_record(v),
        v.append_handled(append, now, reliable, to, reply),
    ensures
        leads_by_record(to),
{
    let h = v.hearing(append.term, append.leader_id, now);
    assert(leads_by_record(h));
    let m = NodeView {
        log: h.log.merged(append.entries),
        stored: log::stored_merge(h.log, h.stored, append.entries),
        ..h
    };
    let last = rpc::lesser(append.leader_commit as int, m.log.last_index()) as u64;
    lemma_committing_frame(m, last);
    assert(h.accepting(append).role == h.role && h.accepting(append).leader == h.leader);
}

/// An answer to an append request keeps role and tracking in step.
proof fn lemma_answer_keeps_leader_record(
    v: NodeView,
    peer: u64,
    reply: AppendEntriesResponse,
    now: u64,
)
    requires
        leads_by_record(v),
    ensures
        leads_by_record(v.append_answered(peer, reply, now)),
{
    let a = v.acknowledged(peer, reply.last_log_index);
    lemma_committing_frame(a, a.best_commit(a.log.last_index()) as u64);
    assert(a.role == v.role);
    assert(v.backed_off(peer, reply.last_log_index).sending(peer).role == v.role);
}

/// Becoming leader starts the tracking.
proof fn lemma_leading_keeps_leader_record(v: NodeView, now: u64, stored_ok: bool)
    ensures
        leads_by_record(v.leading(now, stored_ok)),
{
    let c = v.crowned(now);
    lemma_spreading_frame(c.appending(c.noop()));
}

/// A change of members keeps role and tracking in step.
proof fn lemma_members_keep_leader_record(v: NodeView, peer: u64, voters: Seq<u64>)
    requires
        leads_by_record(v),
    ensures
        leads_by_record(v.with_voters(voters)),
        leads_by_record(v.with_peer(peer)),
        leads_by_record(v.without_peer(peer)),
        leads_by_record(v.with_learner(peer)),
        leads_by_record(v.without_learner(peer)),
        leads_by_record(v.with_promoted(peer)),
        leads_by_record(v.self_promoted()),
{
}

/// Every operation keeps it so that a node leads if and only if it tracks its
/// peers' progress.
pub proof fn law_operations_keep_leader_record(v: NodeView, e: NodeEvent, to: NodeView)
    requires
        leads_by_record(v),
        happens(v, e, to),
    ensures
        leads_by_record(to),
{
    match e {
        NodeEvent::Tick { now, stored_ok } => {
            match v.leader {
                Some(l) => internal::lemma_sending_all_frame(v, l.peers),
                None => {},
            }
            lemma_leading_keeps_leader_record(v.standing(now), now, stored_ok);
        },
        NodeEvent::Replicate => {
            match v.leader {
                Some(l) => internal::lemma_sending_all_frame(v, l.peers),
                None => {},
            }
        },
        NodeEvent::Propose { data } => {
            lemma_spreading_frame(v.appending(v.proposal(data)));
        },
        NodeEvent::SetVoters { voters } => lemma_members_keep_leader_record(v, 0, voters),
        NodeEvent::AddPeer { peer } => lemma_members_keep_leader_record(v, peer, Seq::empty()),
        NodeEvent::RemovePeer { peer } => lemma_members_keep_leader_record(v, peer, Seq::empty()),
        NodeEvent::AddLearner { peer } => lemma_members_keep_leader_record(v, peer, Seq::empty()),
        NodeEvent::RemoveLearner { peer } => {
            lemma_members_keep_leader_record(v, peer, Seq::empty());
        },
        NodeEvent::PromoteLearner { peer } => {
            lemma_members_keep_leader_record(v, peer, Seq::empty());
        },
        NodeEvent::PromoteSelf => lemma_members_keep_leader_record(v, 0, Seq::empty()),
        NodeEvent::AppendRequest { append, now, reliable, reply } => {
            lemma_append_keeps_leader_record(v, append, now, reliable, to, reply);
        },
        NodeEvent::AppendAnswer { peer, reply, now } => {
            lemma_answer_keeps_leader_record(v, peer, reply, now);
        },
        NodeEvent::VoteAnswer { peer, vote, now, stored_ok } => {
            lemma_leading_keeps_leader_record(v.with_vote(peer), now, stored_ok);
        },
        _ => {},
    }
}

/// A node leads if and only if it tracks its peers' progress, whatever happened
/// to it in whatever order.
pub proof fn law_leader_record_follows_role(run: Seq<NodeView>, events: Seq<NodeEvent>)
    requires
        run.len() == events.len() + 1,
        leads_by_record(run[0]),
        forall|i: int|
            0 <= i < events.len() ==> happens(run[i], #[trigger] events[i], run[i + 1]),
    ensures
        leads_by_record(run.last()),
    decreases events.len(),
{
    if events.len() > 0 {
        let n = events.len() - 1;
        assert forall|i: int| 0 <= i < n implies happens(
            run.drop_last()[i],
            #[trigger] events.drop_last()[i],
            run.drop_last()[i + 1],
        ) by {
            assert(happens(run[i], events[i], run[i + 1]));
        }
        law_leader_record_follows_role(run.drop_last(), events.drop_last());
        law_operations_keep_leader_record(run[n], events[n], run[n + 1]);
    }
}

/// A node's term never goes back, whatever happens to it in whatever order.
pub proof fn law_term_never_falls(run: Seq<NodeView>, events: Seq<NodeEvent>)
    requires
        run.len() == events.len() + 1,
        forall|i: int|
            0 <= i < events.len() ==> happens(run[i], #[trigger] events[i], run[i + 1]),
    ensures
        run[0].hard_state.current_term <= run.last().hard_state.current_term,
    decreases events.len(),
{
    if events.len() > 0 {
        let n = events.len() - 1;
        assert forall|i: int| 0 <= i < n implies happens(
            run.drop_last()[i],
            #[trigger] events.drop_last()[i],
            run.drop_last()[i + 1],
        ) by {
            assert(happens(run[i], events[i], run[i + 1]));
        }
        law_term_never_falls(run.drop_last(), events.drop_last());
        law_operations_keep_term(run[n], events[n], run[n + 1]);
    }
}

} // verus!
