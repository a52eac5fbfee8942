//! Handlers of incoming messages.

use vstd::prelude::*;

use crate::raft::log;
use crate::raft::message::{
    AppendEntriesRequest, AppendEntriesResponse, AppendView, InstallSnapshotRequest,
    InstallSnapshotResponse, RequestVoteRequest, RequestVoteResponse,
};
use crate::raft::node::machine::{NodeView, RaftNode};
use crate::raft::state;
use crate::raft::state::{HardState, NodeRole};
use crate::raft::storage::LogStorage;
use crate::time::Instant;

verus! {

broadcast use vstd::std_specs::hash::group_hash_axioms;

/// The smaller of two indexes.
pub open spec fn lesser(a: int, b: int) -> int {
    if a <= b {
        a
    } else {
        b
    }
}

impl NodeView {
    /// The answer to an append request.
    pub open spec fn append_reply(self, success: bool) -> AppendEntriesResponse {
        AppendEntriesResponse {
            term: self.hard_state.current_term,
            success,
            last_log_index: self.log.last_index() as u64,
        }
    }

    /// After hearing from a leader of `term`, which is not older than the node's own.
    pub open spec fn hearing(self, term: u64, leader: u64, now: u64) -> NodeView {
        let b = if term > self.hard_state.current_term || self.role == NodeRole::Candidate {
            self.following(term, now)
        } else {
            self
        };
        NodeView { leader_id: leader, ..b }.rested(now)
    }

    /// Whether the log holds the entry that the request's entries follow.
    pub open spec fn prev_matches(self, req: AppendView) -> bool {
        req.prev_log_index == 0 || self.log.term_at(req.prev_log_index as int) == Some(
            req.prev_log_term,
        )
    }

    /// After taking over the request's entries and commit index.
    pub open spec fn accepting(self, req: AppendView) -> NodeView {
        let m = NodeView {
            log: self.log.merged(req.entries),
            stored: log::stored_merge(self.log, self.stored, req.entries),
            ..self
        };
        if req.leader_commit > m.commit_index {
            m.committing(lesser(req.leader_commit as int, m.log.last_index()) as u64)
        } else {
            m
        }
    }

    /// How an append request is answered and what it leaves behind.
    pub open spec fn append_handled(
        self,
        req: AppendView,
        now: u64,
        reliable: bool,
        to: NodeView,
        resp: AppendEntriesResponse,
    ) -> bool {
        let h = self.hearing(req.term, req.leader_id, now);
        if req.term < self.hard_state.current_term {
            to == self && resp == self.append_reply(false)
        } else if !h.prev_matches(req) || !log::follows(req.prev_log_index, req.entries) {
            to == h && resp == h.append_reply(false)
        } else {
            ||| to == h.accepting(req) && resp == to.append_reply(true)
            ||| !reliable && to == h && resp == h.append_reply(false)
            ||| !reliable && to == (NodeView { log: to.log, stored: to.stored, ..h })
                && log::is_cut_of(h.log, h.stored, req.entries, to.log, to.stored) && resp
                == to.append_reply(false)
        }
    }

    /// The answer to a vote request.
    pub open spec fn vote_reply(self, granted: bool) -> RequestVoteResponse {
        RequestVoteResponse { term: self.hard_state.current_term, vote_granted: granted }
    }

    /// With the term taken over from a message that carries a newer one.
    pub open spec fn catching_up(self, term: u64, now: u64) -> NodeView {
        if term > self.hard_state.current_term {
            self.following(term, now)
        } else {
            self
        }
    }

    /// Whether a candidate's log is at least as current as the node's own.
    pub open spec fn log_current(self, req: RequestVoteRequest) -> bool {
        req.last_log_term > self.log.last_term() || (req.last_log_term == self.log.last_term()
            && req.last_log_index >= self.log.last_index())
    }

    /// Whether the vote of the current term may go to the candidate.
    pub open spec fn grants(self, req: RequestVoteRequest) -> bool {
        &&& self.role != NodeRole::Learner
        &&& req.term >= self.hard_state.current_term
        &&& {
            let voted = if req.term > self.hard_state.current_term {
                0
            } else {
                self.hard_state.voted_for
            };
            voted == 0 || voted == req.candidate_id
        }
        &&& self.log_current(req)
    }

    /// After giving the vote to `candidate`.
    pub open spec fn voting(self, candidate: u64, now: u64) -> NodeView {
        NodeView {
            hard_state: HardState { voted_for: candidate, ..self.hard_state },
            ..self
        }.persisting().rested(now)
    }

    /// After a vote request.
    pub open spec fn canvassed(self, req: RequestVoteRequest, now: u64) -> NodeView {
        if self.role == NodeRole::Learner {
            self
        } else {
            let b = self.catching_up(req.term, now);
            if self.grants(req) {
                b.voting(req.candidate_id, now)
            } else {
                b
            }
        }
    }

    /// With a peer's progress recorded after it accepted an append.
    pub open spec fn acknowledged(self, peer: u64, last: u64) -> NodeView {
        let l = self.leader->0;
        if last > l.match_of(peer) {
            NodeView {
                leader: Some(l.with_match(peer, last).with_next(peer, (last + 1) as u64)),
                ..self
            }
        } else {
            self
        }
    }

    /// With a peer's next index moved back after it refused an append.
    pub open spec fn backed_off(self, peer: u64, last: u64) -> NodeView {
        let l = self.leader->0;
        let next = l.next_of(peer);
        let to = if last + 1 < next {
            last + 1
        } else if next >= 2 {
            next - 1
        } else {
            1
        };
        NodeView { leader: Some(l.with_next(peer, to as u64)), ..self }
    }

    /// Whether an answer that this node heeds names an entry that another can
    /// follow.
    pub open spec fn can_take_answer(self, resp: AppendEntriesResponse) -> bool {
        self.role == NodeRole::Leader && resp.term == self.hard_state.current_term
            ==> resp.last_log_index < u64::MAX
    }

    /// After an answer to an append request. One from an older term says
    /// nothing about the current one and is ignored.
    pub open spec fn append_answered(
        self,
        peer: u64,
        resp: AppendEntriesResponse,
        now: u64,
    ) -> NodeView {
        if resp.term > self.hard_state.current_term {
            self.following(resp.term, now)
        } else if resp.term < self.hard_state.current_term || self.role != NodeRole::Leader
            || self.leader is None {
            self
        } else if resp.success {
            let a = self.acknowledged(peer, resp.last_log_index);
            if self.config.peers.contains(peer) {
                a.advancing()
            } else {
                a
            }
        } else {
            self.backed_off(peer, resp.last_log_index).sending(peer)
        }
    }

    /// With `peer`'s vote counted.
    pub open spec fn with_vote(self, peer: u64) -> NodeView {
        NodeView { votes: self.votes.insert(peer), ..self }
    }

    /// Whether the votes counted, the node's own included, decide the election.
    pub open spec fn won(self) -> bool {
        self.votes.len() + 1 >= self.config.quorum()
    }

    /// Whether an answer that decides the election finds room in the log for the
    /// entry that opens the term.
    pub open spec fn can_count_vote(self, peer: u64, resp: RequestVoteResponse) -> bool {
        self.role == NodeRole::Candidate && resp.term == self.hard_state.current_term
            && resp.vote_granted && self.with_vote(peer).won() ==> self.log.last_index()
            < u64::MAX
    }

    /// After an answer to a vote request.
    pub open spec fn vote_answered(
        self,
        peer: u64,
        resp: RequestVoteResponse,
        now: u64,
        stored_ok: bool,
    ) -> NodeView {
        if resp.term > self.hard_state.current_term {
            self.following(resp.term, now)
        } else if resp.term < self.hard_state.current_term || self.role != NodeRole::Candidate
            || !resp.vote_granted {
            self
        } else if self.with_vote(peer).won() {
            self.with_vote(peer).leading(now, stored_ok)
        } else {
            self.with_vote(peer)
        }
    }

    /// With the log replaced by a snapshot, all of which counts as committed and applied.
    pub open spec fn snapshotted(self, index: u64, term: u64) -> NodeView {
        NodeView {
            log: self.log.snapshotted(index, term),
            stored: log::stored_snapshot(self.log, self.stored, index, term),
            commit_index: if self.commit_index < index {
                index
            } else {
                self.commit_index
            },
            last_applied: if self.last_applied < index {
                index
            } else {
                self.last_applied
            },
            ..self
        }
    }

    /// After a snapshot request.
    pub open spec fn snapshot_installed(self, req: InstallSnapshotRequest, now: u64) -> NodeView {
        if req.term < self.hard_state.current_term {
            self
        } else {
            let h = NodeView {
                leader_id: req.leader_id,
                ..self.catching_up(req.term, now)
            }.rested(now);
            if req.done && req.last_included_index > h.log.snapshot_index {
                h.snapshotted(req.last_included_index, req.last_included_term)
            } else {
                h
            }
        }
    }
}

impl<S: LogStorage> RaftNode<S> {
    /// Handles an append request.
    pub fn handle_append_entries(
        &mut self,
        req: &AppendEntriesRequest,
        now: Instant,
    ) -> (resp: AppendEntriesResponse)
        requires
            old(self)@.wf(),
        ensures
            old(self)@.append_handled(
                req@,
                now.nanos,
                old(self).log.storage.reliable(),
                final(self)@,
                resp,
            ),
            final(self).log.storage.reliable() == old(self).log.storage.reliable(),
            final(self)@.wf(),
    {
        if req.term < self.hard_state.current_term {
            return AppendEntriesResponse {
                term: self.hard_state.current_term,
                success: false,
                last_log_index: self.log.last_index(),
            };
        }
        if req.term > self.hard_state.current_term || self.role == NodeRole::Candidate {
            self.become_follower(req.term, now);
        }
        self.leader_id = req.leader_id;
        self.reset_election_timeout(now);
        let ghost h = old(self)@.hearing(req.term, req.leader_id, now.nanos);
        assert(self@ == h);
        if req.prev_log_index > 0 {
            let matches: bool = match self.log.term_at(req.prev_log_index) {
                Some(term) => term == req.prev_log_term,
                None => false,
            };
            if !matches {
                return AppendEntriesResponse {
                    term: self.hard_state.current_term,
                    success: false,
                    last_log_index: self.log.last_index(),
                };
            }
        }
        assert(h.prev_matches(req@));
        assert(req.prev_log_index <= h.log.last_index());
        match self.log.append_entries(req.prev_log_index, req.entries.as_slice()) {
            Ok(()) => {},
            Err(_) => {
                return AppendEntriesResponse {
                    term: self.hard_state.current_term,
                    success: false,
                    last_log_index: self.log.last_index(),
                };
            },
        }
        let last: u64 = self.log.last_index();
        if req.leader_commit > self.volatile.commit_index {
            self.volatile.commit_index = if req.leader_commit <= last {
                req.leader_commit
            } else {
                last
            };
            self.collect_committed_entries();
        }
        assert(self@ == h.accepting(req@));
        AppendEntriesResponse {
            term: self.hard_state.current_term,
            success: true,
            last_log_index: last,
        }
    }

    /// Handles a vote request. A learner is no member of the voting set and
    /// never grants its vote.
    pub fn handle_request_vote(
        &mut self,
        req: &RequestVoteRequest,
        now: Instant,
    ) -> (resp: RequestVoteResponse)
        requires
            old(self)@.wf(),
        ensures
            final(self)@ == old(self)@.canvassed(*req, now.nanos),
            resp == final(self)@.vote_reply(old(self)@.grants(*req)),
            final(self).log == old(self).log,
            final(self)@.wf(),
    {
        if self.role == NodeRole::Learner {
            return RequestVoteResponse {
                term: self.hard_state.current_term,
                vote_granted: false,
            };
        }
        if req.term > self.hard_state.current_term {
            self.become_follower(req.term, now);
        }
        if req.term < self.hard_state.current_term {
            return RequestVoteResponse {
                term: self.hard_state.current_term,
                vote_granted: false,
            };
        }
        let voted_for: u64 = self.hard_state.voted_for;
        let can_vote: bool = voted_for == 0 || voted_for == req.candidate_id;
        let log_ok: bool = req.last_log_term > self.log.last_term() || (req.last_log_term
            == self.log.last_term() && req.last_log_index >= self.log.last_index());
        if can_vote && log_ok {
            self.hard_state.voted_for = req.candidate_id;
            self.persist_hard_state();
            self.reset_election_timeout(now);
            RequestVoteResponse { term: self.hard_state.current_term, vote_granted: true }
        } else {
            RequestVoteResponse { term: self.hard_state.current_term, vote_granted: false }
        }
    }

    /// Handles an answer to an append request.
    ///
    /// The progress of voters and of learners is recorded alike, which tells
    /// when a learner has caught up; only a voter's answer can move the commit
    /// index.
    pub fn handle_append_entries_response(
        &mut self,
        peer: u64,
        resp: &AppendEntriesResponse,
        now: Instant,
    )
        requires
            old(self)@.wf(),
            old(self)@.can_take_answer(*resp),
        ensures
            final(self)@ == old(self)@.append_answered(peer, *resp, now.nanos),
            final(self).log == old(self).log,
            final(self)@.wf(),
    {
        if resp.term > self.hard_state.current_term {
            self.become_follower(resp.term, now);
            return;
        }
        if resp.term < self.hard_state.current_term {
            return;
        }
        if self.role != NodeRole::Leader {
            return;
        }
        let peer_is_voter: bool = state::contains_id(&self.config.peers, peer);
        let last: u64 = resp.last_log_index;
        if resp.success {
            match &mut self.leader_state {
                Some(leader) => {
                    if last > leader.match_index_for(peer) {
                        leader.set_match_index(peer, last);
                        leader.set_next_index(peer, last + 1);
                    }
                },
                None => return,
            }
            assert(self@ == old(self)@.acknowledged(peer, last));
            if peer_is_voter {
                self.try_advance_commit_index();
            }
        } else {
            match &mut self.leader_state {
                Some(leader) => {
                    let current: u64 = leader.next_index_for(peer);
                    let next: u64 = if last + 1 < current {
                        last + 1
                    } else if current >= 2 {
                        current - 1
                    } else {
                        1
                    };
                    leader.set_next_index(peer, next);
                },
                None => return,
            }
            assert(self@ == old(self)@.backed_off(peer, last));
            self.send_append_entries(peer);
        }
    }

    /// Handles an answer to a vote request.
    pub fn handle_request_vote_response(
        &mut self,
        peer: u64,
        resp: &RequestVoteResponse,
        now: Instant,
    )
        requires
            old(self)@.wf(),
            old(self)@.can_count_vote(peer, *resp),
        ensures
            final(self)@ == old(self)@.vote_answered(peer, *resp, now.nanos, true) || (
            !old(self).log.storage.reliable() && final(self)@ == old(self)@.vote_answered(
                peer,
                *resp,
                now.nanos,
                false,
            )),
            final(self).log.storage.reliable() == old(self).log.storage.reliable(),
            final(self)@.wf(),
    {
        if resp.term > self.hard_state.current_term {
            self.become_follower(resp.term, now);
            return;
        }
        if resp.term < self.hard_state.current_term {
            return;
        }
        if self.role != NodeRole::Candidate {
            return;
        }
        if resp.vote_granted {
            self.votes_received.insert(peer);
            assert(self@ == old(self)@.with_vote(peer));
            if self.votes_received.len() >= self.config.quorum() - 1 {
                self.become_leader(now);
            }
        }
    }

    /// Handles a snapshot sent to a follower or learner that is too far behind
    /// for its leader's log.
    pub fn handle_install_snapshot(
        &mut self,
        req: &InstallSnapshotRequest,
        now: Instant,
    ) -> (resp: InstallSnapshotResponse)
        requires
            old(self)@.wf(),
        ensures
            final(self)@ == (NodeView {
                stored: final(self)@.stored,
                ..old(self)@.snapshot_installed(*req, now.nanos)
            }),
            old(self).log.storage.reliable() ==> final(self)@.stored
                == old(self)@.snapshot_installed(*req, now.nanos).stored,
            final(self)@.stored.hard_state == old(self)@.stored.hard_state,
            resp.term == final(self)@.hard_state.current_term,
            final(self).log.storage.reliable() == old(self).log.storage.reliable(),
            final(self)@.wf(),
    {
        if req.term < self.hard_state.current_term {
            return InstallSnapshotResponse { term: self.hard_state.current_term };
        }
        if req.term > self.hard_state.current_term {
            self.become_follower(req.term, now);
        }
        self.leader_id = req.leader_id;
        self.reset_election_timeout(now);
        if req.done && req.last_included_index > self.log.snapshot_index() {
            self.log.apply_snapshot(req.last_included_index, req.last_included_term);
            if self.volatile.commit_index < req.last_included_index {
                self.volatile.commit_index = req.last_included_index;
            }
            if self.volatile.last_applied < req.last_included_index {
                self.volatile.last_applied = req.last_included_index;
            }
        }
        InstallSnapshotResponse { term: self.hard_state.current_term }
    }
}

} // verus!
