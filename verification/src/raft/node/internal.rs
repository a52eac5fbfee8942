//! Transitions that ticks and messages share: elections, replication, commit.

use std::collections::HashSet;

use vstd::prelude::*;

use crate::raft::message;
use crate::raft::message::{AppendEntriesRequest, LogEntry, RequestVoteRequest};
use crate::raft::node::machine;
use crate::raft::node::machine::{NodeView, RaftNode};
use crate::raft::state::{HardState, LeaderState, NodeRole};
use crate::raft::storage::LogStorage;
use crate::time::{Duration, Instant};

verus! {

broadcast use vstd::std_specs::hash::group_hash_axioms;

/// Sending touches nothing but the output.
pub proof fn lemma_sending_all_frame(v: NodeView, peers: Seq<u64>)
    ensures
        v.sending_all(peers) == (NodeView { ready: v.sending_all(peers).ready, ..v }),
        v.sending_all(peers).ready.hard_state == v.ready.hard_state,
        v.sending_all(peers).ready.vote_requests == v.ready.vote_requests,
        v.sending_all(peers).ready.committed_entries == v.ready.committed_entries,
    decreases peers.len(),
{
    if peers.len() > 0 {
        lemma_sending_all_frame(v, peers.drop_last());
    }
}

impl<S: LogStorage> RaftNode<S> {
    /// Starts the election timeout afresh.
    pub(crate) fn reset_election_timeout(&mut self, now: Instant)
        ensures
            final(self)@ == old(self)@.rested(now.nanos),
            final(self).log == old(self).log,
    {
        let min: u64 = self.config.election_timeout_min.nanos;
        let max: u64 = self.config.election_timeout_max.nanos;
        let jitter: u64 = if max > min {
            now.nanos % (max - min)
        } else {
            0
        };
        self.election_deadline = now.after(Duration { nanos: min }).after(
            Duration { nanos: jitter },
        );
    }

    /// Puts the hard state out for persisting.
    pub fn persist_hard_state(&mut self)
        ensures
            final(self)@ == old(self)@.persisting(),
            final(self).log == old(self).log,
    {
        self.ready.hard_state = Some(self.hard_state);
    }

    /// Turns to following in `term`. A learner stays a learner.
    pub(crate) fn become_follower(&mut self, term: u64, now: Instant)
        ensures
            final(self)@ == old(self)@.following(term, now.nanos),
            final(self).log == old(self).log,
    {
        if self.role != NodeRole::Learner {
            self.role = NodeRole::Follower;
        }
        if term > self.hard_state.current_term {
            self.hard_state = HardState { current_term: term, voted_for: 0 };
        }
        self.leader_state = None;
        self.votes_received = HashSet::new();
        self.leader_id = 0;
        self.persist_hard_state();
        self.reset_election_timeout(now);
    }

    /// Puts out an append request for `peer`, or notes that it needs a snapshot.
    pub(crate) fn send_append_entries(&mut self, peer: u64)
        requires
            old(self)@.wf(),
        ensures
            final(self)@ == old(self)@.sending(peer),
            final(self).log == old(self).log,
    {
        let next: u64 = match &self.leader_state {
            Some(l) => l.next_index_for(peer),
            None => return,
        };
        if next <= self.log.snapshot_index() {
            self.ready.snapshots_needed.push(peer);
            return;
        }
        let prev: u64 = next - 1;
        let prev_log_term: u64 = match self.log.term_at(prev) {
            Some(t) => t,
            None => 0,
        };
        let n: usize = self.log.entries.len();
        let entries: Vec<LogEntry> = if next <= self.log.last_index() {
            assert(prev - self.log.snapshot_index <= n);
            let from: usize = (prev - self.log.snapshot_index()) as usize;
            message::copy_entries(self.log.entries.as_slice(), from, n)
        } else {
            Vec::new()
        };
        let msg = AppendEntriesRequest {
            term: self.hard_state.current_term,
            leader_id: self.config.node_id,
            prev_log_index: prev,
            prev_log_term,
            entries,
            leader_commit: self.volatile.commit_index,
            group_id: self.config.group_id,
        };
        assert(msg@.entries =~= self@.append_for(peer).entries);
        assert(msg@ == self@.append_for(peer));
        let ghost before = self.ready.messages@;
        self.ready.messages.push((peer, msg));
        assert(machine::messages_view(self.ready.messages@) =~= machine::messages_view(
            before,
        ).push((peer, msg@)));
    }

    /// Puts something out for every tracked peer.
    pub fn replicate_to_all(&mut self)
        requires
            old(self)@.wf(),
        ensures
            final(self)@ == old(self)@.replicating(),
            final(self).log == old(self).log,
            final(self)@.wf(),
    {
        let peers: Vec<u64> = match &self.leader_state {
            Some(l) => l.peers.clone(),
            None => return,
        };
        let ghost v = self@;
        assert(peers@ =~= v.leader->0.peers);
        let mut i: usize = 0;
        assert(peers@.take(0) =~= Seq::empty());
        while i < peers.len()
            invariant
                i <= peers.len(),
                v.wf(),
                self@ == v.sending_all(peers@.take(i as int)),
                self.log == old(self).log,
            decreases peers.len() - i,
        {
            proof {
                lemma_sending_all_frame(v, peers@.take(i as int));
                assert(peers@.take(i + 1).drop_last() =~= peers@.take(i as int));
            }
            let p: u64 = peers[i];
            self.send_append_entries(p);
            i = i + 1;
        }
        proof {
            assert(peers@.take(peers.len() as int) =~= peers@);
            lemma_sending_all_frame(v, peers@);
        }
    }

    /// Puts out the committed entries that have not been put out yet.
    pub(crate) fn collect_committed_entries(&mut self)
        requires
            old(self)@.wf(),
            old(self)@.commit_index <= old(self)@.log.last_index(),
        ensures
            final(self)@ == old(self)@.emitting(),
            final(self).log == old(self).log,
            final(self)@.wf(),
    {
        let snap: u64 = self.log.snapshot_index();
        let commit: u64 = self.volatile.commit_index;
        let done: u64 = if self.ready_commit_index >= snap {
            self.ready_commit_index
        } else {
            snap
        };
        if done >= commit {
            return;
        }
        let ghost l = self.log@.entries;
        let n: usize = self.log.entries.len();
        assert(commit - snap <= n);
        let from: usize = (done - snap) as usize;
        let to: usize = (commit - snap) as usize;
        let mut es = message::copy_entries(self.log.entries.as_slice(), from, to);
        proof {
            let add = l.subrange(from as int, to as int);
            let had = self.ready.committed_entries@;
            assert(es@.len() == add.len()) by {
                assert(message::entries_view(es@).len() == add.len());
            }
            assert forall|i: int| 0 <= i < es@.len() implies es@[i]@ == add[i] by {
                assert(message::entries_view(es@)[i] == es@[i]@);
            }
            assert(message::entries_view(had + es@) =~= message::entries_view(had) + add);
        }
        self.ready.committed_entries.append(&mut es);
        self.ready_commit_index = commit;
    }

    /// Voters known to hold the log up to `n`, this node included.
    fn count_holders(&self, l: &LeaderState, n: u64) -> (r: usize)
        requires
            self@.wf(),
            self@.leader == Some(l@),
        ensures
            r == self@.holders(n as int),
    {
        let ghost v = self@;
        let ghost has = |p: u64| v.leader->0.match_of(p) >= n;
        let mut count: usize = 1;
        let mut i: usize = 0;
        proof {
            reveal(Seq::filter);
            assert(v.config.peers.take(0).filter(has).len() == 0);
        }
        while i < self.config.peers.len()
            invariant
                i <= self.config.peers@.len(),
                v == self@,
                v.wf(),
                v.leader == Some(l@),
                has == (|p: u64| v.leader->0.match_of(p) >= n),
                count == 1 + v.config.peers.take(i as int).filter(has).len(),
                count <= 1 + i,
            decreases self.config.peers@.len() - i,
        {
            proof {
                reveal(Seq::filter);
                let t = v.config.peers.take(i + 1);
                assert(t.drop_last() =~= v.config.peers.take(i as int));
                assert(t.last() == self.config.peers@[i as int]);
            }
            if l.match_index_for(self.config.peers[i]) >= n {
                count = count + 1;
            }
            i = i + 1;
        }
        proof {
            assert(v.config.peers.take(i as int) =~= v.config.peers);
            assert(has =~= (|p: u64| v.leader->0.match_of(p) >= n as int));
        }
        count
    }

    /// The largest index that may be committed now, at least the commit index.
    fn find_commit_index(&self, l: &LeaderState) -> (r: u64)
        requires
            self@.wf(),
            self@.leader == Some(l@),
        ensures
            r == self@.best_commit(self@.log.last_index()),
    {
        let quorum: usize = self.config.quorum();
        let mut n: u64 = self.log.last_index();
        while n > self.volatile.commit_index
            invariant
                self@.wf(),
                self@.leader == Some(l@),
                quorum == self@.config.quorum(),
                n <= self@.log.last_index(),
                self@.best_commit(self@.log.last_index()) == self@.best_commit(n as int),
            decreases n,
        {
            let current: bool = match self.log.term_at(n) {
                Some(t) => t == self.hard_state.current_term,
                None => false,
            };
            if current && self.count_holders(l, n) >= quorum {
                return n;
            }
            n = n - 1;
        }
        self.volatile.commit_index
    }

    /// Commits as far as the acknowledgements of voters allow.
    pub(crate) fn try_advance_commit_index(&mut self)
        requires
            old(self)@.wf(),
        ensures
            final(self)@ == old(self)@.advancing(),
            final(self).log == old(self).log,
            final(self)@.wf(),
    {
        let n: u64 = match &self.leader_state {
            Some(l) => self.find_commit_index(l),
            None => return,
        };
        if n > self.volatile.commit_index {
            proof {
                lemma_best_commit(self@, self@.log.last_index());
            }
            self.volatile.commit_index = n;
            self.collect_committed_entries();
        }
    }

    /// Sends the last entry on, and commits it at once where this node is the
    /// only voter.
    pub(crate) fn spread_last_entry(&mut self)
        requires
            old(self)@.wf(),
        ensures
            final(self)@ == old(self)@.spreading(),
            final(self).log == old(self).log,
            final(self)@.wf(),
    {
        self.replicate_to_all();
        proof {
            match old(self)@.leader {
                Some(l) => lemma_sending_all_frame(old(self)@, l.peers),
                None => {},
            }
        }
        if self.config.cluster_size() == 1 {
            self.volatile.commit_index = self.log.last_index();
            self.collect_committed_entries();
        }
    }

    /// Takes the lead of the current term and opens it with an empty entry.
    pub(crate) fn become_leader(&mut self, now: Instant)
        requires
            old(self)@.wf(),
            old(self)@.log.last_index() < u64::MAX,
        ensures
            final(self)@ == old(self)@.leading(now.nanos, true) || (
            !old(self).log.storage.reliable() && final(self)@ == old(self)@.leading(
                now.nanos,
                false,
            )),
            final(self).log.storage.reliable() == old(self).log.storage.reliable(),
            final(self)@.wf(),
    {
        let last: u64 = self.log.last_index();
        let mut tracked_peers = self.config.peers.clone();
        let mut learners = self.config.learners.clone();
        proof {
            assert(tracked_peers@ =~= self.config.peers@);
            assert(learners@ =~= self.config.learners@);
        }
        tracked_peers.append(&mut learners);
        self.role = NodeRole::Leader;
        self.leader_id = self.config.node_id;
        self.leader_state = Some(LeaderState::new(tracked_peers, last));
        self.heartbeat_deadline = now.after(self.config.heartbeat_interval);
        let ghost c = old(self)@.crowned(now.nanos);
        assert(self@ == c);
        let entry = LogEntry {
            term: self.hard_state.current_term,
            index: last + 1,
            data: Vec::new(),
        };
        assert(entry@ =~= c.noop());
        match self.log.append(entry) {
            Ok(()) => {
                assert(self@ == c.appending(c.noop()));
                self.spread_last_entry();
            },
            Err(_) => {
                assert(self@ == c);
            },
        }
    }

    /// Stands for election in the next term.
    pub(crate) fn start_election(&mut self, now: Instant)
        requires
            old(self)@.wf(),
            old(self)@.hard_state.current_term < u64::MAX,
            old(self)@.log.last_index() < u64::MAX,
        ensures
            final(self)@ == old(self)@.electing(now.nanos, true) || (
            !old(self).log.storage.reliable() && final(self)@ == old(self)@.electing(
                now.nanos,
                false,
            )),
            final(self).log.storage.reliable() == old(self).log.storage.reliable(),
            final(self)@.wf(),
    {
        self.role = NodeRole::Candidate;
        self.hard_state = HardState {
            current_term: self.hard_state.current_term + 1,
            voted_for: self.config.node_id,
        };
        self.leader_state = None;
        self.votes_received = HashSet::new();
        self.leader_id = 0;
        self.persist_hard_state();
        self.reset_election_timeout(now);
        let ghost c = old(self)@.standing(now.nanos);
        assert(self@ == c);
        if self.config.quorum() == 1 {
            self.become_leader(now);
            return;
        }
        let req = RequestVoteRequest {
            term: self.hard_state.current_term,
            candidate_id: self.config.node_id,
            last_log_index: self.log.last_index(),
            last_log_term: self.log.last_term(),
            group_id: self.config.group_id,
        };
        let ghost had = self.ready.vote_requests@;
        let mut i: usize = 0;
        while i < self.config.peers.len()
            invariant
                i <= self.config.peers@.len(),
                req == c.vote_request(),
                c.wf(),
                had == c.ready.vote_requests,
                self@.config == c.config,
                self@ == (NodeView {
                    ready: machine::ReadyView {
                        vote_requests: had + Seq::new(
                            i as nat,
                            |k: int| (c.config.peers[k], req),
                        ),
                        ..c.ready
                    },
                    ..c
                }),
                self.log == old(self).log,
            decreases self.config.peers@.len() - i,
        {
            let p: u64 = self.config.peers[i];
            self.ready.vote_requests.push((p, req));
            i = i + 1;
            assert(self.ready.vote_requests@ =~= had + Seq::new(
                i as nat,
                |k: int| (c.config.peers[k], req),
            ));
        }
        assert(self@.ready.vote_requests =~= c.canvassing().ready.vote_requests);
    }
}

/// The best commit index is at least the present one and within the log, and
/// committable when it is larger.
pub proof fn lemma_best_commit(v: NodeView, n: int)
    requires
        n <= v.log.last_index(),
    ensures
        v.best_commit(n) >= v.commit_index,
        v.best_commit(n) > v.commit_index ==> v.committable(v.best_commit(n)),
        v.best_commit(n) <= n || v.best_commit(n) == v.commit_index,
        forall|m: int| v.best_commit(n) < m <= n ==> !(#[trigger] v.committable(m)),
    decreases n,
{
    if n > v.commit_index && n > 0 && !v.committable(n) {
        lemma_best_commit(v, n - 1);
    }
}

} // verus!
