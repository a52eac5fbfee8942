//! The node itself: its parts, its constructor, accessors, `tick` and `propose`.

use std::collections::HashSet;

use vstd::prelude::*;

use crate::raft::error::RaftError;
use crate::raft::log;
use crate::raft::log::{LogView, RaftLog};
use crate::raft::message;
use crate::raft::message::{
    AppendEntriesRequest, AppendView, EntryView, LogEntry, RequestVoteRequest,
};
use crate::raft::node::config::{ConfigView, RaftConfig};
use crate::raft::state;
use crate::raft::state::{HardState, LeaderState, LeaderView, NodeRole, VolatileState};
use crate::raft::storage::{LogStorage, StoredView};
use crate::time;
use crate::time::Instant;

verus! {

broadcast use vstd::std_specs::hash::group_hash_axioms;

/// Output of a tick or of a message: what the driver of the node has to
/// persist, send and apply.
#[derive(Debug)]
pub struct Ready {
    /// Hard state to persist, if it changed.
    pub hard_state: Option<HardState>,
    /// Append requests, each with the peer that it goes to.
    pub messages: Vec<(u64, AppendEntriesRequest)>,
    /// Vote requests, each with the peer that it goes to.
    pub vote_requests: Vec<(u64, RequestVoteRequest)>,
    /// Newly committed entries to apply.
    pub committed_entries: Vec<LogEntry>,
    /// Peers that need a snapshot because their next entry has been compacted away.
    pub snapshots_needed: Vec<u64>,
}

/// The output as a value.
#[verifier::ext_equal]
pub struct ReadyView {
    pub hard_state: Option<HardState>,
    pub messages: Seq<(u64, AppendView)>,
    pub vote_requests: Seq<(u64, RequestVoteRequest)>,
    pub committed_entries: Seq<EntryView>,
    pub snapshots_needed: Seq<u64>,
}

impl ReadyView {
    /// Nothing to do.
    pub open spec fn empty() -> ReadyView {
        ReadyView {
            hard_state: None,
            messages: Seq::empty(),
            vote_requests: Seq::empty(),
            committed_entries: Seq::empty(),
            snapshots_needed: Seq::empty(),
        }
    }
}

/// The views of outgoing append requests, in order.
pub open spec fn messages_view(s: Seq<(u64, AppendEntriesRequest)>) -> Seq<(u64, AppendView)> {
    Seq::new(s.len(), |i: int| (s[i].0, s[i].1@))
}

impl View for Ready {
    type V = ReadyView;

    open spec fn view(&self) -> ReadyView {
        ReadyView {
            hard_state: self.hard_state,
            messages: messages_view(self.messages@),
            vote_requests: self.vote_requests@,
            committed_entries: message::entries_view(self.committed_entries@),
            snapshots_needed: self.snapshots_needed@,
        }
    }
}

impl Default for Ready {
    fn default() -> (r: Ready)
        ensures
            r@ == ReadyView::empty(),
    {
        let r = Ready {
            hard_state: None,
            messages: Vec::new(),
            vote_requests: Vec::new(),
            committed_entries: Vec::new(),
            snapshots_needed: Vec::new(),
        };
        assert(r@ =~= ReadyView::empty());
        r
    }
}

impl Ready {
    /// Whether there is nothing to do.
    pub fn is_empty(&self) -> (r: bool)
        ensures
            r == (self@ == ReadyView::empty()),
    {
        let r = self.hard_state.is_none() && self.messages.is_empty()
            && self.vote_requests.is_empty() && self.committed_entries.is_empty()
            && self.snapshots_needed.is_empty();
        proof {
            if r {
                assert(self@ =~= ReadyView::empty());
            } else {
                assert(self@.messages.len() == self.messages@.len());
                assert(self@.committed_entries.len() == self.committed_entries@.len());
            }
        }
        r
    }
}

/// One member of a Raft group: a deterministic state machine that is driven by
/// `tick` and by the messages it is handed, and that leaves its output in
/// `take_ready`.
pub struct RaftNode<S: LogStorage> {
    pub config: RaftConfig,
    pub role: NodeRole,
    pub hard_state: HardState,
    pub volatile: VolatileState,
    /// Replication progress, held by a leader.
    pub leader_state: Option<LeaderState>,
    pub log: RaftLog<S>,
    /// When the node calls an election unless it hears from a leader first.
    pub election_deadline: Instant,
    /// When a leader sends its next heartbeat.
    pub heartbeat_deadline: Instant,
    /// Voters that granted their vote in the running election.
    pub votes_received: HashSet<u64>,
    /// Output not yet taken.
    pub ready: Ready,
    /// Highest committed index already put out through `ready`.
    pub ready_commit_index: u64,
    /// The leader as far as it is known, else 0.
    pub leader_id: u64,
}

/// A node as a value.
#[verifier::ext_equal]
pub struct NodeView {
    pub config: ConfigView,
    pub role: NodeRole,
    pub hard_state: HardState,
    pub commit_index: u64,
    pub last_applied: u64,
    pub leader: Option<LeaderView>,
    pub log: LogView,
    pub stored: StoredView,
    pub election_deadline: u64,
    pub heartbeat_deadline: u64,
    pub votes: Set<u64>,
    pub ready: ReadyView,
    pub ready_commit_index: u64,
    pub leader_id: u64,
}

/// The view of an optional leader record.
pub open spec fn leader_view(l: Option<LeaderState>) -> Option<LeaderView> {
    match l {
        Some(s) => Some(s@),
        None => None,
    }
}

impl<S: LogStorage> View for RaftNode<S> {
    type V = NodeView;

    open spec fn view(&self) -> NodeView {
        NodeView {
            config: self.config@,
            role: self.role,
            hard_state: self.hard_state,
            commit_index: self.volatile.commit_index,
            last_applied: self.volatile.last_applied,
            leader: leader_view(self.leader_state),
            log: self.log@,
            stored: self.log.stored(),
            election_deadline: self.election_deadline.nanos,
            heartbeat_deadline: self.heartbeat_deadline.nanos,
            votes: self.votes_received@,
            ready: self.ready@,
            ready_commit_index: self.ready_commit_index,
            leader_id: self.leader_id,
        }
    }
}

impl NodeView {
    /// What every operation relies on and keeps.
    pub open spec fn wf(self) -> bool {
        &&& self.config.wf()
        &&& self.log.wf()
        &&& self.votes.finite()
    }

    /// When an election falls due for a node that last heard from a leader at
    /// `now`: the shortest timeout, and a part of the span up to the longest one
    /// that depends on the clock's low digits.
    pub open spec fn deadline_after(self, now: u64) -> u64 {
        let min = self.config.election_timeout_min;
        let max = self.config.election_timeout_max;
        let jitter: int = if max > min {
            now as int % (max - min)
        } else {
            0
        };
        time::saturating_sum(time::saturating_sum(now as int, min as int), jitter) as u64
    }

    /// With the election timeout started afresh.
    pub open spec fn rested(self, now: u64) -> NodeView {
        NodeView { election_deadline: self.deadline_after(now), ..self }
    }

    /// With the hard state put out for persisting.
    pub open spec fn persisting(self) -> NodeView {
        NodeView {
            ready: ReadyView { hard_state: Some(self.hard_state), ..self.ready },
            ..self
        }
    }

    /// As a follower of `term`, of which no leader is known. A learner stays
    /// one, and a vote is kept within its term.
    pub open spec fn following(self, term: u64, now: u64) -> NodeView {
        NodeView {
            role: if self.role == NodeRole::Learner {
                NodeRole::Learner
            } else {
                NodeRole::Follower
            },
            hard_state: if term > self.hard_state.current_term {
                HardState { current_term: term, voted_for: 0 }
            } else {
                self.hard_state
            },
            leader: None,
            votes: Set::empty(),
            leader_id: 0,
            ..self
        }.persisting().rested(now)
    }

    /// The append request that brings `peer` up to date.
    pub open spec fn append_for(self, peer: u64) -> AppendView {
        let next = self.leader->0.next_of(peer);
        let prev = next - 1;
        AppendView {
            term: self.hard_state.current_term,
            leader_id: self.config.node_id,
            prev_log_index: prev as u64,
            prev_log_term: match self.log.term_at(prev) {
                Some(t) => t,
                None => 0,
            },
            entries: if next <= self.log.last_index() {
                self.log.entries.skip(prev - self.log.snapshot_index)
            } else {
                Seq::empty()
            },
            leader_commit: self.commit_index,
            group_id: self.config.group_id,
        }
    }

    /// Whether `peer` lacks entries that only the snapshot still holds.
    pub open spec fn needs_snapshot(self, peer: u64) -> bool {
        self.leader->0.next_of(peer) <= self.log.snapshot_index
    }

    /// With an append request, or a note that a snapshot is due, put out for `peer`.
    pub open spec fn sending(self, peer: u64) -> NodeView {
        if self.leader is None {
            self
        } else if self.needs_snapshot(peer) {
            NodeView {
                ready: ReadyView {
                    snapshots_needed: self.ready.snapshots_needed.push(peer),
                    ..self.ready
                },
                ..self
            }
        } else {
            NodeView {
                ready: ReadyView {
                    messages: self.ready.messages.push((peer, self.append_for(peer))),
                    ..self.ready
                },
                ..self
            }
        }
    }

    /// With something put out for each of `peers`, in order.
    pub open spec fn sending_all(self, peers: Seq<u64>) -> NodeView
        decreases peers.len(),
    {
        if peers.len() == 0 {
            self
        } else {
            self.sending_all(peers.drop_last()).sending(peers.last())
        }
    }

    /// With something put out for every tracked peer.
    pub open spec fn replicating(self) -> NodeView {
        match self.leader {
            Some(l) => self.sending_all(l.peers),
            None => self,
        }
    }

    /// Index of the first committed entry that has not been put out.
    pub open spec fn first_unemitted(self) -> int {
        if self.ready_commit_index >= self.log.snapshot_index {
            self.ready_commit_index + 1
        } else {
            self.log.snapshot_index + 1
        }
    }

    /// With the committed entries that have not been put out, put out.
    pub open spec fn emitting(self) -> NodeView {
        let first = self.first_unemitted();
        if first > self.commit_index {
            self
        } else {
            NodeView {
                ready: ReadyView {
                    committed_entries: self.ready.committed_entries + self.log.entries.subrange(
                        first - self.log.snapshot_index - 1,
                        self.commit_index - self.log.snapshot_index,
                    ),
                    ..self.ready
                },
                ready_commit_index: self.commit_index,
                ..self
            }
        }
    }

    /// With everything up to `index` committed and put out.
    pub open spec fn committing(self, index: u64) -> NodeView {
        NodeView { commit_index: index, ..self }.emitting()
    }

    /// Voters known to hold the log up to `n`, this node included.
    pub open spec fn holders(self, n: int) -> nat {
        1 + self.config.peers.filter(|p: u64| self.leader->0.match_of(p) >= n).len()
    }

    /// Whether a quorum holds the entry at `n` and it is of the current term.
    pub open spec fn committable(self, n: int) -> bool {
        &&& self.commit_index < n <= self.log.last_index()
        &&& self.log.term_at(n) == Some(self.hard_state.current_term)
        &&& self.holders(n) >= self.config.quorum()
    }

    /// The largest committable index up to `n`, or the commit index as it is.
    pub open spec fn best_commit(self, n: int) -> int
        decreases n,
    {
        if n <= self.commit_index || n <= 0 {
            self.commit_index as int
        } else if self.committable(n) {
            n
        } else {
            self.best_commit(n - 1)
        }
    }

    /// With the commit index moved as far as the acknowledgements allow.
    pub open spec fn advancing(self) -> NodeView {
        let n = self.best_commit(self.log.last_index());
        if self.leader is None || n <= self.commit_index {
            self
        } else {
            self.committing(n as u64)
        }
    }

    /// The entry that opens a leader's term.
    pub open spec fn noop(self) -> EntryView {
        EntryView {
            term: self.hard_state.current_term,
            index: (self.log.last_index() + 1) as u64,
            data: Seq::empty(),
        }
    }

    /// With `e` at the end of the log and of what is stored.
    pub open spec fn appending(self, e: EntryView) -> NodeView {
        NodeView { log: self.log.appended(e), stored: self.stored.appended(seq![e]), ..self }
    }

    /// With the last entry sent on to every peer, and committed at once where
    /// this node is the only voter.
    pub open spec fn spreading(self) -> NodeView {
        let r = self.replicating();
        if self.config.cluster_size() == 1 {
            r.committing(self.log.last_index() as u64)
        } else {
            r
        }
    }

    /// With the leader's role assumed and every peer tracked from the log's end.
    pub open spec fn crowned(self, now: u64) -> NodeView {
        NodeView {
            role: NodeRole::Leader,
            leader_id: self.config.node_id,
            leader: Some(
                LeaderView::starting(
                    self.config.peers + self.config.learners,
                    self.log.last_index(),
                ),
            ),
            heartbeat_deadline: time::saturating_sum(
                now as int,
                self.config.heartbeat_interval as int,
            ) as u64,
            ..self
        }
    }

    /// As leader. `stored_ok` tells whether storage took the opening entry;
    /// without it nothing is sent.
    pub open spec fn leading(self, now: u64, stored_ok: bool) -> NodeView {
        let c = self.crowned(now);
        if stored_ok {
            c.appending(c.noop()).spreading()
        } else {
            c
        }
    }

    /// The vote request of a candidate.
    pub open spec fn vote_request(self) -> RequestVoteRequest {
        RequestVoteRequest {
            term: self.hard_state.current_term,
            candidate_id: self.config.node_id,
            last_log_index: self.log.last_index() as u64,
            last_log_term: self.log.last_term(),
            group_id: self.config.group_id,
        }
    }

    /// As a candidate of the next term that voted for itself.
    pub open spec fn standing(self, now: u64) -> NodeView {
        NodeView {
            role: NodeRole::Candidate,
            hard_state: HardState {
                current_term: (self.hard_state.current_term + 1) as u64,
                voted_for: self.config.node_id,
            },
            leader: None,
            votes: Set::empty(),
            leader_id: 0,
            ..self
        }.persisting().rested(now)
    }

    /// With a vote request put out for every other voter.
    pub open spec fn canvassing(self) -> NodeView {
        NodeView {
            ready: ReadyView {
                vote_requests: self.ready.vote_requests + Seq::new(
                    self.config.peers.len(),
                    |i: int| (self.config.peers[i], self.vote_request()),
                ),
                ..self.ready
            },
            ..self
        }
    }

    /// After calling an election, which a sole voter wins at once.
    pub open spec fn electing(self, now: u64, stored_ok: bool) -> NodeView {
        let c = self.standing(now);
        if c.config.quorum() == 1 {
            c.leading(now, stored_ok)
        } else {
            c.canvassing()
        }
    }

    /// Whether the election timeout has run out for a node that may stand.
    pub open spec fn election_due(self, now: u64) -> bool {
        (self.role == NodeRole::Follower || self.role == NodeRole::Candidate) && now
            >= self.election_deadline
    }

    /// After `now` has been reached.
    pub open spec fn ticked(self, now: u64, stored_ok: bool) -> NodeView {
        if self.election_due(now) {
            self.electing(now, stored_ok)
        } else if self.role == NodeRole::Leader && now >= self.heartbeat_deadline {
            NodeView {
                heartbeat_deadline: time::saturating_sum(
                    now as int,
                    self.config.heartbeat_interval as int,
                ) as u64,
                ..self.replicating()
            }
        } else {
            self
        }
    }
}

impl NodeView {
    /// A node that has not read its storage yet.
    pub open spec fn booting(config: ConfigView, stored: StoredView, now: u64) -> NodeView {
        NodeView {
            config,
            role: if config.starts_as_learner {
                NodeRole::Learner
            } else {
                NodeRole::Follower
            },
            hard_state: HardState { current_term: 0, voted_for: 0 },
            commit_index: 0,
            last_applied: 0,
            leader: None,
            log: LogView::fresh(),
            stored,
            election_deadline: time::saturating_sum(
                now as int,
                config.election_timeout_max as int,
            ) as u64,
            heartbeat_deadline: now,
            votes: Set::empty(),
            ready: ReadyView::empty(),
            ready_commit_index: 0,
            leader_id: 0,
        }
    }

    /// After reading storage: the snapshot is all that is known to be
    /// committed and applied.
    pub open spec fn restored(self, now: u64) -> NodeView {
        let st = self.stored;
        NodeView {
            hard_state: st.hard_state,
            log: LogView {
                snapshot_index: st.snapshot_index,
                snapshot_term: st.snapshot_term,
                entries: st.entries_after(st.snapshot_index),
            },
            commit_index: st.snapshot_index,
            last_applied: st.snapshot_index,
            ready_commit_index: st.snapshot_index,
            ..self
        }.rested(now)
    }

    /// With the pending hard state, if there is one, written to storage.
    pub open spec fn saved(self) -> NodeView {
        NodeView {
            stored: match self.ready.hard_state {
                Some(hs) => self.stored.with_hard_state(hs),
                None => self.stored,
            },
            ..self
        }
    }

    /// With the output handed over.
    pub open spec fn drained(self) -> NodeView {
        NodeView { ready: ReadyView::empty(), ..self }
    }

    /// Whether `now` brings nothing that the index and term types cannot count.
    pub open spec fn can_tick(self, now: u64) -> bool {
        self.election_due(now) ==> self.hard_state.current_term < u64::MAX
            && self.log.last_index() < u64::MAX
    }

    /// The leader as far as it is known.
    pub open spec fn leader_hint(self) -> Option<u64> {
        if self.leader_id != 0 {
            Some(self.leader_id)
        } else {
            None
        }
    }

    /// The entry that a proposal of `data` would become.
    pub open spec fn proposal(self, data: Seq<u8>) -> EntryView {
        EntryView {
            term: self.hard_state.current_term,
            index: (self.log.last_index() + 1) as u64,
            data,
        }
    }

    /// After `data` was proposed and stored.
    pub open spec fn proposed(self, data: Seq<u8>) -> NodeView {
        self.appending(self.proposal(data)).spreading()
    }
}

impl<S: LogStorage> RaftNode<S> {
    /// A node over `storage`, which `restore` reads before the first tick.
    ///
    /// With `starts_as_learner` set it boots as a learner: it neither stands
    /// for election nor leads until it is promoted.
    pub fn new(config: RaftConfig, storage: S, now: Instant) -> (r: RaftNode<S>)
        ensures
            r@ == NodeView::booting(config@, storage.stored(), now.nanos),
            r.log.storage == storage,
            config@.wf() ==> r@.wf(),
    {
        let role = if config.starts_as_learner {
            NodeRole::Learner
        } else {
            NodeRole::Follower
        };
        RaftNode {
            log: RaftLog::new(storage),
            role,
            hard_state: HardState::new(),
            volatile: VolatileState::new(),
            leader_state: None,
            election_deadline: now.after(config.election_timeout_max),
            heartbeat_deadline: now,
            votes_received: HashSet::new(),
            ready: Ready::default(),
            ready_commit_index: 0,
            leader_id: 0,
            config,
        }
    }

    /// Takes up what storage holds. Comes before the first tick.
    pub fn restore(&mut self, now: Instant) -> (r: Result<(), RaftError>)
        requires
            old(self)@.wf(),
        ensures
            final(self)@.wf(),
            final(self).log.storage == old(self).log.storage,
            r is Ok ==> final(self)@ == old(self)@.restored(now.nanos),
            r is Err ==> final(self)@ == old(self)@ || final(self)@ == (NodeView {
                hard_state: old(self)@.stored.hard_state,
                ..old(self)@
            }),
            old(self).log.storage.reliable() ==> {
                let st = old(self)@.stored;
                let es = st.entries_after(st.snapshot_index);
                &&& r is Ok <==> log::follows(st.snapshot_index, es)
                &&& r matches Err(e) ==> log::is_gap_error(e, st.snapshot_index, es)
                &&& r is Err ==> final(self)@ == (NodeView {
                    hard_state: st.hard_state,
                    ..old(self)@
                })
            },
    {
        self.hard_state = match self.log.storage().load_hard_state() {
            Ok(hs) => hs,
            Err(e) => return Err(e),
        };
        match self.log.restore() {
            Ok(()) => {},
            Err(e) => return Err(e),
        }
        let applied: u64 = self.log.snapshot_index();
        self.volatile.commit_index = applied;
        self.volatile.last_applied = applied;
        self.ready_commit_index = applied;
        self.reset_election_timeout(now);
        Ok(())
    }

    /// This node's id.
    pub fn node_id(&self) -> (r: u64)
        ensures
            r == self@.config.node_id,
    {
        self.config.node_id
    }

    /// The id of the group that this node is a member of.
    pub fn group_id(&self) -> (r: u64)
        ensures
            r == self@.config.group_id,
    {
        self.config.group_id
    }

    /// The part this node plays.
    pub fn role(&self) -> (r: NodeRole)
        ensures
            r == self@.role,
    {
        self.role
    }

    /// The known leader, else 0.
    pub fn leader_id(&self) -> (r: u64)
        ensures
            r == self@.leader_id,
    {
        self.leader_id
    }

    /// The latest term this node has seen.
    pub fn current_term(&self) -> (r: u64)
        ensures
            r == self@.hard_state.current_term,
    {
        self.hard_state.current_term
    }

    /// The candidate that got this node's vote in the current term, else 0.
    pub fn voted_for(&self) -> (r: u64)
        ensures
            r == self@.hard_state.voted_for,
    {
        self.hard_state.voted_for
    }

    /// The highest index known to be committed.
    pub fn commit_index(&self) -> (r: u64)
        ensures
            r == self@.commit_index,
    {
        self.volatile.commit_index
    }

    /// The highest index that has been applied.
    pub fn last_applied(&self) -> (r: u64)
        ensures
            r == self@.last_applied,
    {
        self.volatile.last_applied
    }

    /// Sets when the next election falls due.
    pub fn election_deadline_override(&mut self, deadline: Instant)
        ensures
            final(self)@ == (NodeView { election_deadline: deadline.nanos, ..old(self)@ }),
            final(self).log == old(self).log,
    {
        self.election_deadline = deadline;
    }

    /// Hands over the pending output, which the caller persists, sends and applies.
    pub fn take_ready(&mut self) -> (r: Ready)
        ensures
            r@ == old(self)@.ready,
            final(self)@ == old(self)@.drained(),
            final(self).log == old(self).log,
    {
        let mut out = Ready::default();
        core::mem::swap(&mut out, &mut self.ready);
        out
    }

    /// Records how far the caller has applied committed entries.
    pub fn advance_applied(&mut self, applied_to: u64)
        ensures
            final(self)@ == (NodeView { last_applied: applied_to, ..old(self)@ }),
            final(self).log == old(self).log,
    {
        self.volatile.last_applied = applied_to;
    }

    /// How far `peer` is known to hold the log; only a leader knows. 0 for a
    /// peer that it does not track.
    pub fn match_index_for(&self, peer: u64) -> (r: Option<u64>)
        ensures
            r == match self@.leader {
                Some(l) => Some(l.match_of(peer)),
                None => None,
            },
    {
        match &self.leader_state {
            Some(l) => Some(l.match_index_for(peer)),
            None => None,
        }
    }

    /// Index of the last entry that the log's snapshot covers.
    pub fn log_snapshot_index(&self) -> (r: u64)
        ensures
            r == self@.log.snapshot_index,
    {
        self.log.snapshot_index()
    }

    /// Term of the last entry that the log's snapshot covers.
    pub fn log_snapshot_term(&self) -> (r: u64)
        ensures
            r == self@.log.snapshot_term,
    {
        self.log.snapshot_term()
    }

    /// Writes the pending hard state, if there is one, to storage.
    pub fn persist_ready_hard_state(&mut self) -> (r: Result<(), RaftError>)
        ensures
            final(self).log@ == old(self).log@,
            final(self).log.storage.reliable() == old(self).log.storage.reliable(),
            old(self)@.ready.hard_state is None ==> r is Ok,
            old(self).log.storage.reliable() ==> r is Ok,
            r is Ok ==> final(self)@ == old(self)@.saved(),
            r is Err ==> final(self)@ == old(self)@,
    {
        match self.ready.hard_state {
            Some(hs) => self.log.storage.save_hard_state(&hs),
            None => Ok(()),
        }
    }

    /// The other voters.
    pub fn peers(&self) -> (r: &[u64])
        ensures
            r@ == self@.config.peers,
    {
        self.config.peers.as_slice()
    }

    /// The other voters; the name that sets them off from the learners.
    pub fn voters(&self) -> (r: &[u64])
        ensures
            r@ == self@.config.peers,
    {
        self.config.peers.as_slice()
    }

    /// The other members that only learn.
    pub fn learners(&self) -> (r: &[u64])
        ensures
            r@ == self@.config.learners,
    {
        self.config.learners.as_slice()
    }

    /// Whether `peer` is one of the learners.
    pub fn is_learner_peer(&self, peer: u64) -> (r: bool)
        ensures
            r == self@.config.learners.contains(peer),
    {
        state::contains_id(&self.config.learners, peer)
    }

    /// Lets time pass: calls an election or sends heartbeats when they fall due.
    pub fn tick(&mut self, now: Instant)
        requires
            old(self)@.wf(),
            old(self)@.can_tick(now.nanos),
        ensures
            final(self)@ == old(self)@.ticked(now.nanos, true) || (
            !old(self).log.storage.reliable() && final(self)@ == old(self)@.ticked(
                now.nanos,
                false,
            )),
            final(self).log.storage.reliable() == old(self).log.storage.reliable(),
            final(self)@.wf(),
    {
        match self.role {
            NodeRole::Follower | NodeRole::Candidate => {
                if now.reached(self.election_deadline) {
                    self.start_election(now);
                }
            },
            NodeRole::Leader => {
                if now.reached(self.heartbeat_deadline) {
                    self.replicate_to_all();
                    proof {
                        match old(self)@.leader {
                            Some(l) => crate::raft::node::internal::lemma_sending_all_frame(
                                old(self)@,
                                l.peers,
                            ),
                            None => {},
                        }
                    }
                    self.heartbeat_deadline = now.after(self.config.heartbeat_interval);
                }
            },
            NodeRole::Learner => {},
        }
    }

    /// Appends `data` to the log of a leader and returns its index.
    pub fn propose(&mut self, data: Vec<u8>) -> (r: Result<u64, RaftError>)
        requires
            old(self)@.wf(),
            old(self)@.role == NodeRole::Leader ==> old(self)@.log.last_index() < u64::MAX,
        ensures
            final(self).log.storage.reliable() == old(self).log.storage.reliable(),
            final(self)@.wf(),
            old(self)@.role != NodeRole::Leader ==> r == Err::<u64, RaftError>(
                (RaftError::NotLeader { leader_hint: old(self)@.leader_hint() }),
            ),
            old(self)@.role == NodeRole::Leader && old(self).log.storage.reliable() ==> r is Ok,
            r matches Ok(i) ==> {
                &&& old(self)@.role == NodeRole::Leader
                &&& i == old(self)@.log.last_index() + 1
                &&& final(self)@ == old(self)@.proposed(data@)
            },
            r is Err ==> final(self)@ == old(self)@,
    {
        if self.role != NodeRole::Leader {
            return Err(
                RaftError::NotLeader {
                    leader_hint: if self.leader_id != 0 {
                        Some(self.leader_id)
                    } else {
                        None
                    },
                },
            );
        }
        let index: u64 = self.log.last_index() + 1;
        let ghost d = data@;
        let entry = LogEntry { term: self.hard_state.current_term, index, data };
        assert(entry@ =~= self@.proposal(d));
        match self.log.append(entry) {
            Ok(()) => {},
            Err(e) => return Err(e),
        }
        assert(self@ == old(self)@.appending(old(self)@.proposal(d)));
        self.spread_last_entry();
        Ok(index)
    }
}

} // verus!
