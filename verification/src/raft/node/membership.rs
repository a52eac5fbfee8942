//! Changes of a group's voters and learners.
//!
//! A leader's replication tracking follows every change, so that a peer that
//! joins starts to receive the log at once.

use vstd::prelude::*;

use crate::raft::node::config::ConfigView;
use crate::raft::node::machine;
use crate::raft::node::machine::{NodeView, RaftNode};
use crate::raft::state;
use crate::raft::state::{LeaderView, NodeRole};
use crate::raft::storage::LogStorage;

verus! {

broadcast use vstd::std_specs::hash::group_hash_axioms;

/// Tracking after every one of `new` that is neither in `old_peers` nor in
/// `learners` was added, in order.
pub open spec fn adding_voters(
    l: LeaderView,
    new: Seq<u64>,
    old_peers: Seq<u64>,
    learners: Seq<u64>,
    last: int,
) -> LeaderView
    decreases new.len(),
{
    if new.len() == 0 {
        l
    } else {
        let r = adding_voters(l, new.drop_last(), old_peers, learners, last);
        if old_peers.contains(new.last()) || learners.contains(new.last()) {
            r
        } else {
            r.added(new.last(), last)
        }
    }
}

/// Tracking after every one of `old_peers` that is neither in `new` nor in
/// `learners` was removed, in order.
pub open spec fn removing_voters(
    l: LeaderView,
    new: Seq<u64>,
    old_peers: Seq<u64>,
    learners: Seq<u64>,
) -> LeaderView
    decreases old_peers.len(),
{
    if old_peers.len() == 0 {
        l
    } else {
        let r = removing_voters(l, new, old_peers.drop_last(), learners);
        if new.contains(old_peers.last()) || learners.contains(old_peers.last()) {
            r
        } else {
            r.removed(old_peers.last())
        }
    }
}

impl NodeView {
    /// Whether `peer` is this node or already a member.
    pub open spec fn is_member(self, peer: u64) -> bool {
        peer == self.config.node_id || self.config.peers.contains(peer)
            || self.config.learners.contains(peer)
    }

    /// Whether `peer` is neither a voter nor a learner.
    pub open spec fn is_new(self, peer: u64) -> bool {
        !self.config.peers.contains(peer) && !self.config.learners.contains(peer)
    }

    /// Whether one of `voters` is no member yet.
    pub open spec fn brings_new(self, voters: Seq<u64>) -> bool {
        exists|i: int| 0 <= i < voters.len() && #[trigger] self.is_new(voters[i])
    }

    /// With the voters replaced.
    pub open spec fn with_voters(self, new: Seq<u64>) -> NodeView {
        NodeView {
            config: ConfigView { peers: new, ..self.config },
            leader: match self.leader {
                Some(l) => Some(
                    removing_voters(
                        adding_voters(
                            l,
                            new,
                            self.config.peers,
                            self.config.learners,
                            self.log.last_index(),
                        ),
                        new,
                        self.config.peers,
                        self.config.learners,
                    ),
                ),
                None => None,
            },
            ..self
        }
    }

    /// With one more voter.
    pub open spec fn with_peer(self, peer: u64) -> NodeView {
        if self.is_member(peer) {
            self
        } else {
            NodeView {
                config: ConfigView { peers: self.config.peers.push(peer), ..self.config },
                leader: match self.leader {
                    Some(l) => Some(l.added(peer, self.log.last_index())),
                    None => None,
                },
                ..self
            }
        }
    }

    /// With one voter less.
    pub open spec fn without_peer(self, peer: u64) -> NodeView {
        if !self.config.peers.contains(peer) {
            self
        } else {
            NodeView {
                config: ConfigView {
                    peers: state::without(self.config.peers, peer),
                    ..self.config
                },
                leader: match self.leader {
                    Some(l) => Some(
                        if self.config.learners.contains(peer) {
                            l
                        } else {
                            l.removed(peer)
                        },
                    ),
                    None => None,
                },
                ..self
            }
        }
    }

    /// With one more learner.
    pub open spec fn with_learner(self, peer: u64) -> NodeView {
        if self.is_member(peer) {
            self
        } else {
            NodeView {
                config: ConfigView { learners: self.config.learners.push(peer), ..self.config },
                leader: match self.leader {
                    Some(l) => Some(l.added(peer, self.log.last_index())),
                    None => None,
                },
                ..self
            }
        }
    }

    /// With one learner less.
    pub open spec fn without_learner(self, peer: u64) -> NodeView {
        if !self.config.learners.contains(peer) {
            self
        } else {
            NodeView {
                config: ConfigView {
                    learners: state::without(self.config.learners, peer),
                    ..self.config
                },
                leader: match self.leader {
                    Some(l) => Some(l.removed(peer)),
                    None => None,
                },
                ..self
            }
        }
    }

    /// With a learner made a voter; its tracked progress stays.
    pub open spec fn with_promoted(self, peer: u64) -> NodeView {
        if !self.config.learners.contains(peer) {
            self
        } else {
            NodeView {
                config: ConfigView {
                    learners: state::without(self.config.learners, peer),
                    peers: if self.config.peers.contains(peer) {
                        self.config.peers
                    } else {
                        self.config.peers.push(peer)
                    },
                    ..self.config
                },
                ..self
            }
        }
    }

    /// With this node itself made a voter.
    pub open spec fn self_promoted(self) -> NodeView {
        if self.role == NodeRole::Learner {
            NodeView {
                role: NodeRole::Follower,
                config: ConfigView { starts_as_learner: false, ..self.config },
                ..self
            }
        } else {
            self
        }
    }
}

/// No voter is added to the tracking when all of them are known.
proof fn lemma_adding_none(
    l: LeaderView,
    new: Seq<u64>,
    old_peers: Seq<u64>,
    learners: Seq<u64>,
    last: int,
)
    requires
        forall|i: int| 0 <= i < new.len() ==> old_peers.contains(#[trigger] new[i]),
    ensures
        adding_voters(l, new, old_peers, learners, last) == l,
    decreases new.len(),
{
    if new.len() > 0 {
        assert(old_peers.contains(new[new.len() - 1]));
        assert forall|i: int| 0 <= i < new.drop_last().len() implies old_peers.contains(
            #[trigger] new.drop_last()[i],
        ) by {
            assert(new.drop_last()[i] == new[i]);
        }
        lemma_adding_none(l, new.drop_last(), old_peers, learners, last);
    }
}

/// Removing the voters that are missing from `new`, where only `peer` is, forgets `peer`.
proof fn lemma_removing_one(
    l: LeaderView,
    new: Seq<u64>,
    old_peers: Seq<u64>,
    learners: Seq<u64>,
    peer: u64,
)
    requires
        forall|i: int|
            0 <= i < old_peers.len() ==> (new.contains(#[trigger] old_peers[i]) <==> old_peers[i]
                != peer),
    ensures
        removing_voters(l, new, old_peers, learners) == if old_peers.contains(peer)
            && !learners.contains(peer) {
            l.removed(peer)
        } else {
            l
        },
    decreases old_peers.len(),
{
    if old_peers.len() > 0 {
        let init = old_peers.drop_last();
        assert forall|i: int| 0 <= i < init.len() implies (new.contains(#[trigger] init[i])
            <==> init[i] != peer) by {
            assert(init[i] == old_peers[i]);
        }
        lemma_removing_one(l, new, init, learners, peer);
        let n = old_peers.len() - 1;
        assert(new.contains(old_peers[n]) <==> old_peers[n] != peer);
        if old_peers[n] == peer {
            assert(old_peers.contains(peer));
            lemma_removed_twice(l, peer);
        } else {
            if init.contains(peer) {
                let i = init.index_of(peer);
                assert(old_peers[i] == peer);
            }
            if old_peers.contains(peer) {
                let i = old_peers.index_of(peer);
                assert(init[i] == peer);
            }
        }
    }
}

/// Forgetting a peer a second time changes nothing.
proof fn lemma_removed_twice(l: LeaderView, peer: u64)
    ensures
        l.removed(peer).removed(peer) == l.removed(peer),
{
    state::lemma_without(l.peers, peer);
    state::lemma_without(state::without(l.peers, peer), peer);
    assert(l.removed(peer).removed(peer) =~= l.removed(peer));
}

impl<S: LogStorage> RaftNode<S> {
    /// Replaces the voters. A leader starts to track those that are new and
    /// forgets those that are gone; learners are not touched.
    pub(crate) fn set_voters(&mut self, new_voters: Vec<u64>)
        requires
            old(self)@.wf(),
            old(self)@.leader is Some && old(self)@.brings_new(new_voters@)
                ==> old(self)@.log.last_index() < u64::MAX,
            new_voters@.len() < usize::MAX,
        ensures
            final(self)@ == old(self)@.with_voters(new_voters@),
            final(self).log == old(self).log,
            final(self)@.wf(),
    {
        let last: u64 = self.log.last_index();
        let ghost v = self@;
        let mut tracking = None;
        core::mem::swap(&mut tracking, &mut self.leader_state);
        match tracking {
            None => {},
            Some(mut leader) => {
                let ghost l = leader@;
                let mut i: usize = 0;
                assert(new_voters@.take(0) =~= Seq::empty());
                while i < new_voters.len()
                    invariant
                        i <= new_voters@.len(),
                        v.brings_new(new_voters@) ==> last < u64::MAX,
                        self.config@ == v.config,
                        leader@ == adding_voters(
                            l,
                            new_voters@.take(i as int),
                            v.config.peers,
                            v.config.learners,
                            last as int,
                        ),
                    decreases new_voters@.len() - i,
                {
                    let peer: u64 = new_voters[i];
                    assert(new_voters@.take(i + 1).drop_last() =~= new_voters@.take(i as int));
                    if !state::contains_id(&self.config.peers, peer) && !state::contains_id(
                        &self.config.learners,
                        peer,
                    ) {
                        assert(v.is_new(new_voters@[i as int]));
                        leader.add_peer(peer, last);
                    }
                    i = i + 1;
                }
                assert(new_voters@.take(i as int) =~= new_voters@);
                let ghost added = leader@;
                let mut j: usize = 0;
                assert(v.config.peers.take(0) =~= Seq::empty());
                while j < self.config.peers.len()
                    invariant
                        j <= v.config.peers.len(),
                        self.config@ == v.config,
                        leader@ == removing_voters(
                            added,
                            new_voters@,
                            v.config.peers.take(j as int),
                            v.config.learners,
                        ),
                    decreases v.config.peers.len() - j,
                {
                    let peer: u64 = self.config.peers[j];
                    assert(v.config.peers.take(j + 1).drop_last() =~= v.config.peers.take(
                        j as int,
                    ));
                    if !state::contains_id(&new_voters, peer) && !state::contains_id(
                        &self.config.learners,
                        peer,
                    ) {
                        leader.remove_peer(peer);
                    }
                    j = j + 1;
                }
                assert(v.config.peers.take(j as int) =~= v.config.peers);
                self.leader_state = Some(leader);
            },
        }
        self.config.peers = new_voters;
    }

    /// Adds a voter. Nothing happens for this node itself, for a voter, and
    /// for a learner, which `promote_learner` turns into a voter.
    pub fn add_peer(&mut self, peer: u64)
        requires
            old(self)@.wf(),
            old(self)@.leader is Some && !old(self)@.is_member(peer)
                ==> old(self)@.log.last_index() < u64::MAX,
            !old(self)@.is_member(peer) ==> old(self)@.config.peers.len() + 1 < usize::MAX,
        ensures
            final(self)@ == old(self)@.with_peer(peer),
            final(self).log == old(self).log,
            final(self)@.wf(),
    {
        if peer == self.config.node_id || state::contains_id(&self.config.peers, peer)
            || state::contains_id(&self.config.learners, peer) {
            return;
        }
        let mut new_peers = self.config.peers.clone();
        assert(new_peers@ =~= self.config.peers@);
        new_peers.push(peer);
        proof {
            let v = self@;
            let new = v.config.peers.push(peer);
            match v.leader {
                Some(l) => {
                    let last = v.log.last_index();
                    assert(new.drop_last() =~= v.config.peers);
                    lemma_adding_none(l, v.config.peers, v.config.peers, v.config.learners, last);
                    let added = l.added(peer, last);
                    assert(adding_voters(l, new, v.config.peers, v.config.learners, last) == added);
                    assert forall|i: int| 0 <= i < v.config.peers.len() implies (new.contains(
                        #[trigger] v.config.peers[i],
                    ) <==> v.config.peers[i] != peer) by {
                        assert(new[i] == v.config.peers[i]);
                    }
                    lemma_removing_one(added, new, v.config.peers, v.config.learners, peer);
                },
                None => {},
            }
        }
        self.set_voters(new_peers);
    }

    /// Removes a voter.
    pub fn remove_peer(&mut self, peer: u64)
        requires
            old(self)@.wf(),
        ensures
            final(self)@ == old(self)@.without_peer(peer),
            final(self).log == old(self).log,
            final(self)@.wf(),
    {
        if !state::contains_id(&self.config.peers, peer) {
            return;
        }
        let new_peers = state::without_id(&self.config.peers, peer);
        proof {
            let v = self@;
            let new = state::without(v.config.peers, peer);
            state::lemma_without(v.config.peers, peer);
            match v.leader {
                Some(l) => {
                    let last = v.log.last_index();
                    assert forall|i: int| 0 <= i < new.len() implies v.config.peers.contains(
                        #[trigger] new[i],
                    ) by {
                        assert(new.contains(new[i]));
                    }
                    assert(!v.brings_new(new));
                    lemma_adding_none(l, new, v.config.peers, v.config.learners, last);
                    assert forall|i: int| 0 <= i < v.config.peers.len() implies (new.contains(
                        #[trigger] v.config.peers[i],
                    ) <==> v.config.peers[i] != peer) by {
                        assert(v.config.peers.contains(v.config.peers[i]));
                    }
                    lemma_removing_one(l, new, v.config.peers, v.config.learners, peer);
                },
                None => {},
            }
        }
        self.set_voters(new_peers);
    }

    /// Adds a learner: it receives the log, but does not vote and does not
    /// count toward the quorum. Nothing happens for this node itself and for a
    /// member.
    pub fn add_learner(&mut self, peer: u64)
        requires
            old(self)@.wf(),
            old(self)@.leader is Some && !old(self)@.is_member(peer)
                ==> old(self)@.log.last_index() < u64::MAX,
        ensures
            final(self)@ == old(self)@.with_learner(peer),
            final(self).log == old(self).log,
            final(self)@.wf(),
    {
        if peer == self.config.node_id || state::contains_id(&self.config.peers, peer)
            || state::contains_id(&self.config.learners, peer) {
            return;
        }
        let last: u64 = self.log.last_index();
        match &mut self.leader_state {
            Some(leader) => {
                leader.add_peer(peer, last);
            },
            None => {},
        }
        self.config.learners.push(peer);
    }

    /// Removes a learner.
    pub fn remove_learner(&mut self, peer: u64)
        requires
            old(self)@.wf(),
        ensures
            final(self)@ == old(self)@.without_learner(peer),
            final(self).log == old(self).log,
            final(self)@.wf(),
    {
        if !state::contains_id(&self.config.learners, peer) {
            return;
        }
        match &mut self.leader_state {
            Some(leader) => {
                leader.remove_peer(peer);
            },
            None => {},
        }
        self.config.learners = state::without_id(&self.config.learners, peer);
    }

    /// Makes a learner a voter, for a leader that saw it catch up. Returns
    /// whether `peer` was a learner.
    pub fn promote_learner(&mut self, peer: u64) -> (r: bool)
        requires
            old(self)@.wf(),
            old(self)@.config.learners.contains(peer) && !old(self)@.config.peers.contains(peer)
                ==> old(self)@.config.peers.len() + 1 < usize::MAX,
        ensures
            final(self)@ == old(self)@.with_promoted(peer),
            r == old(self)@.config.learners.contains(peer),
            final(self).log == old(self).log,
            final(self)@.wf(),
    {
        if !state::contains_id(&self.config.learners, peer) {
            return false;
        }
        self.config.learners = state::without_id(&self.config.learners, peer);
        if !state::contains_id(&self.config.peers, peer) {
            self.config.peers.push(peer);
        }
        true
    }

    /// Makes this node itself a voter: it takes part in elections from its
    /// next tick on.
    pub fn promote_self_to_voter(&mut self)
        ensures
            final(self)@ == old(self)@.self_promoted(),
            final(self).log == old(self).log,
    {
        if self.role == NodeRole::Learner {
            self.role = NodeRole::Follower;
            self.config.starts_as_learner = false;
        }
    }
}

} // verus!
