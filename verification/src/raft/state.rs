//! Per-node state of a Raft group.

use std::collections::HashMap;

use vstd::prelude::*;

verus! {

broadcast use vstd::std_specs::hash::group_hash_axioms;

/// What a node must remember across restarts.
#[derive(Debug, Clone, Copy, PartialEq, Eq, Structural)]
pub struct HardState {
    pub current_term: u64,
    /// Candidate that got this node's vote in the current term; 0 when none did.
    pub voted_for: u64,
}

impl HardState {
    /// The state of a node that has seen no term.
    pub fn new() -> (r: HardState)
        ensures
            r.current_term == 0,
            r.voted_for == 0,
    {
        HardState { current_term: 0, voted_for: 0 }
    }
}

/// The part a node plays in its group.
#[derive(Debug, Clone, Copy, PartialEq, Eq, Structural)]
pub enum NodeRole {
    Follower,
    Candidate,
    Leader,
    /// Receives the log but neither votes nor counts toward a quorum.
    Learner,
}

/// What a node may forget across restarts.
#[derive(Debug, Clone, Copy, PartialEq, Eq, Structural)]
pub struct VolatileState {
    /// Highest index known to be committed.
    pub commit_index: u64,
    /// Highest index handed to and applied by the state machine.
    pub last_applied: u64,
}

impl VolatileState {
    /// Nothing committed, nothing applied.
    pub fn new() -> (r: VolatileState)
        ensures
            r.commit_index == 0,
            r.last_applied == 0,
    {
        VolatileState { commit_index: 0, last_applied: 0 }
    }
}

/// Whether `x` occurs in `s`.
pub fn contains_id(s: &Vec<u64>, x: u64) -> (r: bool)
    ensures
        r == s@.contains(x),
{
    let mut i: usize = 0;
    while i < s.len()
        invariant
            i <= s.len(),
            forall|k: int| 0 <= k < i ==> s@[k] != x,
        decreases s.len() - i,
    {
        if s[i] == x {
            assert(s@[i as int] == x);
            return true;
        }
        i = i + 1;
    }
    false
}

/// The elements of `s` other than `x`, in order.
pub open spec fn without(s: Seq<u64>, x: u64) -> Seq<u64> {
    s.filter(|y: u64| y != x)
}

/// What `without` keeps: everything but `x`.
pub proof fn lemma_without(s: Seq<u64>, x: u64)
    ensures
        without(s, x).len() <= s.len(),
        !without(s, x).contains(x),
        forall|y: u64| y != x ==> (#[trigger] without(s, x).contains(y) <==> s.contains(y)),
        !s.contains(x) ==> without(s, x) == s,
    decreases s.len(),
{
    reveal(Seq::filter);
    if s.len() == 0 {
        assert(without(s, x) =~= s);
    } else {
        let init = s.drop_last();
        let last = s.last();
        lemma_without(init, x);
        assert(s =~= init.push(last));
        assert forall|y: u64| #[trigger] s.contains(y) <==> init.contains(y) || y == last by {
            if init.contains(y) {
                let i = init.index_of(y);
                assert(s[i] == y);
            }
            if s.contains(y) && y != last {
                let i = s.index_of(y);
                assert(init[i] == y);
            }
            if y == last {
                assert(s[s.len() - 1] == y);
            }
        }
        let w = without(init, x);
        if last != x {
            assert(without(s, x) == w.push(last));
            assert forall|y: u64| #[trigger]
                without(s, x).contains(y) <==> w.contains(y) || y == last by {
                if w.contains(y) {
                    let i = w.index_of(y);
                    assert(w.push(last)[i] == y);
                }
                if w.push(last).contains(y) && y != last {
                    let i = w.push(last).index_of(y);
                    assert(w[i] == y);
                }
                if y == last {
                    assert(w.push(last)[w.len() as int] == y);
                }
            }
        } else {
            assert(without(s, x) == w);
        }
    }
}

/// Copies the elements of `s` other than `x`, in order.
pub fn without_id(s: &Vec<u64>, x: u64) -> (r: Vec<u64>)
    ensures
        r@ == without(s@, x),
{
    let mut r: Vec<u64> = Vec::new();
    let mut i: usize = 0;
    proof {
        reveal(Seq::filter);
        assert(without(s@.take(0), x) =~= Seq::empty());
    }
    while i < s.len()
        invariant
            i <= s.len(),
            r@ == without(s@.take(i as int), x),
        decreases s.len() - i,
    {
        proof {
            reveal(Seq::filter);
            assert(s@.take(i + 1).drop_last() =~= s@.take(i as int));
            assert(s@.take(i + 1).last() == s@[i as int]);
        }
        if s[i] != x {
            r.push(s[i]);
        }
        i = i + 1;
    }
    assert(s@.take(s.len() as int) =~= s@);
    r
}

/// A leader's replication progress, one record per tracked peer.
#[derive(Debug)]
pub struct LeaderState {
    pub peers: Vec<u64>,
    pub next_index: HashMap<u64, u64>,
    pub match_index: HashMap<u64, u64>,
}

/// The replication progress as a value.
#[verifier::ext_equal]
pub struct LeaderView {
    /// Tracked peers, in the order in which they were added.
    pub peers: Seq<u64>,
    pub next_index: Map<u64, u64>,
    pub match_index: Map<u64, u64>,
}

impl LeaderView {
    /// Index of the next entry to send to `peer`; 1 for a peer that is not tracked.
    pub open spec fn next_of(self, peer: u64) -> u64 {
        if self.next_index.contains_key(peer) {
            self.next_index[peer]
        } else {
            1
        }
    }

    /// Highest index known to be replicated on `peer`; 0 for a peer that is not tracked.
    pub open spec fn match_of(self, peer: u64) -> u64 {
        if self.match_index.contains_key(peer) {
            self.match_index[peer]
        } else {
            0
        }
    }

    /// Tracking of `peers` from the end of a log whose last index is `last`.
    pub open spec fn starting(peers: Seq<u64>, last: int) -> LeaderView {
        LeaderView {
            peers,
            next_index: Map::new(|p: u64| peers.contains(p), |p: u64| (last + 1) as u64),
            match_index: Map::new(|p: u64| peers.contains(p), |p: u64| 0u64),
        }
    }

    /// After starting to track `peer` from the end of the log.
    pub open spec fn added(self, peer: u64, last: int) -> LeaderView {
        LeaderView {
            peers: if self.peers.contains(peer) {
                self.peers
            } else {
                self.peers.push(peer)
            },
            next_index: self.next_index.insert(peer, (last + 1) as u64),
            match_index: self.match_index.insert(peer, 0),
        }
    }

    /// After forgetting `peer`.
    pub open spec fn removed(self, peer: u64) -> LeaderView {
        LeaderView {
            peers: without(self.peers, peer),
            next_index: self.next_index.remove(peer),
            match_index: self.match_index.remove(peer),
        }
    }

    /// After recording that `peer` gets entry `i` next.
    pub open spec fn with_next(self, peer: u64, i: u64) -> LeaderView {
        LeaderView { next_index: self.next_index.insert(peer, i), ..self }
    }

    /// After recording that `peer` holds the log up to entry `i`.
    pub open spec fn with_match(self, peer: u64, i: u64) -> LeaderView {
        LeaderView { match_index: self.match_index.insert(peer, i), ..self }
    }
}

impl View for LeaderState {
    type V = LeaderView;

    open spec fn view(&self) -> LeaderView {
        LeaderView {
            peers: self.peers@,
            next_index: self.next_index@,
            match_index: self.match_index@,
        }
    }
}

impl LeaderState {
    /// Starts tracking `peers` from the end of a log whose last index is `last`.
    pub fn new(peers: Vec<u64>, last: u64) -> (r: LeaderState)
        requires
            last < u64::MAX,
        ensures
            r@ == LeaderView::starting(peers@, last as int),
    {
        let mut next_index: HashMap<u64, u64> = HashMap::new();
        let mut match_index: HashMap<u64, u64> = HashMap::new();
        let mut i: usize = 0;
        while i < peers.len()
            invariant
                i <= peers.len(),
                last < u64::MAX,
                next_index@.dom() == peers@.take(i as int).to_set(),
                match_index@.dom() == peers@.take(i as int).to_set(),
                forall|p: u64| #[trigger]
                    next_index@.contains_key(p) ==> next_index@[p] == last + 1,
                forall|p: u64| #[trigger] match_index@.contains_key(p) ==> match_index@[p] == 0,
            decreases peers.len() - i,
        {
            next_index.insert(peers[i], last + 1);
            match_index.insert(peers[i], 0);
            proof {
                assert(peers@.take(i + 1) =~= peers@.take(i as int).push(peers@[i as int]));
                assert(peers@.take(i + 1).to_set() =~= peers@.take(i as int).to_set().insert(
                    peers@[i as int],
                )) by {
                    broadcast use vstd::seq_lib::group_seq_properties;

                }
            }
            i = i + 1;
        }
        proof {
            assert(peers@.take(peers.len() as int) =~= peers@);
            let v = LeaderView::starting(peers@, last as int);
            assert(next_index@ =~= v.next_index);
            assert(match_index@ =~= v.match_index);
        }
        LeaderState { peers, next_index, match_index }
    }

    /// Index of the next entry to send to `peer`.
    pub fn next_index_for(&self, peer: u64) -> (r: u64)
        ensures
            r == self@.next_of(peer),
    {
        match self.next_index.get(&peer) {
            Some(i) => *i,
            None => 1,
        }
    }

    /// Highest index known to be replicated on `peer`.
    pub fn match_index_for(&self, peer: u64) -> (r: u64)
        ensures
            r == self@.match_of(peer),
    {
        match self.match_index.get(&peer) {
            Some(i) => *i,
            None => 0,
        }
    }

    /// Records the next entry to send to `peer`.
    pub fn set_next_index(&mut self, peer: u64, i: u64)
        ensures
            final(self)@ == old(self)@.with_next(peer, i),
    {
        self.next_index.insert(peer, i);
    }

    /// Records the highest index replicated on `peer`.
    pub fn set_match_index(&mut self, peer: u64, i: u64)
        ensures
            final(self)@ == old(self)@.with_match(peer, i),
    {
        self.match_index.insert(peer, i);
    }

    /// Starts tracking `peer` from the end of a log whose last index is `last`.
    pub fn add_peer(&mut self, peer: u64, last: u64)
        requires
            last < u64::MAX,
        ensures
            final(self)@ == old(self)@.added(peer, last as int),
    {
        if !contains_id(&self.peers, peer) {
            self.peers.push(peer);
        }
        self.next_index.insert(peer, last + 1);
        self.match_index.insert(peer, 0);
    }

    /// Forgets `peer`.
    pub fn remove_peer(&mut self, peer: u64)
        ensures
            final(self)@ == old(self)@.removed(peer),
    {
        self.peers = without_id(&self.peers, peer);
        self.next_index.remove(&peer);
        self.match_index.remove(&peer);
    }
}

} // verus!
