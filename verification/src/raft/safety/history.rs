//! What has happened in a group so far, and how its members stand to it.

use vstd::prelude::*;

use crate::raft::message::EntryView;
use crate::raft::state::{LeaderView, NodeRole};

verus! {

/// What matters about a member.
#[verifier::ext_equal]
pub struct Member {
    pub term: u64,
    /// Who got the vote of the current term; 0 if nobody did.
    pub voted_for: u64,
    pub log: Seq<EntryView>,
    pub role: NodeRole,
    /// Who granted this candidate its vote.
    pub votes: Set<u64>,
    pub commit: u64,
    /// A leader's record of its peers.
    pub leader: Option<LeaderView>,
}

/// The members of a group, by their ids.
pub type Members = Map<u64, Member>;

/// What has happened so far.
#[verifier::ext_equal]
pub struct History {
    /// For every term that had a leader, that leader's log, as long as it got
    /// within the term.
    pub lead: Map<u64, Seq<EntryView>>,
    /// Who led a term.
    pub crown: Map<u64, u64>,
    /// Whom a member voted for in a term.
    pub votes: Map<(u64, u64), u64>,
    /// How far a member took over the log of a term's leader, within the term.
    pub acks: Map<(u64, u64), int>,
    /// Term and index of the last entry of a candidate, as it stood in a term.
    pub stood: Map<(u64, u64), (u64, int)>,
}

impl History {
    /// Before anything happened.
    pub open spec fn empty() -> History {
        History {
            lead: Map::empty(),
            crown: Map::empty(),
            votes: Map::empty(),
            acks: Map::empty(),
            stood: Map::empty(),
        }
    }

    /// How far a member took over the log of a term's leader.
    pub open spec fn ack(self, n: u64, t: u64) -> int {
        if self.acks.contains_key((n, t)) {
            self.acks[(n, t)]
        } else {
            0
        }
    }

    /// Whether all that happened up to here had happened by then.
    pub open spec fn grows_to(self, to: History) -> bool {
        &&& forall|t: u64| #[trigger]
            self.lead.contains_key(t) ==> to.lead.contains_key(t) && agree(
                self.lead[t],
                to.lead[t],
                self.lead[t].len() as int,
            ) && to.crown[t] == self.crown[t]
        &&& forall|k: (u64, u64)| #[trigger]
            self.votes.contains_key(k) ==> to.votes.contains_key(k) && to.votes[k] == self.votes[k]
        &&& forall|n: u64, t: u64| self.ack(n, t) <= #[trigger] to.ack(n, t)
        &&& forall|k: (u64, u64)| #[trigger]
            self.stood.contains_key(k) ==> to.stood.contains_key(k) && to.stood[k] == self.stood[k]
    }
}

/// Whether two logs agree up to `x`.
pub open spec fn agree(a: Seq<EntryView>, b: Seq<EntryView>, x: int) -> bool {
    &&& 0 <= x <= a.len()
    &&& x <= b.len()
    &&& forall|j: int|
        #![trigger a[j]]
        #![trigger b[j]]
        0 <= j < x ==> a[j] == b[j]
}

/// Term of the last entry; 0 for an empty log.
pub open spec fn last_term(log: Seq<EntryView>) -> u64 {
    if log.len() == 0 {
        0
    } else {
        log.last().term
    }
}

/// Whether a log that ends with an entry of term `t1` at `i1` is at least as
/// current as one that ends with `t2` at `i2`.
pub open spec fn reaches(t1: u64, i1: int, t2: u64, i2: int) -> bool {
    t1 > t2 || (t1 == t2 && i1 >= i2)
}

/// Whether `q` is more than half of the voters.
pub open spec fn is_quorum(voters: Set<u64>, q: Set<u64>) -> bool {
    q.finite() && q.subset_of(voters) && 2 * q.len() > voters.len()
}

/// The log up to its entry `i` is that of the leader who made the entry.
pub open spec fn known(h: History, log: Seq<EntryView>, i: int) -> bool {
    h.lead.contains_key(log[i].term) && agree(log, h.lead[log[i].term], i + 1)
}

/// What holds of the log of a term's leader.
pub open spec fn lead_ok(h: History, t: u64) -> bool {
    let l = h.lead[t];
    &&& t >= 1
    &&& l.len() >= 1
    &&& l.last().term == t
    &&& h.crown.contains_key(t)
    &&& forall|i: int|
        #![trigger l[i]]
        0 <= i < l.len() ==> l[i].term <= t && l[i].index == i + 1 && known(h, l, i)
    &&& forall|i: int, j: int| 0 <= i <= j < l.len() ==> (#[trigger] l[i]).term <= (#[trigger] l[j]).term
}

/// What holds of the logs of all leaders.
pub open spec fn leads_ok(h: History) -> bool {
    forall|t: u64| #[trigger] h.lead.contains_key(t) ==> lead_ok(h, t)
}

/// Every log is made of what leaders wrote.
pub open spec fn logs_known(ms: Members, h: History) -> bool {
    forall|n: u64, i: int|
        #![trigger ms[n].log[i]]
        ms.contains_key(n) && 0 <= i < ms[n].log.len() ==> known(h, ms[n].log, i)
            && ms[n].log[i].term <= ms[n].term
}

/// What holds of a leader: its log is the one of its term.
pub open spec fn leader_ok(ms: Members, h: History, voters: Set<u64>, n: u64) -> bool {
    let m = ms[n];
    m.role == NodeRole::Leader ==> {
        &&& h.lead.contains_key(m.term)
        &&& h.crown[m.term] == n
        &&& m.log == h.lead[m.term]
        &&& h.ack(n, m.term) == m.log.len()
        &&& m.leader is Some
        &&& forall|p: u64|
            #![trigger m.leader->0.match_of(p)]
            m.leader->0.match_of(p) <= h.ack(p, m.term)
        &&& forall|p: u64|
            #![trigger m.leader->0.next_of(p)]
            1 <= m.leader->0.next_of(p) <= m.log.len() + 1
    }
}

/// What holds of the leaders.
pub open spec fn leaders_ok(ms: Members, h: History, voters: Set<u64>) -> bool {
    &&& forall|n: u64| #[trigger] ms.contains_key(n) ==> leader_ok(ms, h, voters, n)
    &&& forall|t: u64| #[trigger]
        h.lead.contains_key(t) ==> ms.contains_key(h.crown[t]) && ms[h.crown[t]].term >= t
}

/// Voters are members, and learners are the others.
pub open spec fn roles_ok(ms: Members, voters: Set<u64>) -> bool {
    &&& voters.finite()
    &&& !voters.contains(0)
    &&& forall|n: u64| #[trigger] voters.contains(n) ==> ms.contains_key(n)
    &&& forall|n: u64| #[trigger]
        ms.contains_key(n) ==> (voters.contains(n) <==> ms[n].role != NodeRole::Learner)
}

/// A member remembers the vote of its current term, and neither votes nor stands
/// in a later one.
pub open spec fn votes_ok(ms: Members, h: History, voters: Set<u64>) -> bool {
    &&& forall|n: u64, t: u64| #[trigger]
        h.votes.contains_key((n, t)) ==> voters.contains(n) && ms.contains_key(n) && t
            <= ms[n].term && (t == ms[n].term ==> ms[n].voted_for == h.votes[(n, t)])
            && h.votes[(n, t)] != 0
    &&& forall|n: u64| #[trigger]
        ms.contains_key(n) && ms[n].voted_for != 0 ==> h.votes.contains_key((n, ms[n].term))
    &&& forall|n: u64, t: u64| #[trigger]
        h.stood.contains_key((n, t)) ==> ms.contains_key(n) && t <= ms[n].term
}

/// What holds of a candidate.
pub open spec fn candidate_ok(ms: Members, h: History, voters: Set<u64>, n: u64) -> bool {
    let m = ms[n];
    m.role == NodeRole::Candidate ==> {
        &&& h.votes.contains_key((n, m.term))
        &&& h.votes[(n, m.term)] == n
        &&& m.votes.finite()
        &&& !m.votes.contains(n)
        &&& forall|p: u64| #[trigger]
            m.votes.contains(p) ==> h.votes.contains_key((p, m.term)) && h.votes[(p, m.term)] == n
        &&& h.stood.contains_key((n, m.term))
        &&& h.stood[(n, m.term)] == (last_term(m.log), m.log.len() as int)
        &&& h.lead.contains_key(m.term) ==> h.crown[m.term] != n
        &&& m.term >= 1
    }
}

/// What holds of the candidates.
pub open spec fn candidates_ok(ms: Members, h: History, voters: Set<u64>) -> bool {
    forall|n: u64| #[trigger] ms.contains_key(n) ==> candidate_ok(ms, h, voters, n)
}

/// Whether every member of `q` voted for `c` in term `t`.
pub open spec fn all_voted(h: History, q: Set<u64>, t: u64, c: u64) -> bool {
    forall|p: u64| #[trigger]
        q.contains(p) ==> h.votes.contains_key((p, t)) && h.votes[(p, t)] == c
}

/// Every leader was elected by more than half of the voters.
pub open spec fn elections_ok(h: History, voters: Set<u64>) -> bool {
    forall|t: u64| #[trigger]
        h.lead.contains_key(t) ==> exists|q: Set<u64>| #[trigger]
            is_quorum(voters, q) && all_voted(h, q, t, h.crown[t])
}

/// A vote goes to a candidate whose log is at least as current as all that the
/// voter took over before.
pub open spec fn votes_reach(h: History) -> bool {
    forall|n: u64, t: u64, u: u64|
        #![trigger h.votes.contains_key((n, t)), h.ack(n, u)]
        h.votes.contains_key((n, t)) && u < t && h.ack(n, u) > 0 ==> {
            let s = h.stood[(h.votes[(n, t)], t)];
            h.stood.contains_key((h.votes[(n, t)], t)) && reaches(s.0, s.1, u, h.ack(n, u))
        }
}

/// What a member took over is what a leader wrote, and its log has not fallen
/// behind it.
pub open spec fn acks_ok(ms: Members, h: History) -> bool {
    forall|n: u64, t: u64|
        #![trigger h.ack(n, t)]
        0 <= h.ack(n, t) && (h.ack(n, t) > 0 ==> {
            &&& ms.contains_key(n)
            &&& h.lead.contains_key(t)
            &&& h.ack(n, t) <= h.lead[t].len()
            &&& h.lead[t][h.ack(n, t) - 1].term == t
            &&& t <= ms[n].term
            &&& reaches(last_term(ms[n].log), ms[n].log.len() as int, t, h.ack(n, t))
        })
}

/// Whether every member of `q` left term `t` without having taken over its
/// leader's log up to `i`.
pub open spec fn all_left(ms: Members, h: History, q: Set<u64>, t: u64, i: int) -> bool {
    forall|p: u64| #[trigger] q.contains(p) ==> ms[p].term > t && h.ack(p, t) < i
}

/// Whether the log of `t`'s leader up to `i` can no longer be taken over by more
/// than half of the voters.
pub open spec fn passed_over(
    ms: Members,
    h: History,
    voters: Set<u64>,
    t: u64,
    i: int,
) -> bool {
    exists|q: Set<u64>| #[trigger] is_quorum(voters, q) && all_left(ms, h, q, t, i)
}

/// What a leader of term `t` wrote itself is in every later leader's log, unless
/// it can no longer be committed.
pub open spec fn leaders_complete(ms: Members, h: History, voters: Set<u64>) -> bool {
    forall|t: u64, u: u64, i: int|
        #![trigger h.lead.contains_key(t), h.lead.contains_key(u), h.lead[t][i - 1]]
        h.lead.contains_key(t) && h.lead.contains_key(u) && t < u && 0 < i <= h.lead[t].len()
            && h.lead[t][i - 1].term == t ==> agree(h.lead[t], h.lead[u], i) || passed_over(
            ms,
            h,
            voters,
            t,
            i,
        )
}

/// Whether every member of `q` took over the log of `t`'s leader up to `i`.
pub open spec fn all_took(h: History, q: Set<u64>, t: u64, i: int) -> bool {
    forall|p: u64| #[trigger] q.contains(p) ==> h.ack(p, t) >= i
}

/// Whether more than half of the voters took over the log of `t`'s leader up to
/// `i`, an entry of that term.
pub open spec fn chosen(h: History, voters: Set<u64>, t: u64, i: int) -> bool {
    &&& h.lead.contains_key(t)
    &&& 0 < i <= h.lead[t].len()
    &&& h.lead[t][i - 1].term == t
    &&& exists|q: Set<u64>| #[trigger] is_quorum(voters, q) && all_took(h, q, t, i)
}

/// Whether a log up to `k` is part of what was chosen in a term up to `limit`.
pub open spec fn settled(
    h: History,
    voters: Set<u64>,
    log: Seq<EntryView>,
    k: int,
    limit: u64,
) -> bool {
    k == 0 || exists|t: u64, i: int| #[trigger]
        chosen(h, voters, t, i) && t <= limit && k <= i && agree(log, h.lead[t], k)
}

/// What members count as committed was chosen.
pub open spec fn commits_ok(ms: Members, h: History, voters: Set<u64>) -> bool {
    forall|n: u64| #[trigger]
        ms.contains_key(n) ==> settled(h, voters, ms[n].log, ms[n].commit as int, ms[n].term)
}

/// What holds of a group in every state.
#[verifier::opaque]
pub open spec fn sound(ms: Members, h: History, voters: Set<u64>) -> bool {
    &&& roles_ok(ms, voters)
    &&& leads_ok(h)
    &&& logs_known(ms, h)
    &&& leaders_ok(ms, h, voters)
    &&& votes_ok(ms, h, voters)
    &&& candidates_ok(ms, h, voters)
    &&& elections_ok(h, voters)
    &&& votes_reach(h)
    &&& acks_ok(ms, h)
    &&& leaders_complete(ms, h, voters)
    &&& commits_ok(ms, h, voters)
}

/// Two majorities have a member in common.
pub proof fn lemma_quorums_meet(voters: Set<u64>, a: Set<u64>, b: Set<u64>) -> (p: u64)
    requires
        voters.finite(),
        is_quorum(voters, a),
        is_quorum(voters, b),
    ensures
        a.contains(p),
        b.contains(p),
        voters.contains(p),
{
    if forall|p: u64| !(a.contains(p) && b.contains(p)) {
        assert(a.disjoint(b));
        vstd::set_lib::lemma_set_disjoint_lens(a, b);
        vstd::set_lib::lemma_len_subset(a + b, voters);
    }
    let p = choose|p: u64| a.contains(p) && b.contains(p);
    assert(a.contains(p) && b.contains(p));
    p
}

} // verus!
