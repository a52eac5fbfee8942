//! What a member can do, and that none of it breaks what holds of the group.

use vstd::prelude::*;

use crate::raft::message::EntryView;
use crate::raft::safety::growth;
use crate::raft::safety::history;
use crate::raft::safety::history::{History, Member, Members};
use crate::raft::state::NodeRole;

verus! {

/// What was passed over stays so while members' terms rise and no one in an
/// older term takes over more.
pub proof fn lemma_passed_over_stays(
    ms: Members,
    h: History,
    ms2: Members,
    h2: History,
    voters: Set<u64>,
    t: u64,
    i: int,
)
    requires
        history::roles_ok(ms, voters),
        history::passed_over(ms, h, voters, t, i),
        forall|p: u64| #[trigger] ms.contains_key(p) ==> ms2[p].term >= ms[p].term,
        forall|p: u64| ms.contains_key(p) && ms[p].term > t ==> #[trigger] h2.ack(p, t) == h.ack(p, t),
    ensures
        history::passed_over(ms2, h2, voters, t, i),
{
    let q = choose|q: Set<u64>| #[trigger]
        history::is_quorum(voters, q) && history::all_left(ms, h, q, t, i);
    assert forall|p: u64| #[trigger] q.contains(p) implies ms2[p].term > t && h2.ack(p, t) < i by {
        assert(voters.contains(p));
        assert(ms.contains_key(p));
        assert(h2.ack(p, t) == h.ack(p, t));
    }
    assert(history::is_quorum(voters, q) && history::all_left(ms2, h2, q, t, i));
}

/// A member falls back to following or learning: it hears of a newer term, gives
/// up an election, or restarts.
pub proof fn step_rest(ms: Members, h: History, voters: Set<u64>, n: u64, m2: Member)
    requires
        history::sound(ms, h, voters),
        ms.contains_key(n),
        m2.log == ms[n].log,
        m2.commit == ms[n].commit || m2.commit == 0,
        m2.role == NodeRole::Follower || m2.role == NodeRole::Learner,
        (m2.role == NodeRole::Learner) == (ms[n].role == NodeRole::Learner),
        (m2.term == ms[n].term && m2.voted_for == ms[n].voted_for) || (m2.term > ms[n].term
            && m2.voted_for == 0),
    ensures
        history::sound(ms.insert(n, m2), h, voters),
{
    reveal(history::sound);
    let ms2 = ms.insert(n, m2);
    growth::lemma_grows_same(h);
    assert forall|p: u64, i: int|
        #![trigger ms2[p].log[i]]
        ms2.contains_key(p) && 0 <= i < ms2[p].log.len() implies history::known(h, ms2[p].log, i)
        && ms2[p].log[i].term <= ms2[p].term by {
        assert(ms[p].log[i] == ms2[p].log[i]);
    }
    assert forall|p: u64| #[trigger] ms2.contains_key(p) implies history::leader_ok(
        ms2,
        h,
        voters,
        p,
    ) && history::candidate_ok(ms2, h, voters, p) && history::settled(
        h,
        voters,
        ms2[p].log,
        ms2[p].commit as int,
        ms2[p].term,
    ) by {
        assert(ms.contains_key(p));
        assert(history::leader_ok(ms, h, voters, p));
        assert(history::candidate_ok(ms, h, voters, p));
        if p == n && m2.commit != 0 {
            growth::lemma_settled_grows(
                h,
                h,
                voters,
                ms[p].log,
                m2.log,
                m2.commit as int,
                ms[p].term,
                m2.term,
            );
        }
    }
    assert(history::acks_ok(ms2, h)) by {
        assert forall|p: u64, t: u64|
            #![trigger h.ack(p, t)]
            h.ack(p, t) > 0 implies ms2.contains_key(p) && t <= ms2[p].term && history::reaches(
            history::last_term(ms2[p].log),
            ms2[p].log.len() as int,
            t,
            h.ack(p, t),
        ) by {
            assert(ms.contains_key(p));
        }
    }
    assert(history::leaders_complete(ms2, h, voters)) by {
        assert forall|t: u64, u: u64, i: int|
            #![trigger h.lead.contains_key(t), h.lead.contains_key(u), h.lead[t][i - 1]]
            h.lead.contains_key(t) && h.lead.contains_key(u) && t < u && 0 < i <= h.lead[t].len()
                && h.lead[t][i - 1].term == t implies history::agree(h.lead[t], h.lead[u], i)
            || history::passed_over(ms2, h, voters, t, i) by {
            if !history::agree(h.lead[t], h.lead[u], i) {
                lemma_passed_over_stays(ms, h, ms2, h, voters, t, i);
            }
        }
    }
}

/// The history after `n` stood for election in term `t`.
pub open spec fn after_standing(h: History, n: u64, t: u64, log: Seq<EntryView>) -> History {
    History {
        votes: h.votes.insert((n, t), n),
        stood: h.stood.insert((n, t), (history::last_term(log), log.len() as int)),
        ..h
    }
}

/// A voter stands for election in the next term and votes for itself.
pub proof fn step_stand(ms: Members, h: History, voters: Set<u64>, n: u64, m2: Member)
    requires
        history::sound(ms, h, voters),
        ms.contains_key(n),
        ms[n].role == NodeRole::Follower || ms[n].role == NodeRole::Candidate,
        m2.log == ms[n].log,
        m2.commit == ms[n].commit,
        m2.role == NodeRole::Candidate,
        m2.term == ms[n].term + 1,
        m2.voted_for == n,
        m2.votes == Set::<u64>::empty(),
    ensures
        history::sound(ms.insert(n, m2), after_standing(h, n, m2.term, m2.log), voters),
        h.grows_to(after_standing(h, n, m2.term, m2.log)),
{
    reveal(history::sound);
    let ms2 = ms.insert(n, m2);
    let h2 = after_standing(h, n, m2.term, m2.log);
    let t2 = m2.term;
    assert(voters.contains(n));
    assert(!h.votes.contains_key((n, t2)));
    assert(!h.stood.contains_key((n, t2)));
    assert(h.grows_to(h2)) by {
        assert forall|p: u64, t: u64| h.ack(p, t) <= #[trigger] h2.ack(p, t) by {}
    }
    assert forall|p: u64, i: int|
        #![trigger ms2[p].log[i]]
        ms2.contains_key(p) && 0 <= i < ms2[p].log.len() implies history::known(h2, ms2[p].log, i)
        && ms2[p].log[i].term <= ms2[p].term by {
        assert(ms[p].log[i] == ms2[p].log[i]);
    }
    assert(history::leads_ok(h2)) by {
        lemma_leads_kept(h, h2);
    }
    assert forall|p: u64| #[trigger] ms2.contains_key(p) implies history::leader_ok(
        ms2,
        h2,
        voters,
        p,
    ) && history::candidate_ok(ms2, h2, voters, p) && history::settled(
        h2,
        voters,
        ms2[p].log,
        ms2[p].commit as int,
        ms2[p].term,
    ) by {
        assert(ms.contains_key(p));
        assert(history::leader_ok(ms, h, voters, p));
        assert(history::candidate_ok(ms, h, voters, p));
        assert forall|x: u64, t: u64| #[trigger] h2.ack(x, t) == h.ack(x, t) by {}
        growth::lemma_settled_grows(
            h,
            h2,
            voters,
            ms[p].log,
            ms2[p].log,
            ms2[p].commit as int,
            ms[p].term,
            ms2[p].term,
        );
    }
    assert(history::votes_ok(ms2, h2, voters));
    assert(history::elections_ok(h2, voters)) by {
        lemma_elections_kept(h, h2, voters);
    }
    assert(history::acks_ok(ms2, h2)) by {
        assert forall|p: u64, t: u64|
            #![trigger h2.ack(p, t)]
            0 <= h2.ack(p, t) && (h2.ack(p, t) > 0 ==> ms2.contains_key(p) && t <= ms2[p].term
                && history::reaches(
                history::last_term(ms2[p].log),
                ms2[p].log.len() as int,
                t,
                h2.ack(p, t),
            )) by {
            assert(h.ack(p, t) == h2.ack(p, t));
        }
    }
    assert(history::votes_reach(h2)) by {
        assert forall|p: u64, t: u64, u: u64|
            #![trigger h2.votes.contains_key((p, t)), h2.ack(p, u)]
            h2.votes.contains_key((p, t)) && u < t && h2.ack(p, u) > 0 implies {
            let s = h2.stood[(h2.votes[(p, t)], t)];
            h2.stood.contains_key((h2.votes[(p, t)], t)) && history::reaches(
                s.0,
                s.1,
                u,
                h2.ack(p, u),
            )
        } by {
            assert(h.ack(p, u) == h2.ack(p, u));
            if (p, t) != (n, t2) {
                assert(h.votes.contains_key((p, t)));
            }
        }
    }
    assert(history::leaders_complete(ms2, h2, voters)) by {
        assert forall|t: u64, u: u64, i: int|
            #![trigger h2.lead.contains_key(t), h2.lead.contains_key(u), h2.lead[t][i - 1]]
            h2.lead.contains_key(t) && h2.lead.contains_key(u) && t < u && 0 < i
                <= h2.lead[t].len() && h2.lead[t][i - 1].term == t implies history::agree(
            h2.lead[t],
            h2.lead[u],
            i,
        ) || history::passed_over(ms2, h2, voters, t, i) by {
            if !history::agree(h.lead[t], h.lead[u], i) {
                assert(h.lead[t][i - 1].term == t);
                lemma_passed_over_stays(ms, h, ms2, h2, voters, t, i);
            }
        }
    }
}

/// What holds of leaders' logs does not depend on votes.
pub proof fn lemma_leads_kept(h: History, h2: History)
    requires
        history::leads_ok(h),
        h2.lead == h.lead,
        h2.crown == h.crown,
    ensures
        history::leads_ok(h2),
{
    assert forall|t: u64| #[trigger] h2.lead.contains_key(t) implies history::lead_ok(h2, t) by {
        assert(history::lead_ok(h, t));
        let l = h.lead[t];
        assert forall|i: int| #![trigger l[i]] 0 <= i < l.len() implies l[i].term <= t && l[i].index
            == i + 1 && history::known(h2, l, i) by {
            assert(history::known(h, l, i));
        }
    }
}

/// Elections that were won stay won.
pub proof fn lemma_elections_kept(h: History, h2: History, voters: Set<u64>)
    requires
        history::elections_ok(h, voters),
        h2.lead == h.lead,
        h2.crown == h.crown,
        forall|k: (u64, u64)| #[trigger]
            h.votes.contains_key(k) ==> h2.votes.contains_key(k) && h2.votes[k] == h.votes[k],
    ensures
        history::elections_ok(h2, voters),
{
    assert forall|t: u64| #[trigger] h2.lead.contains_key(t) implies exists|q: Set<u64>| #[trigger]
        history::is_quorum(voters, q) && history::all_voted(h2, q, t, h2.crown[t]) by {
        let q = choose|q: Set<u64>| #[trigger]
            history::is_quorum(voters, q) && history::all_voted(h, q, t, h.crown[t]);
        assert(history::is_quorum(voters, q) && history::all_voted(h2, q, t, h2.crown[t])) by {
            assert forall|p: u64| #[trigger] q.contains(p) implies h2.votes.contains_key((p, t))
                && h2.votes[(p, t)] == h2.crown[t] by {
                assert(h.votes.contains_key((p, t)));
            }
        }
    }
}

/// The history after `n` voted for `c` in term `t`.
pub open spec fn after_voting(h: History, n: u64, t: u64, c: u64) -> History {
    History { votes: h.votes.insert((n, t), c), ..h }
}

/// A voter votes for a candidate whose log is at least as current as its own.
pub proof fn step_vote(ms: Members, h: History, voters: Set<u64>, n: u64, c: u64)
    requires
        history::sound(ms, h, voters),
        ms.contains_key(n),
        ms[n].role != NodeRole::Learner,
        c != 0,
        ms[n].voted_for == 0 || ms[n].voted_for == c,
        h.stood.contains_key((c, ms[n].term)),
        history::reaches(
            h.stood[(c, ms[n].term)].0,
            h.stood[(c, ms[n].term)].1,
            history::last_term(ms[n].log),
            ms[n].log.len() as int,
        ),
    ensures
        history::sound(
            ms.insert(n, Member { voted_for: c, ..ms[n] }),
            after_voting(h, n, ms[n].term, c),
            voters,
        ),
        h.grows_to(after_voting(h, n, ms[n].term, c)),
{
    reveal(history::sound);
    let m2 = Member { voted_for: c, ..ms[n] };
    let ms2 = ms.insert(n, m2);
    let t2 = m2.term;
    let h2 = after_voting(h, n, t2, c);
    assert(voters.contains(n));
    assert(h.votes.contains_key((n, t2)) ==> h.votes[(n, t2)] == c);
    assert(h.grows_to(h2)) by {
        assert forall|p: u64, t: u64| h.ack(p, t) <= #[trigger] h2.ack(p, t) by {}
    }
    assert forall|p: u64, i: int|
        #![trigger ms2[p].log[i]]
        ms2.contains_key(p) && 0 <= i < ms2[p].log.len() implies history::known(h2, ms2[p].log, i)
        && ms2[p].log[i].term <= ms2[p].term by {
        assert(ms[p].log[i] == ms2[p].log[i]);
    }
    assert(history::leads_ok(h2)) by {
        lemma_leads_kept(h, h2);
    }
    assert forall|p: u64| #[trigger] ms2.contains_key(p) implies history::leader_ok(
        ms2,
        h2,
        voters,
        p,
    ) && history::candidate_ok(ms2, h2, voters, p) && history::settled(
        h2,
        voters,
        ms2[p].log,
        ms2[p].commit as int,
        ms2[p].term,
    ) by {
        assert(ms.contains_key(p));
        assert(history::leader_ok(ms, h, voters, p));
        assert(history::candidate_ok(ms, h, voters, p));
        assert forall|x: u64, t: u64| #[trigger] h2.ack(x, t) == h.ack(x, t) by {}
        growth::lemma_settled_grows(
            h,
            h2,
            voters,
            ms[p].log,
            ms2[p].log,
            ms2[p].commit as int,
            ms[p].term,
            ms2[p].term,
        );
    }
    assert(history::votes_ok(ms2, h2, voters));
    assert(history::elections_ok(h2, voters)) by {
        lemma_elections_kept(h, h2, voters);
    }
    assert(history::acks_ok(ms2, h2)) by {
        assert forall|p: u64, t: u64|
            #![trigger h2.ack(p, t)]
            0 <= h2.ack(p, t) && (h2.ack(p, t) > 0 ==> ms2.contains_key(p) && t <= ms2[p].term
                && history::reaches(
                history::last_term(ms2[p].log),
                ms2[p].log.len() as int,
                t,
                h2.ack(p, t),
            )) by {
            assert(h.ack(p, t) == h2.ack(p, t));
        }
    }
    assert(history::votes_reach(h2)) by {
        assert forall|p: u64, t: u64, u: u64|
            #![trigger h2.votes.contains_key((p, t)), h2.ack(p, u)]
            h2.votes.contains_key((p, t)) && u < t && h2.ack(p, u) > 0 implies {
            let s = h2.stood[(h2.votes[(p, t)], t)];
            h2.stood.contains_key((h2.votes[(p, t)], t)) && history::reaches(
                s.0,
                s.1,
                u,
                h2.ack(p, u),
            )
        } by {
            assert(h.ack(p, u) == h2.ack(p, u));
            if (p, t) != (n, t2) {
                assert(h.votes.contains_key((p, t)));
            }
        }
    }
    assert(history::leaders_complete(ms2, h2, voters)) by {
        assert forall|t: u64, u: u64, i: int|
            #![trigger h2.lead.contains_key(t), h2.lead.contains_key(u), h2.lead[t][i - 1]]
            h2.lead.contains_key(t) && h2.lead.contains_key(u) && t < u && 0 < i
                <= h2.lead[t].len() && h2.lead[t][i - 1].term == t implies history::agree(
            h2.lead[t],
            h2.lead[u],
            i,
        ) || history::passed_over(ms2, h2, voters, t, i) by {
            if !history::agree(h.lead[t], h.lead[u], i) {
                assert(h.lead[t][i - 1].term == t);
                lemma_passed_over_stays(ms, h, ms2, h2, voters, t, i);
            }
        }
    }
}

/// A member changes nothing but what it knows of the others: the votes it was
/// granted, its record of its peers, what it counts as committed.
pub proof fn step_learn(ms: Members, h: History, voters: Set<u64>, n: u64, m2: Member)
    requires
        history::sound(ms, h, voters),
        ms.contains_key(n),
        m2 == (Member { votes: m2.votes, leader: m2.leader, commit: m2.commit, ..ms[n] }),
        history::candidate_ok(ms.insert(n, m2), h, voters, n),
        history::leader_ok(ms.insert(n, m2), h, voters, n),
        history::settled(h, voters, m2.log, m2.commit as int, m2.term),
    ensures
        history::sound(ms.insert(n, m2), h, voters),
{
    reveal(history::sound);
    let ms2 = ms.insert(n, m2);
    assert forall|p: u64, i: int|
        #![trigger ms2[p].log[i]]
        ms2.contains_key(p) && 0 <= i < ms2[p].log.len() implies history::known(h, ms2[p].log, i)
        && ms2[p].log[i].term <= ms2[p].term by {
        assert(ms[p].log[i] == ms2[p].log[i]);
    }
    assert forall|p: u64| #[trigger] ms2.contains_key(p) implies history::leader_ok(
        ms2,
        h,
        voters,
        p,
    ) && history::candidate_ok(ms2, h, voters, p) by {
        assert(ms.contains_key(p));
        assert(history::leader_ok(ms, h, voters, p));
        assert(history::candidate_ok(ms, h, voters, p));
    }
    assert(history::acks_ok(ms2, h)) by {
        assert forall|p: u64, t: u64|
            #![trigger h.ack(p, t)]
            h.ack(p, t) > 0 implies ms2.contains_key(p) && t <= ms2[p].term && history::reaches(
            history::last_term(ms2[p].log),
            ms2[p].log.len() as int,
            t,
            h.ack(p, t),
        ) by {
            assert(ms.contains_key(p));
        }
    }
    assert(history::leaders_complete(ms2, h, voters)) by {
        assert forall|t: u64, u: u64, i: int|
            #![trigger h.lead.contains_key(t), h.lead.contains_key(u), h.lead[t][i - 1]]
            h.lead.contains_key(t) && h.lead.contains_key(u) && t < u && 0 < i <= h.lead[t].len()
                && h.lead[t][i - 1].term == t implies history::agree(h.lead[t], h.lead[u], i)
            || history::passed_over(ms2, h, voters, t, i) by {
            if !history::agree(h.lead[t], h.lead[u], i) {
                lemma_passed_over_stays(ms, h, ms2, h, voters, t, i);
            }
        }
    }
}

} // verus!
