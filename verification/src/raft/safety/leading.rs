//! Winning an election, and writing to the log as leader.

use vstd::prelude::*;

use crate::raft::message::EntryView;
use crate::raft::safety::growth;
use crate::raft::safety::history;
use crate::raft::safety::history::{History, Member, Members};
use crate::raft::safety::steps;
use crate::raft::state::NodeRole;

verus! {

/// The history after `n`, leader of term `t`, has written its log up to `log`.
pub open spec fn after_writing(h: History, n: u64, t: u64, log: Seq<EntryView>) -> History {
    History {
        lead: h.lead.insert(t, log),
        crown: h.crown.insert(t, n),
        acks: h.acks.insert((n, t), log.len() as int),
        ..h
    }
}

/// Nobody else has led a term in which a candidate has the votes of more than
/// half of the voters.
pub proof fn lemma_term_is_free(
    ms: Members,
    h: History,
    voters: Set<u64>,
    n: u64,
    q: Set<u64>,
)
    requires
        history::sound(ms, h, voters),
        ms.contains_key(n),
        ms[n].role == NodeRole::Candidate,
        history::is_quorum(voters, q),
        history::all_voted(h, q, ms[n].term, n),
    ensures
        !h.lead.contains_key(ms[n].term),
{
    reveal(history::sound);
    let t = ms[n].term;
    assert(history::candidate_ok(ms, h, voters, n));
    if h.lead.contains_key(t) {
        let a = choose|q: Set<u64>| #[trigger]
            history::is_quorum(voters, q) && history::all_voted(h, q, t, h.crown[t]);
        let p = history::lemma_quorums_meet(voters, a, q);
        assert(a.contains(p) && q.contains(p));
        assert(h.votes[(p, t)] == h.crown[t]);
        assert(h.votes[(p, t)] == n);
    }
}

/// A candidate with the votes of more than half of the voters holds all that
/// can still be committed in earlier terms.
pub proof fn lemma_winner_is_complete(
    ms: Members,
    h: History,
    voters: Set<u64>,
    n: u64,
    q: Set<u64>,
    t: u64,
    i: int,
)
    requires
        history::sound(ms, h, voters),
        ms.contains_key(n),
        ms[n].role == NodeRole::Candidate,
        history::is_quorum(voters, q),
        history::all_voted(h, q, ms[n].term, n),
        h.lead.contains_key(t),
        t < ms[n].term,
        0 < i <= h.lead[t].len(),
        h.lead[t][i - 1].term == t,
    ensures
        history::agree(h.lead[t], ms[n].log, i) || history::passed_over(ms, h, voters, t, i),
{
    reveal(history::sound);
    let m = ms[n];
    assert(history::candidate_ok(ms, h, voters, n));
    assert(history::lead_ok(h, t));
    if forall|p: u64| #[trigger] q.contains(p) ==> h.ack(p, t) < i {
        assert forall|p: u64| #[trigger] q.contains(p) implies ms[p].term > t && h.ack(p, t)
            < i by {
            assert(h.votes.contains_key((p, m.term)));
        }
        assert(history::is_quorum(voters, q) && history::all_left(ms, h, q, t, i));
    } else {
        let p = choose|p: u64| #[trigger] q.contains(p) && h.ack(p, t) >= i;
        assert(h.votes.contains_key((p, m.term)));
        let s = h.stood[(n, m.term)];
        assert(history::reaches(s.0, s.1, t, h.ack(p, t)));
        let len = m.log.len() as int;
        assert(len > 0);
        let u = m.log[len - 1].term;
        assert(history::known(h, m.log, len - 1));
        growth::lemma_agree_less(m.log, h.lead[u], len, len);
        if u == t {
            growth::lemma_agree_less(m.log, h.lead[t], len, i);
        } else if history::agree(h.lead[t], h.lead[u], i) {
            if len <= i {
                assert(h.lead[u][len - 1] == h.lead[t][len - 1]);
                assert(h.lead[t][len - 1].term <= t);
                assert(m.log[len - 1] == h.lead[u][len - 1]);
            }
            growth::lemma_agree_less(h.lead[u], m.log, len, i);
            growth::lemma_agree_through(h.lead[t], h.lead[u], m.log, i);
        }
    }
}

/// Whether `log` is what the leader of term `t` may have written: what it had,
/// and one more entry of its term.
pub open spec fn written(before: Seq<EntryView>, log: Seq<EntryView>, t: u64) -> bool {
    &&& log.len() == before.len() + 1
    &&& history::agree(before, log, before.len() as int)
    &&& log.last().term == t
    &&& log.last().index == log.len()
}

/// Leaders' logs stay in order when one of them is written to.
pub proof fn lemma_writing_keeps_leads(
    ms: Members,
    h: History,
    voters: Set<u64>,
    n: u64,
    log: Seq<EntryView>,
)
    requires
        history::sound(ms, h, voters),
        ms.contains_key(n),
        ms[n].term >= 1,
        written(ms[n].log, log, ms[n].term),
        h.lead.contains_key(ms[n].term) ==> h.lead[ms[n].term] == ms[n].log && h.crown[ms[n].term]
            == n,
        h.ack(n, ms[n].term) <= log.len(),
    ensures
        h.grows_to(after_writing(h, n, ms[n].term, log)),
        history::leads_ok(after_writing(h, n, ms[n].term, log)),
        history::known(after_writing(h, n, ms[n].term, log), log, log.len() - 1),
{
    reveal(history::sound);
    let t2 = ms[n].term;
    let before = ms[n].log;
    let h2 = after_writing(h, n, t2, log);
    assert(h.grows_to(h2)) by {
        assert forall|t: u64| #[trigger] h.lead.contains_key(t) implies h2.lead.contains_key(t)
            && history::agree(h.lead[t], h2.lead[t], h.lead[t].len() as int) && h2.crown[t]
            == h.crown[t] by {}
        assert forall|p: u64, t: u64| h.ack(p, t) <= #[trigger] h2.ack(p, t) by {}
    }
    assert forall|t: u64| #[trigger] h2.lead.contains_key(t) implies history::lead_ok(h2, t) by {
        let l = h2.lead[t];
        if t == t2 {
            assert forall|i: int| #![trigger l[i]] 0 <= i < l.len() implies l[i].term <= t
                && l[i].index == i + 1 && history::known(h2, l, i) by {
                if i < before.len() {
                    assert(before[i] == l[i]);
                    assert(ms[n].log[i] == l[i]);
                    assert(history::known(h, before, i));
                    growth::lemma_known_grows(h, h2, before, i);
                    let u = before[i].term;
                    assert(history::lead_ok(h, u));
                    assert(h.lead[u][i] == before[i]);
                    growth::lemma_agree_less(before, l, before.len() as int, i + 1);
                    growth::lemma_agree_through(l, before, h2.lead[u], i + 1);
                } else {
                    assert(history::agree(l, l, i + 1));
                }
            }
            assert forall|i: int, j: int| 0 <= i <= j < l.len() implies (#[trigger] l[i]).term <= (
            #[trigger] l[j]).term by {
                if j < before.len() {
                    assert(before[i] == l[i]);
                    assert(before[j] == l[j]);
                    assert(ms[n].log[j] == l[j]);
                    growth::lemma_terms_rise(h, before, i, j);
                } else if i < before.len() {
                    assert(ms[n].log[i] == l[i]);
                }
            }
        } else {
            assert(h.lead.contains_key(t));
            assert(history::lead_ok(h, t));
            assert forall|i: int| #![trigger l[i]] 0 <= i < l.len() implies l[i].term <= t
                && l[i].index == i + 1 && history::known(h2, l, i) by {
                assert(h.lead[t][i] == l[i]);
                growth::lemma_known_grows(h, h2, l, i);
            }
        }
    }
    assert(history::known(h2, log, log.len() - 1));
}

/// What later leaders lack of a term's leader stays out of reach when that
/// leader, or a newer one, writes to its log.
pub proof fn lemma_writing_keeps_complete(
    ms: Members,
    h: History,
    ms2: Members,
    voters: Set<u64>,
    n: u64,
    log: Seq<EntryView>,
)
    requires
        history::sound(ms, h, voters),
        ms.contains_key(n),
        ms2 == ms.insert(n, ms2[n]),
        ms2[n].term == ms[n].term,
        written(ms[n].log, log, ms[n].term),
        h.lead.contains_key(ms[n].term) ==> h.lead[ms[n].term] == ms[n].log,
        h.grows_to(after_writing(h, n, ms[n].term, log)),
        forall|t: u64, i: int|
            #![trigger h.lead[t][i - 1]]
            h.lead.contains_key(t) && t < ms[n].term && 0 < i <= h.lead[t].len()
                && h.lead[t][i - 1].term == t ==> history::agree(h.lead[t], ms[n].log, i)
                || history::passed_over(ms, h, voters, t, i),
    ensures
        history::leaders_complete(ms2, after_writing(h, n, ms[n].term, log), voters),
{
    reveal(history::sound);
    let t2 = ms[n].term;
    let before = ms[n].log;
    let h2 = after_writing(h, n, t2, log);
    assert forall|t: u64, u: u64, i: int|
        #![trigger h2.lead.contains_key(t), h2.lead.contains_key(u), h2.lead[t][i - 1]]
        h2.lead.contains_key(t) && h2.lead.contains_key(u) && t < u && 0 < i <= h2.lead[t].len()
            && h2.lead[t][i - 1].term == t implies history::agree(h2.lead[t], h2.lead[u], i)
        || history::passed_over(ms2, h2, voters, t, i) by {
        if t == t2 && (!h.lead.contains_key(t) || i > h.lead[t].len()) {
            // The entry is new: whoever elected the later leader left the term without it.
            assert(h.lead.contains_key(u));
            let q = choose|q: Set<u64>| #[trigger]
                history::is_quorum(voters, q) && history::all_voted(h, q, u, h.crown[u]);
            assert forall|p: u64| #[trigger] q.contains(p) implies ms2[p].term > t && h2.ack(p, t)
                < i by {
                assert(h.votes.contains_key((p, u)));
                assert(p != n);
                assert(h2.ack(p, t) == h.ack(p, t));
            }
            assert(history::is_quorum(voters, q) && history::all_left(ms2, h2, q, t, i));
        } else {
            assert(h.lead.contains_key(t));
            assert(h.lead[t][i - 1] == h2.lead[t][i - 1]);
            if u == t2 {
                if history::agree(h.lead[t], before, i) {
                    growth::lemma_agree_less(before, log, before.len() as int, i);
                    growth::lemma_agree_through(h.lead[t], before, log, i);
                } else {
                    assert(h2.ack(n, t) == h.ack(n, t));
                    steps::lemma_passed_over_stays(ms, h, ms2, h2, voters, t, i);
                }
            } else {
                assert(h.lead.contains_key(u));
                if history::agree(h.lead[t], h.lead[u], i) {
                    growth::lemma_agree_less(h.lead[t], h2.lead[t], h.lead[t].len() as int, i);
                    growth::lemma_agree_through(h2.lead[t], h.lead[t], h.lead[u], i);
                } else {
                    steps::lemma_passed_over_stays(ms, h, ms2, h2, voters, t, i);
                }
            }
        }
    }
}

/// Writing to the log of a term's leader breaks nothing.
proof fn lemma_write(
    ms: Members,
    h: History,
    voters: Set<u64>,
    n: u64,
    m2: Member,
    q: Set<u64>,
)
    requires
        history::sound(ms, h, voters),
        ms.contains_key(n),
        voters.contains(n),
        ms[n].term >= 1,
        m2.term == ms[n].term,
        m2.voted_for == ms[n].voted_for,
        m2.commit == ms[n].commit,
        m2.role == NodeRole::Leader,
        written(ms[n].log, m2.log, m2.term),
        h.lead.contains_key(m2.term) ==> h.lead[m2.term] == ms[n].log && h.crown[m2.term] == n,
        h.ack(n, m2.term) <= ms[n].log.len(),
        history::is_quorum(voters, q),
        history::all_voted(h, q, m2.term, n),
        m2.leader is Some,
        forall|p: u64|
            #![trigger m2.leader->0.match_of(p)]
            m2.leader->0.match_of(p) <= h.ack(p, m2.term),
        forall|p: u64|
            #![trigger m2.leader->0.next_of(p)]
            1 <= m2.leader->0.next_of(p) <= m2.log.len() + 1,
        forall|t: u64, i: int|
            #![trigger h.lead[t][i - 1]]
            h.lead.contains_key(t) && t < m2.term && 0 < i <= h.lead[t].len() && h.lead[t][i
                - 1].term == t ==> history::agree(h.lead[t], ms[n].log, i)
                || history::passed_over(ms, h, voters, t, i),
    ensures
        history::sound(ms.insert(n, m2), after_writing(h, n, m2.term, m2.log), voters),
        h.grows_to(after_writing(h, n, m2.term, m2.log)),
{
    reveal(history::sound);
    let ms2 = ms.insert(n, m2);
    let t2 = m2.term;
    let h2 = after_writing(h, n, t2, m2.log);
    let before = ms[n].log;
    lemma_writing_keeps_leads(ms, h, voters, n, m2.log);
    lemma_writing_keeps_complete(ms, h, ms2, voters, n, m2.log);
    assert forall|p: u64, i: int|
        #![trigger ms2[p].log[i]]
        ms2.contains_key(p) && 0 <= i < ms2[p].log.len() implies history::known(h2, ms2[p].log, i)
        && ms2[p].log[i].term <= ms2[p].term by {
        if p == n {
            assert(history::lead_ok(h2, t2));
            assert(h2.lead[t2][i] == m2.log[i]);
        } else {
            assert(ms[p].log[i] == ms2[p].log[i]);
            growth::lemma_known_grows(h, h2, ms[p].log, i);
        }
    }
    assert forall|p: u64| #[trigger] ms2.contains_key(p) implies history::leader_ok(
        ms2,
        h2,
        voters,
        p,
    ) && history::candidate_ok(ms2, h2, voters, p) && history::settled(
        h2,
        voters,
        ms2[p].log,
        ms2[p].commit as int,
        ms2[p].term,
    ) by {
        assert(ms.contains_key(p));
        assert(history::leader_ok(ms, h, voters, p));
        assert(history::candidate_ok(ms, h, voters, p));
        if ms[p].commit > 0 {
            let k = ms[p].commit as int;
            assert(history::settled(h, voters, ms[p].log, k, ms[p].term));
            assert(k <= ms[p].log.len());
            if p == n {
                growth::lemma_agree_less(before, m2.log, before.len() as int, k);
            } else {
                assert(history::agree(ms[p].log, ms[p].log, k));
            }
        }
        growth::lemma_settled_grows(
            h,
            h2,
            voters,
            ms[p].log,
            ms2[p].log,
            ms2[p].commit as int,
            ms[p].term,
            ms2[p].term,
        );
        if p != n {
            if ms[p].role == NodeRole::Leader || ms[p].role == NodeRole::Candidate {
                if ms[p].term == t2 {
                    if ms[p].role == NodeRole::Leader {
                        let a = choose|q: Set<u64>| #[trigger]
                            history::is_quorum(voters, q) && history::all_voted(
                                h,
                                q,
                                t2,
                                h.crown[t2],
                            );
                        let x = history::lemma_quorums_meet(voters, a, q);
                        assert(a.contains(x) && q.contains(x));
                        assert(h.votes[(x, t2)] == p);
                        assert(h.votes[(x, t2)] == n);
                    }
                }
            }
            assert forall|x: u64|
                #![trigger ms2[p].leader->0.match_of(x)]
                ms2[p].role == NodeRole::Leader implies ms2[p].leader->0.match_of(x) <= h2.ack(
                x,
                ms2[p].term,
            ) by {
                assert(h.ack(x, ms[p].term) <= h2.ack(x, ms[p].term));
            }
        } else {
            assert forall|x: u64|
                #![trigger m2.leader->0.match_of(x)]
                m2.leader->0.match_of(x) <= h2.ack(x, t2) by {
                assert(h.ack(x, t2) <= h2.ack(x, t2));
            }
        }
    }
    assert(history::leaders_ok(ms2, h2, voters)) by {
        assert forall|t: u64| #[trigger] h2.lead.contains_key(t) implies ms2.contains_key(
            h2.crown[t],
        ) && ms2[h2.crown[t]].term >= t by {
            if t != t2 {
                assert(h.lead.contains_key(t));
            }
        }
    }
    assert(history::votes_ok(ms2, h2, voters));
    assert(history::elections_ok(h2, voters)) by {
        assert forall|t: u64| #[trigger] h2.lead.contains_key(t) implies exists|a: Set<u64>|
            #[trigger]
            history::is_quorum(voters, a) && history::all_voted(h2, a, t, h2.crown[t]) by {
            if t == t2 {
                assert(history::all_voted(h2, q, t, n));
            } else {
                assert(h.lead.contains_key(t));
                let a = choose|q: Set<u64>| #[trigger]
                    history::is_quorum(voters, q) && history::all_voted(h, q, t, h.crown[t]);
                assert(history::all_voted(h2, a, t, h2.crown[t]));
            }
        }
    }
    assert(history::votes_reach(h2)) by {
        assert forall|p: u64, t: u64, u: u64|
            #![trigger h2.votes.contains_key((p, t)), h2.ack(p, u)]
            h2.votes.contains_key((p, t)) && u < t && h2.ack(p, u) > 0 implies {
            let s = h2.stood[(h2.votes[(p, t)], t)];
            h2.stood.contains_key((h2.votes[(p, t)], t)) && history::reaches(
                s.0,
                s.1,
                u,
                h2.ack(p, u),
            )
        } by {
            assert(h.votes.contains_key((p, t)));
            assert((p, u) != (n, t2));
            assert(h.ack(p, u) == h2.ack(p, u));
        }
    }
    assert(history::acks_ok(ms2, h2)) by {
        assert forall|p: u64, t: u64|
            #![trigger h2.ack(p, t)]
            0 <= h2.ack(p, t) && (h2.ack(p, t) > 0 ==> {
                &&& ms2.contains_key(p)
                &&& h2.lead.contains_key(t)
                &&& h2.ack(p, t) <= h2.lead[t].len()
                &&& h2.lead[t][h2.ack(p, t) - 1].term == t
                &&& t <= ms2[p].term
                &&& history::reaches(
                    history::last_term(ms2[p].log),
                    ms2[p].log.len() as int,
                    t,
                    h2.ack(p, t),
                )
            }) by {
            if (p, t) != (n, t2) {
                assert(h.ack(p, t) == h2.ack(p, t));
                if h.ack(p, t) > 0 {
                    assert(h.lead.contains_key(t));
                    assert(h.lead[t][h.ack(p, t) - 1] == h2.lead[t][h.ack(p, t) - 1]);
                }
            }
        }
    }
}

/// A candidate with the votes of more than half of the voters becomes leader and
/// opens its term with an entry.
pub proof fn step_crown(
    ms: Members,
    h: History,
    voters: Set<u64>,
    n: u64,
    m2: Member,
    q: Set<u64>,
)
    requires
        history::sound(ms, h, voters),
        ms.contains_key(n),
        ms[n].role == NodeRole::Candidate,
        history::is_quorum(voters, q),
        history::all_voted(h, q, ms[n].term, n),
        m2.term == ms[n].term,
        m2.voted_for == ms[n].voted_for,
        m2.commit == ms[n].commit,
        m2.role == NodeRole::Leader,
        written(ms[n].log, m2.log, m2.term),
        m2.leader is Some,
        forall|p: u64| #![trigger m2.leader->0.match_of(p)] m2.leader->0.match_of(p) == 0,
        forall|p: u64|
            #![trigger m2.leader->0.next_of(p)]
            1 <= m2.leader->0.next_of(p) <= m2.log.len() + 1,
    ensures
        history::sound(ms.insert(n, m2), after_writing(h, n, m2.term, m2.log), voters),
        h.grows_to(after_writing(h, n, m2.term, m2.log)),
{
    reveal(history::sound);
    lemma_term_is_free(ms, h, voters, n, q);
    assert(history::candidate_ok(ms, h, voters, n));
    assert forall|t: u64, i: int|
        #![trigger h.lead[t][i - 1]]
        h.lead.contains_key(t) && t < m2.term && 0 < i <= h.lead[t].len() && h.lead[t][i - 1].term
            == t implies history::agree(h.lead[t], ms[n].log, i) || history::passed_over(
        ms,
        h,
        voters,
        t,
        i,
    ) by {
        lemma_winner_is_complete(ms, h, voters, n, q, t, i);
    }
    assert(h.ack(n, m2.term) <= 0);
    assert forall|p: u64|
        #![trigger m2.leader->0.match_of(p)]
        m2.leader->0.match_of(p) <= h.ack(p, m2.term) by {
        assert(0 <= h.ack(p, m2.term));
    }
    lemma_write(ms, h, voters, n, m2, q);
}

/// A leader writes an entry of its term to its log.
pub proof fn step_extend(ms: Members, h: History, voters: Set<u64>, n: u64, m2: Member)
    requires
        history::sound(ms, h, voters),
        ms.contains_key(n),
        ms[n].role == NodeRole::Leader,
        m2 == (Member { log: m2.log, ..ms[n] }),
        written(ms[n].log, m2.log, m2.term),
    ensures
        history::sound(ms.insert(n, m2), after_writing(h, n, m2.term, m2.log), voters),
        h.grows_to(after_writing(h, n, m2.term, m2.log)),
{
    reveal(history::sound);
    let t2 = m2.term;
    assert(history::leader_ok(ms, h, voters, n));
    assert(history::lead_ok(h, t2));
    let q = choose|q: Set<u64>| #[trigger]
        history::is_quorum(voters, q) && history::all_voted(h, q, t2, h.crown[t2]);
    assert forall|p: u64|
        #![trigger m2.leader->0.next_of(p)]
        1 <= m2.leader->0.next_of(p) <= m2.log.len() + 1 by {
        assert(1 <= ms[n].leader->0.next_of(p) <= ms[n].log.len() + 1);
    }
    assert forall|p: u64|
        #![trigger m2.leader->0.match_of(p)]
        m2.leader->0.match_of(p) <= h.ack(p, m2.term) by {
        assert(ms[n].leader->0.match_of(p) <= h.ack(p, m2.term));
    }
    lemma_write(ms, h, voters, n, m2, q);
}

} // verus!
