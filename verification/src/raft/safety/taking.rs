//! Taking over what a leader sent.

use vstd::prelude::*;

use crate::raft::log;
use crate::raft::log::LogView;
use crate::raft::message::AppendView;
use crate::raft::safety::growth;
use crate::raft::safety::history;
use crate::raft::safety::history::{History, Member, Members};
use crate::raft::safety::steps;
use crate::raft::state::NodeRole;

verus! {

/// Where the entries of a request end.
pub open spec fn end_of(req: AppendView) -> int {
    req.prev_log_index + req.entries.len()
}

/// What holds of every append request that was sent: it carries a piece of the
/// log of its term's leader that ends within the term.
pub open spec fn request_ok(h: History, voters: Set<u64>, req: AppendView) -> bool {
    &&& h.lead.contains_key(req.term)
    &&& h.crown[req.term] == req.leader_id
    &&& 1 <= end_of(req) <= h.lead[req.term].len()
    &&& h.lead[req.term][end_of(req) - 1].term == req.term
    &&& req.entries == h.lead[req.term].subrange(req.prev_log_index as int, end_of(req))
    &&& req.prev_log_index > 0 ==> req.prev_log_term == h.lead[req.term][req.prev_log_index
        - 1].term
    &&& req.leader_commit <= h.lead[req.term].len()
    &&& history::settled(
        h,
        voters,
        h.lead[req.term],
        req.leader_commit as int,
        req.term,
    )
}

/// What held of a request holds on.
pub proof fn lemma_request_grows(h: History, to: History, voters: Set<u64>, req: AppendView)
    requires
        h.grows_to(to),
        request_ok(h, voters, req),
    ensures
        request_ok(to, voters, req),
{
    let a = h.lead[req.term];
    let b = to.lead[req.term];
    assert(history::agree(a, b, a.len() as int));
    assert(a[end_of(req) - 1] == b[end_of(req) - 1]);
    assert(a.subrange(req.prev_log_index as int, end_of(req)) =~= b.subrange(
        req.prev_log_index as int,
        end_of(req),
    ));
    growth::lemma_agree_less(a, b, a.len() as int, req.leader_commit as int);
    growth::lemma_settled_grows(
        h,
        to,
        voters,
        a,
        b,
        req.leader_commit as int,
        req.term,
        req.term,
    );
}

/// A log that takes over what a leader sent becomes a piece of the leader's log,
/// and does not become shorter than what the two had in common.
pub proof fn lemma_taken_log(h: History, voters: Set<u64>, l: LogView, req: AppendView)
    requires
        history::leads_ok(h),
        request_ok(h, voters, req),
        l.wf(),
        l.snapshot_index == 0,
        forall|i: int|
            #![trigger l.entries[i]]
            0 <= i < l.entries.len() ==> history::known(h, l.entries, i) && l.entries[i].term
                <= req.term,
        req.prev_log_index == 0 || l.term_at(req.prev_log_index as int) == Some(
            req.prev_log_term,
        ),
    ensures
        ({
            let m = l.merged(req.entries).entries;
            &&& history::agree(m, h.lead[req.term], m.len() as int)
            &&& m.len() >= end_of(req)
            &&& m.last().term == req.term
            &&& forall|x: int| #[trigger]
                history::agree(l.entries, h.lead[req.term], x) ==> x <= m.len()
        }),
{
    let t = req.term;
    let lead = h.lead[t];
    let prev = req.prev_log_index as int;
    let es = req.entries;
    let e = end_of(req);
    let le = l.entries;
    let m = l.merged(es).entries;
    assert(history::lead_ok(h, t));
    assert forall|j: int| 0 <= j < es.len() implies #[trigger] es[j] == lead[prev + j] by {}
    log::lemma_covered_range(l, es);
    let k = l.covered(es);
    if k >= es.len() {
        assert(m == le);
        if es.len() > 0 {
            assert(l.holds(es[es.len() - 1]));
            assert(es[es.len() - 1] == lead[e - 1]);
            assert(lead[e - 1].index == e);
        }
        assert(e <= le.len());
        assert(le[e - 1].term == t);
        let last = le.len() - 1;
        assert(le[last].term <= t);
        growth::lemma_terms_rise(h, le, e - 1, last);
        assert(le[last].term == t);
        assert(history::known(h, le, last));
    } else {
        assert(!l.holds(es[k]));
        let j = prev + k;
        assert(es[k] == lead[j]);
        assert(lead[j].index == j + 1);
        if k > 0 {
            assert(l.holds(es[k - 1]));
            assert(es[k - 1] == lead[j - 1]);
            assert(lead[j - 1].index == j);
        }
        assert(j <= le.len());
        if j > 0 {
            assert(le[j - 1].term == lead[j - 1].term);
            assert(history::known(h, le, j - 1));
            assert(history::known(h, lead, j - 1));
            growth::lemma_same_term(h, le, lead, j - 1);
        }
        assert(history::agree(le, lead, j));
        assert(m =~= le.take(j) + es.skip(k));
        assert(m.len() == e);
        assert forall|x: int|
            #![trigger m[x]]
            #![trigger lead[x]]
            0 <= x < e implies m[x] == lead[x] by {
            if x < j {
                assert(m[x] == le[x]);
            } else {
                assert(m[x] == es[k + (x - j)]);
            }
        }
        assert forall|x: int| #[trigger] history::agree(le, lead, x) implies x <= m.len() by {
            if x > j {
                assert(le[j] == lead[j]);
                assert(l.at(j + 1) == le[j]);
                assert(l.holds(es[k]));
            }
        }
    }
}

/// The history after `n` took over the log of `t`'s leader up to `i`.
pub open spec fn after_taking(h: History, n: u64, t: u64, i: int) -> History {
    History { acks: h.acks.insert((n, t), i), ..h }
}

/// A member takes over what the leader of its term sent.
pub proof fn step_take(
    ms: Members,
    h: History,
    voters: Set<u64>,
    n: u64,
    l: LogView,
    req: AppendView,
)
    requires
        history::sound(ms, h, voters),
        ms.contains_key(n),
        ms[n].role == NodeRole::Follower || ms[n].role == NodeRole::Learner,
        ms[n].term == req.term,
        ms[n].log == l.entries,
        l.wf(),
        l.snapshot_index == 0,
        request_ok(h, voters, req),
        req.prev_log_index == 0 || l.term_at(req.prev_log_index as int) == Some(
            req.prev_log_term,
        ),
    ensures
        ({
            let m = l.merged(req.entries).entries;
            let h2 = after_taking(h, n, req.term, m.len() as int);
            &&& history::sound(ms.insert(n, Member { log: m, ..ms[n] }), h2, voters)
            &&& h.grows_to(h2)
            &&& history::agree(m, h.lead[req.term], m.len() as int)
            &&& ms[n].commit <= m.len()
        }),
{
    reveal(history::sound);
    let t2 = req.term;
    let m = l.merged(req.entries).entries;
    let lead = h.lead[t2];
    let m2 = Member { log: m, ..ms[n] };
    let ms2 = ms.insert(n, m2);
    let h2 = after_taking(h, n, t2, m.len() as int);
    assert forall|i: int|
        #![trigger l.entries[i]]
        0 <= i < l.entries.len() implies history::known(h, l.entries, i) && l.entries[i].term
        <= req.term by {
        assert(ms[n].log[i] == l.entries[i]);
    }
    lemma_taken_log(h, voters, l, req);
    assert(history::lead_ok(h, t2));
    assert(h.ack(n, t2) <= m.len()) by {
        if h.ack(n, t2) > 0 {
            let last = l.entries.len() - 1;
            assert(l.entries[last].term <= t2);
            assert(history::known(h, l.entries, last));
            assert(history::agree(l.entries, lead, l.entries.len() as int));
        }
    }
    assert(h.grows_to(h2)) by {
        assert forall|p: u64, t: u64| h.ack(p, t) <= #[trigger] h2.ack(p, t) by {}
    }
    assert(history::leads_ok(h2)) by {
        steps::lemma_leads_kept(h, h2);
    }
    assert(history::elections_ok(h2, voters)) by {
        steps::lemma_elections_kept(h, h2, voters);
    }
    assert forall|p: u64, i: int|
        #![trigger ms2[p].log[i]]
        ms2.contains_key(p) && 0 <= i < ms2[p].log.len() implies history::known(h2, ms2[p].log, i)
        && ms2[p].log[i].term <= ms2[p].term by {
        if p == n {
            assert(m[i] == lead[i]);
            assert(history::known(h, lead, i));
            growth::lemma_agree_less(m, lead, m.len() as int, i + 1);
            growth::lemma_agree_through(m, lead, h.lead[m[i].term], i + 1);
        } else {
            assert(ms[p].log[i] == ms2[p].log[i]);
            assert(history::known(h, ms[p].log, i));
        }
    }
    assert(history::settled(h, voters, ms[n].log, ms[n].commit as int, ms[n].term));
    if ms[n].commit > 0 {
        let k = ms[n].commit as int;
        let (t, i) = choose|t: u64, i: int| #[trigger]
            history::chosen(h, voters, t, i) && t <= ms[n].term && k <= i && history::agree(
                ms[n].log,
                h.lead[t],
                k,
            );
        growth::lemma_chosen_kept(ms, h, voters, t, i, t2);
        growth::lemma_agree_less(h.lead[t], lead, i, k);
        growth::lemma_agree_through(ms[n].log, h.lead[t], lead, k);
        assert(history::agree(l.entries, lead, k));
        growth::lemma_agree_less(m, lead, m.len() as int, k);
        growth::lemma_agree_less(ms[n].log, lead, k, k);
        growth::lemma_agree_through(m, lead, ms[n].log, k);
    }
    assert forall|p: u64| #[trigger] ms2.contains_key(p) implies history::leader_ok(
        ms2,
        h2,
        voters,
        p,
    ) && history::candidate_ok(ms2, h2, voters, p) && history::settled(
        h2,
        voters,
        ms2[p].log,
        ms2[p].commit as int,
        ms2[p].term,
    ) by {
        assert(ms.contains_key(p));
        assert(history::leader_ok(ms, h, voters, p));
        assert(history::candidate_ok(ms, h, voters, p));
        if p != n && ms[p].commit > 0 {
            assert(history::settled(h, voters, ms[p].log, ms[p].commit as int, ms[p].term));
        }
        growth::lemma_settled_grows(
            h,
            h2,
            voters,
            ms[p].log,
            ms2[p].log,
            ms2[p].commit as int,
            ms[p].term,
            ms2[p].term,
        );
        assert forall|x: u64|
            #![trigger ms2[p].leader->0.match_of(x)]
            ms2[p].role == NodeRole::Leader implies ms2[p].leader->0.match_of(x) <= h2.ack(
            x,
            ms2[p].term,
        ) by {
            assert(h.ack(x, ms[p].term) <= h2.ack(x, ms[p].term));
        }
    }
    assert(history::leaders_ok(ms2, h2, voters)) by {
        assert forall|t: u64| #[trigger] h2.lead.contains_key(t) implies ms2.contains_key(
            h2.crown[t],
        ) && ms2[h2.crown[t]].term >= t by {
            assert(h.lead.contains_key(t));
        }
    }
    assert(history::votes_reach(h2)) by {
        assert forall|p: u64, t: u64, u: u64|
            #![trigger h2.votes.contains_key((p, t)), h2.ack(p, u)]
            h2.votes.contains_key((p, t)) && u < t && h2.ack(p, u) > 0 implies {
            let s = h2.stood[(h2.votes[(p, t)], t)];
            h2.stood.contains_key((h2.votes[(p, t)], t)) && history::reaches(
                s.0,
                s.1,
                u,
                h2.ack(p, u),
            )
        } by {
            assert(h.votes.contains_key((p, t)));
            assert((p, u) != (n, t2));
            assert(h.ack(p, u) == h2.ack(p, u));
        }
    }
    assert(history::acks_ok(ms2, h2)) by {
        assert forall|p: u64, t: u64|
            #![trigger h2.ack(p, t)]
            0 <= h2.ack(p, t) && (h2.ack(p, t) > 0 ==> {
                &&& ms2.contains_key(p)
                &&& h2.lead.contains_key(t)
                &&& h2.ack(p, t) <= h2.lead[t].len()
                &&& h2.lead[t][h2.ack(p, t) - 1].term == t
                &&& t <= ms2[p].term
                &&& history::reaches(
                    history::last_term(ms2[p].log),
                    ms2[p].log.len() as int,
                    t,
                    h2.ack(p, t),
                )
            }) by {
            if (p, t) != (n, t2) {
                assert(h.ack(p, t) == h2.ack(p, t));
            } else {
                assert(m.last() == lead[m.len() - 1]);
            }
        }
    }
    assert(history::leaders_complete(ms2, h2, voters)) by {
        assert forall|t: u64, u: u64, i: int|
            #![trigger h2.lead.contains_key(t), h2.lead.contains_key(u), h2.lead[t][i - 1]]
            h2.lead.contains_key(t) && h2.lead.contains_key(u) && t < u && 0 < i
                <= h2.lead[t].len() && h2.lead[t][i - 1].term == t implies history::agree(
            h2.lead[t],
            h2.lead[u],
            i,
        ) || history::passed_over(ms2, h2, voters, t, i) by {
            if !history::agree(h.lead[t], h.lead[u], i) {
                assert(h.lead[t][i - 1].term == t);
                steps::lemma_passed_over_stays(ms, h, ms2, h2, voters, t, i);
            }
        }
    }
}

} // verus!
