//! What was so stays so: facts that no further step takes back.

use vstd::prelude::*;

use crate::raft::message::EntryView;
use crate::raft::safety::history;
use crate::raft::safety::history::{History, Members};

verus! {

/// Agreement up to a place is agreement up to any earlier one, either way round.
pub proof fn lemma_agree_less(a: Seq<EntryView>, b: Seq<EntryView>, x: int, y: int)
    requires
        history::agree(a, b, x),
        0 <= y <= x,
    ensures
        history::agree(a, b, y),
        history::agree(b, a, y),
{
}

/// Agreement is passed on.
pub proof fn lemma_agree_through(
    a: Seq<EntryView>,
    b: Seq<EntryView>,
    c: Seq<EntryView>,
    x: int,
)
    requires
        history::agree(a, b, x),
        history::agree(b, c, x),
    ensures
        history::agree(a, c, x),
{
    assert forall|j: int|
        #![trigger a[j]]
        #![trigger c[j]]
        0 <= j < x implies a[j] == c[j] by {
        assert(a[j] == b[j]);
    }
}

/// Two logs with an entry of the same term in the same place agree up to it.
pub proof fn lemma_same_term(h: History, a: Seq<EntryView>, b: Seq<EntryView>, i: int)
    requires
        0 <= i < a.len(),
        0 <= i < b.len(),
        history::known(h, a, i),
        history::known(h, b, i),
        a[i].term == b[i].term,
    ensures
        history::agree(a, b, i + 1),
{
    let l = h.lead[a[i].term];
    lemma_agree_less(b, l, i + 1, i + 1);
    lemma_agree_through(a, l, b, i + 1);
}

/// What was known stays known.
pub proof fn lemma_known_grows(h: History, to: History, log: Seq<EntryView>, i: int)
    requires
        h.grows_to(to),
        0 <= i < log.len(),
        history::known(h, log, i),
    ensures
        history::known(to, log, i),
{
    let t = log[i].term;
    lemma_agree_less(h.lead[t], to.lead[t], h.lead[t].len() as int, i + 1);
    lemma_agree_through(log, h.lead[t], to.lead[t], i + 1);
}

/// What was chosen stays chosen.
pub proof fn lemma_chosen_grows(h: History, to: History, voters: Set<u64>, t: u64, i: int)
    requires
        h.grows_to(to),
        history::chosen(h, voters, t, i),
    ensures
        history::chosen(to, voters, t, i),
{
    assert(h.lead.contains_key(t));
    assert(h.lead[t][i - 1] == to.lead[t][i - 1]);
    let q = choose|q: Set<u64>| #[trigger]
        history::is_quorum(voters, q) && history::all_took(h, q, t, i);
    assert forall|p: u64| #[trigger] q.contains(p) implies to.ack(p, t) >= i by {
        assert(h.ack(p, t) <= to.ack(p, t));
    }
    assert(history::is_quorum(voters, q) && history::all_took(to, q, t, i));
}

/// What was settled stays settled, also in a log that agrees with the old one.
pub proof fn lemma_settled_grows(
    h: History,
    to: History,
    voters: Set<u64>,
    log: Seq<EntryView>,
    log2: Seq<EntryView>,
    k: int,
    limit: u64,
    limit2: u64,
)
    requires
        h.grows_to(to),
        history::settled(h, voters, log, k, limit),
        k > 0 ==> history::agree(log2, log, k),
        limit <= limit2,
    ensures
        history::settled(to, voters, log2, k, limit2),
{
    if k != 0 {
        let (t, i) = choose|t: u64, i: int| #[trigger]
            history::chosen(h, voters, t, i) && t <= limit && k <= i && history::agree(
                log,
                h.lead[t],
                k,
            );
        lemma_chosen_grows(h, to, voters, t, i);
        assert(h.lead.contains_key(t));
        lemma_agree_through(log2, log, h.lead[t], k);
        lemma_agree_less(h.lead[t], to.lead[t], h.lead[t].len() as int, k);
        lemma_agree_through(log2, h.lead[t], to.lead[t], k);
        assert(history::chosen(to, voters, t, i) && t <= limit2 && k <= i && history::agree(
            log2,
            to.lead[t],
            k,
        ));
    }
}

/// A history is its own continuation.
pub proof fn lemma_grows_same(h: History)
    ensures
        h.grows_to(h),
{
}

/// A continuation's continuation is one.
pub proof fn lemma_grows_through(a: History, b: History, c: History)
    requires
        a.grows_to(b),
        b.grows_to(c),
    ensures
        a.grows_to(c),
{
    assert forall|t: u64| #[trigger] a.lead.contains_key(t) implies c.lead.contains_key(t)
        && history::agree(a.lead[t], c.lead[t], a.lead[t].len() as int) && c.crown[t]
        == a.crown[t] by {
        let n = a.lead[t].len() as int;
        assert(b.lead.contains_key(t));
        lemma_agree_less(b.lead[t], c.lead[t], b.lead[t].len() as int, n);
        lemma_agree_through(a.lead[t], b.lead[t], c.lead[t], n);
    }
    assert forall|k: (u64, u64)| #[trigger] a.votes.contains_key(k) implies c.votes.contains_key(k)
        && c.votes[k] == a.votes[k] by {
        assert(b.votes.contains_key(k));
    }
    assert forall|n: u64, t: u64| a.ack(n, t) <= #[trigger] c.ack(n, t) by {
        assert(a.ack(n, t) <= b.ack(n, t));
    }
    assert forall|k: (u64, u64)| #[trigger] a.stood.contains_key(k) implies c.stood.contains_key(k)
        && c.stood[k] == a.stood[k] by {
        assert(b.stood.contains_key(k));
    }
}

/// What was chosen is in the log of every later leader.
pub proof fn lemma_chosen_kept(
    ms: Members,
    h: History,
    voters: Set<u64>,
    t: u64,
    i: int,
    u: u64,
)
    requires
        voters.finite(),
        history::leaders_complete(ms, h, voters),
        history::chosen(h, voters, t, i),
        h.lead.contains_key(u),
        t <= u,
    ensures
        history::agree(h.lead[t], h.lead[u], i),
{
    if t < u {
        assert(h.lead[t][i - 1].term == t);
        if !history::agree(h.lead[t], h.lead[u], i) {
            assert(history::passed_over(ms, h, voters, t, i));
            let a = choose|q: Set<u64>| #[trigger]
                history::is_quorum(voters, q) && history::all_left(ms, h, q, t, i);
            let b = choose|q: Set<u64>| #[trigger]
                history::is_quorum(voters, q) && history::all_took(h, q, t, i);
            let p = history::lemma_quorums_meet(voters, a, b);
            assert(a.contains(p) && b.contains(p));
            assert(h.ack(p, t) < i);
            assert(h.ack(p, t) >= i);
        }
    }
}

/// What two members count as settled agrees.
pub proof fn lemma_settled_agree(
    ms: Members,
    h: History,
    voters: Set<u64>,
    a: Seq<EntryView>,
    x: int,
    limit_a: u64,
    b: Seq<EntryView>,
    y: int,
    limit_b: u64,
)
    requires
        voters.finite(),
        history::leaders_complete(ms, h, voters),
        history::settled(h, voters, a, x, limit_a),
        history::settled(h, voters, b, y, limit_b),
        0 < x <= y,
    ensures
        history::agree(a, b, x),
{
    let (t, i) = choose|t: u64, i: int| #[trigger]
        history::chosen(h, voters, t, i) && t <= limit_a && x <= i && history::agree(
            a,
            h.lead[t],
            x,
        );
    let (u, j) = choose|t: u64, i: int| #[trigger]
        history::chosen(h, voters, t, i) && t <= limit_b && y <= i && history::agree(
            b,
            h.lead[t],
            y,
        );
    lemma_agree_less(b, h.lead[u], y, x);
    if t <= u {
        lemma_chosen_kept(ms, h, voters, t, i, u);
        lemma_agree_less(h.lead[t], h.lead[u], i, x);
        lemma_agree_through(a, h.lead[t], h.lead[u], x);
    } else {
        lemma_chosen_kept(ms, h, voters, u, j, t);
        lemma_agree_less(h.lead[u], h.lead[t], j, x);
        lemma_agree_through(a, h.lead[t], h.lead[u], x);
    }
    lemma_agree_through(a, h.lead[u], b, x);
}

/// In a log that is made of what leaders wrote, terms do not fall.
pub proof fn lemma_terms_rise(h: History, log: Seq<EntryView>, i: int, j: int)
    requires
        history::leads_ok(h),
        0 <= i <= j < log.len(),
        history::known(h, log, j),
    ensures
        log[i].term <= log[j].term,
{
    let l = h.lead[log[j].term];
    assert(history::lead_ok(h, log[j].term));
    assert(log[i] == l[i]);
    assert(log[j] == l[j]);
}

} // verus!
