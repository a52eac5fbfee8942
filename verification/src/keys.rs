//! Keys of integer-keyed maps, in ascending order.

use std::collections::HashMap;

use vstd::prelude::*;

verus! {

broadcast use vstd::std_specs::hash::group_hash_axioms;

/// Whether each element is smaller than the ones behind it.
pub open spec fn ascending(s: Seq<u64>) -> bool {
    forall|i: int, j: int| 0 <= i < j < s.len() ==> s[i] < s[j]
}

/// Whether `s` lists the elements of `dom`, each once and in ascending order.
pub open spec fn lists(s: Seq<u64>, dom: Set<u64>) -> bool {
    ascending(s) && forall|x: u64| #[trigger] s.contains(x) <==> dom.contains(x)
}

/// Puts `x` where it belongs in an ascending list that does not hold it.
fn insert_ascending(v: &mut Vec<u64>, x: u64)
    requires
        ascending(old(v)@),
        !old(v)@.contains(x),
    ensures
        ascending(final(v)@),
        forall|y: u64| #[trigger]
            final(v)@.contains(y) <==> old(v)@.contains(y) || y == x,
{
    let mut i: usize = 0;
    while i < v.len() && v[i] < x
        invariant
            i <= v@.len(),
            v@ == old(v)@,
            forall|k: int| 0 <= k < i ==> v@[k] < x,
        decreases v@.len() - i,
    {
        i = i + 1;
    }
    let ghost s = v@;
    v.insert(i, x);
    proof {
        if i < s.len() {
            assert(s.contains(s[i as int]));
        }
        assert forall|y: u64| #[trigger] v@.contains(y) <==> s.contains(y) || y == x by {
            if v@.contains(y) {
                let k = v@.index_of(y);
                if k < i {
                    assert(s[k] == y);
                } else if k > i {
                    assert(s[k - 1] == y);
                }
            }
            if s.contains(y) {
                let k = s.index_of(y);
                if k < i {
                    assert(v@[k] == y);
                } else {
                    assert(v@[k + 1] == y);
                }
            }
            if y == x {
                assert(v@[i as int] == y);
            }
        }
    }
}

/// The keys of `m`, in ascending order.
pub fn sorted_keys<V>(m: &HashMap<u64, V>) -> (r: Vec<u64>)
    ensures
        lists(r@, m@.dom()),
{
    let mut r: Vec<u64> = Vec::new();
    let ghost keys = vstd::std_specs::iter::IteratorSpec::remaining(
        &vstd::std_specs::hash::spec_keys_iter(m),
    ).unref();
    for k in it: m.keys()
        invariant
            ascending(r@),
            it.seq().no_duplicates(),
            it.seq().unref() == keys,
            keys.to_set() == m@.dom(),
            forall|x: u64| #[trigger]
                r@.contains(x) <==> keys.take(it.index() as int).contains(x),
    {
        proof {
            let all = it.seq().unref();
            let n = it.index() as int;
            assert(*k == all[n]);
            assert(all.take(n + 1) =~= all.take(n).push(*k));
            assert(!all.take(n).contains(*k)) by {
                if all.take(n).contains(*k) {
                    let j = all.take(n).index_of(*k);
                    assert(it.seq()[j] == it.seq()[n]);
                }
            }
            assert forall|x: u64| #[trigger]
                all.take(n + 1).contains(x) <==> all.take(n).contains(x) || x == *k by {
                if all.take(n).contains(x) {
                    let j = all.take(n).index_of(x);
                    assert(all.take(n + 1)[j] == x);
                }
                if x == *k {
                    assert(all.take(n + 1)[n] == x);
                }
                if all.take(n + 1).contains(x) && x != *k {
                    let j = all.take(n + 1).index_of(x);
                    assert(all.take(n)[j] == x);
                }
            }
        }
        insert_ascending(&mut r, *k);
    }
    proof {
        assert(keys.take(keys.len() as int) =~= keys);
        assert forall|x: u64| #[trigger] r@.contains(x) <==> m@.dom().contains(x) by {
            assert(keys.to_set().contains(x) <==> keys.contains(x));
        }
    }
    r
}

/// A list of keys is in ascending order, holds no key twice, and holds exactly
/// the keys of the map.
pub proof fn law_listed_keys_are_those_of_the_map(s: Seq<u64>, dom: Set<u64>, i: int, j: int)
    requires
        lists(s, dom),
        0 <= i < s.len(),
        0 <= j < s.len(),
    ensures
        i < j <==> s[i] < s[j],
        i == j <==> s[i] == s[j],
        s.to_set() =~= dom,
{
}

} // verus!
