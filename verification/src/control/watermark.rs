//! How far each Raft group has been applied on this node.

use std::collections::HashMap;

use vstd::prelude::*;

verus! {

broadcast use vstd::std_specs::hash::group_hash_axioms;

/// Highest applied index by group. Marks only rise.
pub struct GroupAppliedWatchers {
    pub marks: HashMap<u64, u64>,
}

/// The mark of a group; 0 before anything was applied.
pub open spec fn mark_of(m: Map<u64, u64>, group: u64) -> u64 {
    if m.contains_key(group) {
        m[group]
    } else {
        0
    }
}

/// The marks after `group` was applied up to `index`.
pub open spec fn bumped(m: Map<u64, u64>, group: u64, index: u64) -> Map<u64, u64> {
    m.insert(
        group,
        if mark_of(m, group) > index {
            mark_of(m, group)
        } else {
            index
        },
    )
}

impl View for GroupAppliedWatchers {
    type V = Map<u64, u64>;

    open spec fn view(&self) -> Map<u64, u64> {
        self.marks@
    }
}

impl GroupAppliedWatchers {
    /// No group has been applied.
    pub fn new() -> (r: GroupAppliedWatchers)
        ensures
            r@ == Map::<u64, u64>::empty(),
    {
        GroupAppliedWatchers { marks: HashMap::new() }
    }

    /// The mark of a group.
    pub fn applied(&self, group: u64) -> (r: u64)
        ensures
            r == mark_of(self@, group),
    {
        match self.marks.get(&group) {
            Some(i) => *i,
            None => 0,
        }
    }

    /// Raises the mark of a group to `index`, unless it is higher already.
    pub fn bump(&mut self, group: u64, index: u64)
        ensures
            final(self)@ == bumped(old(self)@, group, index),
    {
        let at: u64 = self.applied(group);
        self.marks.insert(
            group,
            if at > index {
                at
            } else {
                index
            },
        );
    }
}

/// A mark never falls, whichever group is bumped.
pub proof fn law_marks_never_fall(m: Map<u64, u64>, group: u64, index: u64, other: u64)
    ensures
        mark_of(bumped(m, group, index), other) >= mark_of(m, other),
        mark_of(bumped(m, group, index), group) >= index,
{
}

} // verus!
