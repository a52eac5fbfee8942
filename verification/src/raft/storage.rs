//! Persistent storage of a Raft group.

use vstd::prelude::*;

use crate::raft::error::RaftError;
use crate::raft::message;
use crate::raft::message::{EntryView, LogEntry};
use crate::raft::state::HardState;

verus! {

/// What a storage holds.
#[verifier::ext_equal]
pub struct StoredView {
    pub hard_state: HardState,
    pub snapshot_index: u64,
    pub snapshot_term: u64,
    pub entries: Seq<EntryView>,
}

impl StoredView {
    /// A storage that was never written to.
    pub open spec fn fresh() -> StoredView {
        StoredView {
            hard_state: HardState { current_term: 0, voted_for: 0 },
            snapshot_index: 0,
            snapshot_term: 0,
            entries: Seq::empty(),
        }
    }

    /// After writing `es` behind the stored entries.
    pub open spec fn appended(self, es: Seq<EntryView>) -> StoredView {
        StoredView { entries: self.entries + es, ..self }
    }

    /// After dropping every entry whose index is `from` or more.
    pub open spec fn truncated(self, from: u64) -> StoredView {
        StoredView { entries: self.entries.filter(|e: EntryView| e.index < from), ..self }
    }

    /// After moving the snapshot to `index`: entries up to it are dropped.
    pub open spec fn compacted(self, index: u64, term: u64) -> StoredView {
        StoredView {
            snapshot_index: index,
            snapshot_term: term,
            entries: self.entries_after(index),
            ..self
        }
    }

    /// After recording `hs`.
    pub open spec fn with_hard_state(self, hs: HardState) -> StoredView {
        StoredView { hard_state: hs, ..self }
    }

    /// Stored entries with an index above `index`, in order.
    pub open spec fn entries_after(self, index: u64) -> Seq<EntryView> {
        self.entries.filter(|e: EntryView| e.index > index)
    }
}

/// Durable storage of one Raft group: hard state, snapshot position and log.
///
/// A write either takes effect as a whole or reports an error and changes
/// nothing.
pub trait LogStorage: Sized {
    /// What is stored.
    spec fn stored(&self) -> StoredView;

    /// Whether no operation ever fails.
    spec fn reliable(&self) -> bool;

    /// Writes `entries` behind those already stored.
    fn append(&mut self, entries: &[LogEntry]) -> (r: Result<(), RaftError>)
        ensures
            final(self).reliable() == old(self).reliable(),
            old(self).reliable() ==> r is Ok,
            r is Ok ==> final(self).stored() == old(self).stored().appended(
                message::entries_view(entries@),
            ),
            r is Err ==> final(self).stored() == old(self).stored(),
    ;

    /// Drops every entry whose index is `from` or more.
    fn truncate(&mut self, from: u64) -> (r: Result<(), RaftError>)
        ensures
            final(self).reliable() == old(self).reliable(),
            old(self).reliable() ==> r is Ok,
            r is Ok ==> final(self).stored() == old(self).stored().truncated(from),
            r is Err ==> final(self).stored() == old(self).stored(),
    ;

    /// Reads the entries with an index above `index`.
    fn load_entries_after(&self, index: u64) -> (r: Result<Vec<LogEntry>, RaftError>)
        ensures
            self.reliable() ==> r is Ok,
            r matches Ok(es) ==> message::entries_view(es@) == self.stored().entries_after(index),
    ;

    /// Moves the snapshot to `index` and drops the entries up to it.
    fn compact(&mut self, index: u64, term: u64) -> (r: Result<(), RaftError>)
        ensures
            final(self).reliable() == old(self).reliable(),
            old(self).reliable() ==> r is Ok,
            r is Ok ==> final(self).stored() == old(self).stored().compacted(index, term),
            r is Err ==> final(self).stored() == old(self).stored(),
    ;

    /// Reads the snapshot's last index and term.
    fn snapshot_metadata(&self) -> (r: (u64, u64))
        ensures
            r.0 == self.stored().snapshot_index,
            r.1 == self.stored().snapshot_term,
    ;

    /// Records the hard state.
    fn save_hard_state(&mut self, hs: &HardState) -> (r: Result<(), RaftError>)
        ensures
            final(self).reliable() == old(self).reliable(),
            old(self).reliable() ==> r is Ok,
            r is Ok ==> final(self).stored() == old(self).stored().with_hard_state(*hs),
            r is Err ==> final(self).stored() == old(self).stored(),
    ;

    /// Reads the hard state.
    fn load_hard_state(&self) -> (r: Result<HardState, RaftError>)
        ensures
            self.reliable() ==> r is Ok,
            r matches Ok(hs) ==> hs == self.stored().hard_state,
    ;
}

/// Storage in memory, which never fails.
#[derive(Debug)]
pub struct MemStorage {
    pub hard_state: HardState,
    pub snapshot_index: u64,
    pub snapshot_term: u64,
    pub entries: Vec<LogEntry>,
}

impl MemStorage {
    /// An empty storage.
    pub fn new() -> (r: MemStorage)
        ensures
            r.stored() == StoredView::fresh(),
            r.reliable(),
    {
        let r = MemStorage {
            hard_state: HardState::new(),
            snapshot_index: 0,
            snapshot_term: 0,
            entries: Vec::new(),
        };
        assert(r.stored() =~= StoredView::fresh());
        r
    }
}

impl Default for MemStorage {
    fn default() -> (r: MemStorage)
        ensures
            r.stored() == StoredView::fresh(),
    {
        MemStorage::new()
    }
}

impl Clone for MemStorage {
    fn clone(&self) -> (r: MemStorage)
        ensures
            r.stored() == self.stored(),
    {
        let r = MemStorage {
            hard_state: self.hard_state,
            snapshot_index: self.snapshot_index,
            snapshot_term: self.snapshot_term,
            entries: message::copy_entries(self.entries.as_slice(), 0, self.entries.len()),
        };
        assert(r.stored().entries =~= self.stored().entries);
        r
    }
}

/// Keeps the entries of `s` whose index is below `from` (or, with `above`,
/// above it), in order.
fn select_entries(s: &Vec<LogEntry>, from: u64, above: bool) -> (r: Vec<LogEntry>)
    ensures
        !above ==> message::entries_view(r@) == message::entries_view(s@).filter(
            |e: EntryView| e.index < from,
        ),
        above ==> message::entries_view(r@) == message::entries_view(s@).filter(
            |e: EntryView| e.index > from,
        ),
{
    let mut r: Vec<LogEntry> = Vec::new();
    let mut i: usize = 0;
    let ghost keep = |e: EntryView| if above { e.index > from } else { e.index < from };
    let ghost v = message::entries_view(s@);
    proof {
        reveal(Seq::filter);
        assert(v.take(0).filter(keep) =~= Seq::empty());
        assert(message::entries_view(r@) =~= Seq::empty());
    }
    while i < s.len()
        invariant
            i <= s.len(),
            v == message::entries_view(s@),
            keep == (|e: EntryView| if above { e.index > from } else { e.index < from }),
            message::entries_view(r@) == v.take(i as int).filter(keep),
        decreases s.len() - i,
    {
        proof {
            reveal(Seq::filter);
            assert(v.take(i + 1).drop_last() =~= v.take(i as int));
            assert(v.take(i + 1).last() == s[i as int]@);
        }
        let index: u64 = s[i].index;
        if (above && index > from) || (!above && index < from) {
            let e = s[i].clone();
            proof {
                message::lemma_entries_view_push(r@, e);
            }
            r.push(e);
        }
        i = i + 1;
    }
    proof {
        assert(v.take(s.len() as int) =~= v);
        if above {
            assert(keep =~= (|e: EntryView| e.index > from));
        } else {
            assert(keep =~= (|e: EntryView| e.index < from));
        }
    }
    r
}

impl LogStorage for MemStorage {
    open spec fn stored(&self) -> StoredView {
        StoredView {
            hard_state: self.hard_state,
            snapshot_index: self.snapshot_index,
            snapshot_term: self.snapshot_term,
            entries: message::entries_view(self.entries@),
        }
    }

    open spec fn reliable(&self) -> bool {
        true
    }

    fn append(&mut self, entries: &[LogEntry]) -> (r: Result<(), RaftError>) {
        let mut add = message::copy_entries(entries, 0, entries.len());
        proof {
            let e = message::entries_view(entries@);
            assert(e.subrange(0, e.len() as int) =~= e);
            assert(message::entries_view(add@) == e);
            assert(add@.len() == entries@.len()) by {
                assert(message::entries_view(add@).len() == e.len());
            }
            assert forall|i: int| 0 <= i < add@.len() implies add@[i]@ == e[i] by {
                assert(message::entries_view(add@)[i] == add@[i]@);
            }
            assert(message::entries_view(self.entries@ + add@) =~= message::entries_view(
                self.entries@,
            ) + message::entries_view(entries@));
        }
        self.entries.append(&mut add);
        Ok(())
    }

    fn truncate(&mut self, from: u64) -> (r: Result<(), RaftError>) {
        self.entries = select_entries(&self.entries, from, false);
        Ok(())
    }

    fn load_entries_after(&self, index: u64) -> (r: Result<Vec<LogEntry>, RaftError>) {
        Ok(select_entries(&self.entries, index, true))
    }

    fn compact(&mut self, index: u64, term: u64) -> (r: Result<(), RaftError>) {
        self.entries = select_entries(&self.entries, index, true);
        self.snapshot_index = index;
        self.snapshot_term = term;
        Ok(())
    }

    fn snapshot_metadata(&self) -> (r: (u64, u64)) {
        (self.snapshot_index, self.snapshot_term)
    }

    fn save_hard_state(&mut self, hs: &HardState) -> (r: Result<(), RaftError>) {
        self.hard_state = *hs;
        Ok(())
    }

    fn load_hard_state(&self) -> (r: Result<HardState, RaftError>) {
        Ok(self.hard_state)
    }
}

} // verus!
