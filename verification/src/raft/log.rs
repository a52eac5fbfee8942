//! The replicated log of one node: a snapshot position and the entries behind it.

use vstd::prelude::*;

use crate::raft::error::RaftError;
use crate::raft::message;
use crate::raft::message::{EntryView, LogEntry};
use crate::raft::storage::{LogStorage, StoredView};

verus! {

/// A log as a value: everything up to `snapshot_index` has been folded into a
/// snapshot, `entries` follow it.
#[verifier::ext_equal]
pub struct LogView {
    pub snapshot_index: u64,
    pub snapshot_term: u64,
    pub entries: Seq<EntryView>,
}

impl LogView {
    /// A log without snapshot and entries.
    pub open spec fn fresh() -> LogView {
        LogView { snapshot_index: 0, snapshot_term: 0, entries: Seq::empty() }
    }

    /// Indexes run on from the snapshot without a gap and fit the index type.
    pub open spec fn wf(self) -> bool {
        &&& follows(self.snapshot_index, self.entries)
        &&& self.snapshot_index + self.entries.len() <= u64::MAX
    }

    /// Index of the last entry, or of the snapshot when there is none.
    pub open spec fn last_index(self) -> int {
        self.snapshot_index + self.entries.len()
    }

    /// Term of the last entry, or of the snapshot when there is none.
    pub open spec fn last_term(self) -> u64 {
        if self.entries.len() == 0 {
            self.snapshot_term
        } else {
            self.entries.last().term
        }
    }

    /// The entry at `i`, for an index behind the snapshot.
    pub open spec fn at(self, i: int) -> EntryView {
        self.entries[i - self.snapshot_index - 1]
    }

    /// Term of the entry at `i`: known for 0, for the snapshot and for what follows it.
    pub open spec fn term_at(self, i: int) -> Option<u64> {
        if i == 0 {
            Some(0)
        } else if i == self.snapshot_index {
            Some(self.snapshot_term)
        } else if self.snapshot_index < i <= self.last_index() {
            Some(self.at(i).term)
        } else {
            None
        }
    }

    /// Whether `e` is already covered: by the snapshot, or by an entry of the same term.
    pub open spec fn holds(self, e: EntryView) -> bool {
        e.index <= self.snapshot_index || (e.index <= self.last_index() && self.at(
            e.index as int,
        ).term == e.term)
    }

    /// How many entries at the start of `es` are already covered.
    pub open spec fn covered(self, es: Seq<EntryView>) -> int
        decreases es.len(),
    {
        if es.len() == 0 || !self.holds(es[0]) {
            0
        } else {
            1 + self.covered(es.skip(1))
        }
    }

    /// The log cut so that `from` is the next free index.
    pub open spec fn cut(self, from: u64) -> LogView {
        LogView { entries: self.entries.take(from - self.snapshot_index - 1), ..self }
    }

    /// The log after taking over `es`: the first entry that is not covered
    /// replaces everything from its index on.
    pub open spec fn merged(self, es: Seq<EntryView>) -> LogView {
        let k = self.covered(es);
        if k >= es.len() {
            self
        } else {
            LogView { entries: self.cut(es[k].index).entries + es.skip(k), ..self }
        }
    }

    /// Whether taking over `es` replaces entries that the log holds.
    pub open spec fn conflicts(self, es: Seq<EntryView>) -> bool {
        let k = self.covered(es);
        k < es.len() && es[k].index <= self.last_index()
    }

    /// The log with one more entry.
    pub open spec fn appended(self, e: EntryView) -> LogView {
        LogView { entries: self.entries.push(e), ..self }
    }

    /// The log after its snapshot moves to (`index`, `term`): what follows an
    /// entry with that index and term stays, any other content goes.
    pub open spec fn snapshotted(self, index: u64, term: u64) -> LogView {
        if index <= self.snapshot_index {
            self
        } else {
            LogView {
                snapshot_index: index,
                snapshot_term: term,
                entries: if self.term_at(index as int) == Some(term) {
                    self.entries.skip(index - self.snapshot_index)
                } else {
                    Seq::empty()
                },
            }
        }
    }

    /// What storage holds when it mirrors the log.
    pub open spec fn mirrored_by(self, st: StoredView) -> bool {
        &&& st.snapshot_index == self.snapshot_index
        &&& st.snapshot_term == self.snapshot_term
        &&& st.entries == self.entries
    }
}

/// Whether `es` are numbered consecutively from the index behind `prev`.
pub open spec fn follows(prev: u64, es: Seq<EntryView>) -> bool {
    forall|k: int| 0 <= k < es.len() ==> (#[trigger] es[k]).index == prev + 1 + k
}

/// Whether `e` reports the first entry of `es` that does not follow its predecessor.
pub open spec fn is_gap_error(e: RaftError, prev: u64, es: Seq<EntryView>) -> bool {
    exists|k: int|
        0 <= k < es.len() && (#[trigger] es[k]).index != prev + 1 + k && follows(prev, es.take(k))
            && e == (RaftError::IndexGap { after: (prev + k) as u64, found: es[k].index })
}

/// `covered` counts a prefix whose entries the log holds and stops at one it does not.
pub proof fn lemma_covered(l: LogView, es: Seq<EntryView>, k: int)
    requires
        0 <= k <= es.len(),
        forall|j: int| 0 <= j < k ==> l.holds(#[trigger] es[j]),
        k < es.len() ==> !l.holds(es[k]),
    ensures
        l.covered(es) == k,
    decreases k,
{
    if k > 0 {
        assert(l.holds(es[0]));
        let t = es.skip(1);
        assert forall|j: int| 0 <= j < k - 1 implies l.holds(#[trigger] t[j]) by {
            assert(t[j] == es[j + 1]);
        }
        lemma_covered(l, t, k - 1);
    }
}

/// The converse: every counted entry is held, the next one is not.
pub proof fn lemma_covered_range(l: LogView, es: Seq<EntryView>)
    ensures
        0 <= l.covered(es) <= es.len(),
        forall|j: int| 0 <= j < l.covered(es) ==> l.holds(#[trigger] es[j]),
        l.covered(es) < es.len() ==> !l.holds(es[l.covered(es)]),
    decreases es.len(),
{
    if es.len() > 0 && l.holds(es[0]) {
        let t = es.skip(1);
        lemma_covered_range(l, t);
        assert forall|j: int| 0 <= j < l.covered(es) implies l.holds(#[trigger] es[j]) by {
            if j > 0 {
                assert(es[j] == t[j - 1]);
            }
        }
        if l.covered(es) < es.len() {
            assert(es[l.covered(es)] == t[l.covered(t)]);
        }
    }
}

/// Taking over consecutive entries that start inside the log keeps it well formed.
pub proof fn lemma_merged_wf(l: LogView, prev: u64, es: Seq<EntryView>)
    requires
        l.wf(),
        follows(prev, es),
        prev <= l.last_index(),
    ensures
        l.merged(es).wf(),
        l.covered(es) < es.len() ==> {
            let i = es[l.covered(es)].index;
            l.snapshot_index < i <= l.last_index() + 1
        },
{
    lemma_covered_range(l, es);
    let k = l.covered(es);
    if k < es.len() {
        let i = es[k].index;
        assert(i == prev + 1 + k);
        if k > 0 {
            assert(l.holds(es[k - 1]));
            assert(es[k - 1].index == prev + k);
        }
        let m = l.merged(es);
        let keep = i - l.snapshot_index - 1;
        assert forall|j: int| 0 <= j < m.entries.len() implies (#[trigger] m.entries[j]).index
            == m.snapshot_index + 1 + j by {
            if j < keep {
                assert(m.entries[j] == l.entries[j]);
            } else {
                assert(m.entries[j] == es[k + (j - keep)]);
            }
        }
        assert(es[es.len() - 1].index == prev + es.len());
        assert(m.entries.len() == keep + (es.len() - k));
    }
}

/// In a consecutive run, dropping indexes from `from` on keeps a prefix.
pub proof fn lemma_filter_below(snap: u64, es: Seq<EntryView>, from: u64)
    requires
        follows(snap, es),
        snap < from <= snap + es.len() + 1,
    ensures
        es.filter(|e: EntryView| e.index < from) == es.take(from - snap - 1),
    decreases es.len(),
{
    reveal(Seq::filter);
    let keep = |e: EntryView| e.index < from;
    if es.len() == 0 {
        assert(es.filter(keep) =~= es.take(0));
    } else {
        let init = es.drop_last();
        let n = es.len() - 1;
        assert(es.last().index == snap + 1 + n);
        assert forall|k: int| 0 <= k < init.len() implies (#[trigger] init[k]).index == snap + 1
            + k by {
            assert(init[k] == es[k]);
        }
        if from <= snap + init.len() + 1 {
            lemma_filter_below(snap, init, from);
            assert(es.filter(keep) == init.filter(keep));
            assert(init.take(from - snap - 1) =~= es.take(from - snap - 1));
        } else {
            lemma_filter_below(snap, init, (snap + init.len() + 1) as u64);
            lemma_filter_all(init, keep);
            assert(init.filter(keep) == init);
            assert(init.push(es.last()) =~= es);
            assert(es.take(from - snap - 1) =~= es);
        }
    }
}

/// Filtering keeps everything when every element passes.
pub proof fn lemma_filter_all<T>(s: Seq<T>, keep: spec_fn(T) -> bool)
    requires
        forall|i: int| 0 <= i < s.len() ==> keep(#[trigger] s[i]),
    ensures
        s.filter(keep) == s,
    decreases s.len(),
{
    reveal(Seq::filter);
    if s.len() > 0 {
        let init = s.drop_last();
        assert forall|i: int| 0 <= i < init.len() implies keep(#[trigger] init[i]) by {
            assert(init[i] == s[i]);
        }
        lemma_filter_all(init, keep);
        assert(keep(s[s.len() - 1]));
        assert(init.push(s.last()) =~= s);
    } else {
        assert(s.filter(keep) =~= s);
    }
}

/// In a consecutive run, keeping the indexes above `index` drops a prefix.
pub proof fn lemma_filter_above(snap: u64, es: Seq<EntryView>, index: u64)
    requires
        follows(snap, es),
        snap <= index <= snap + es.len(),
    ensures
        es.filter(|e: EntryView| e.index > index) == es.skip(index - snap),
    decreases es.len(),
{
    reveal(Seq::filter);
    let keep = |e: EntryView| e.index > index;
    if es.len() == 0 {
        assert(es.filter(keep) =~= es.skip(0));
    } else {
        let init = es.drop_last();
        assert(es.last().index == snap + es.len());
        assert forall|k: int| 0 <= k < init.len() implies (#[trigger] init[k]).index == snap + 1
            + k by {
            assert(init[k] == es[k]);
        }
        if index <= snap + init.len() {
            lemma_filter_above(snap, init, index);
            assert(keep(es.last()));
            assert(init.skip(index - snap).push(es.last()) =~= es.skip(index - snap));
        } else {
            lemma_filter_above(snap, init, (snap + init.len()) as u64);
            assert forall|i: int| 0 <= i < init.len() implies !keep(#[trigger] init[i]) by {
                assert(init[i] == es[i]);
            }
            lemma_filter_none(init, keep);
            assert(es.skip(index - snap) =~= Seq::empty());
        }
    }
}

/// Filtering leaves nothing when no element passes.
pub proof fn lemma_filter_none<T>(s: Seq<T>, keep: spec_fn(T) -> bool)
    requires
        forall|i: int| 0 <= i < s.len() ==> !keep(#[trigger] s[i]),
    ensures
        s.filter(keep) == Seq::<T>::empty(),
    decreases s.len(),
{
    reveal(Seq::filter);
    if s.len() > 0 {
        let init = s.drop_last();
        assert forall|i: int| 0 <= i < init.len() implies !keep(#[trigger] init[i]) by {
            assert(init[i] == s[i]);
        }
        lemma_filter_none(init, keep);
        assert(!keep(s[s.len() - 1]));
    } else {
        assert(s.filter(keep) =~= Seq::<T>::empty());
    }
}

/// The log of one node, written through to its storage.
pub struct RaftLog<S: LogStorage> {
    pub storage: S,
    pub entries: Vec<LogEntry>,
    pub snapshot_index: u64,
    pub snapshot_term: u64,
}

impl<S: LogStorage> View for RaftLog<S> {
    type V = LogView;

    open spec fn view(&self) -> LogView {
        LogView {
            snapshot_index: self.snapshot_index,
            snapshot_term: self.snapshot_term,
            entries: message::entries_view(self.entries@),
        }
    }
}

impl<S: LogStorage> RaftLog<S> {
    /// What the storage behind the log holds.
    pub open spec fn stored(&self) -> StoredView {
        self.storage.stored()
    }

    /// An empty log over `storage`, whose content `restore` reads.
    pub fn new(storage: S) -> (r: RaftLog<S>)
        ensures
            r@ == LogView::fresh(),
            r@.wf(),
            r.storage == storage,
    {
        let r = RaftLog { storage, entries: Vec::new(), snapshot_index: 0, snapshot_term: 0 };
        assert(r@ =~= LogView::fresh());
        r
    }

    /// Replaces the log by what storage holds. Stored entries that are not
    /// numbered consecutively from the snapshot on are refused.
    pub fn restore(&mut self) -> (r: Result<(), RaftError>)
        requires
            old(self)@.wf(),
        ensures
            final(self).storage == old(self).storage,
            final(self)@.wf(),
            r is Err ==> final(self)@ == old(self)@,
            r is Ok ==> {
                let st = old(self).stored();
                &&& final(self)@.snapshot_index == st.snapshot_index
                &&& final(self)@.snapshot_term == st.snapshot_term
                &&& final(self)@.entries == st.entries_after(st.snapshot_index)
            },
            old(self).storage.reliable() ==> {
                let st = old(self).stored();
                let es = st.entries_after(st.snapshot_index);
                &&& r is Ok <==> follows(st.snapshot_index, es)
                &&& r matches Err(e) ==> is_gap_error(e, st.snapshot_index, es)
            },
    {
        let (index, term) = self.storage.snapshot_metadata();
        let entries = match self.storage.load_entries_after(index) {
            Ok(es) => es,
            Err(e) => return Err(e),
        };
        let ghost es = message::entries_view(entries@);
        match first_gap(index, entries.as_slice()) {
            Some(e) => {
                return Err(e);
            },
            None => {},
        }
        self.snapshot_index = index;
        self.snapshot_term = term;
        proof {
            if es.len() > 0 {
                assert(es[es.len() - 1].index == index + es.len());
            }
        }
        self.entries = entries;
        Ok(())
    }

    /// The storage behind the log.
    pub fn storage(&self) -> (r: &S)
        ensures
            *r == self.storage,
    {
        &self.storage
    }

    /// The storage behind the log, for writing.
    pub fn storage_mut(&mut self) -> (r: &mut S)
        ensures
            *r == old(self).storage,
            *final(r) == final(self).storage,
            final(self).entries == old(self).entries,
            final(self).snapshot_index == old(self).snapshot_index,
            final(self).snapshot_term == old(self).snapshot_term,
    {
        &mut self.storage
    }

    /// Index of the last entry that the snapshot covers.
    pub fn snapshot_index(&self) -> (r: u64)
        ensures
            r == self@.snapshot_index,
    {
        self.snapshot_index
    }

    /// Term of the last entry that the snapshot covers.
    pub fn snapshot_term(&self) -> (r: u64)
        ensures
            r == self@.snapshot_term,
    {
        self.snapshot_term
    }

    /// Index of the last entry, or of the snapshot.
    pub fn last_index(&self) -> (r: u64)
        requires
            self@.wf(),
        ensures
            r == self@.last_index(),
    {
        self.snapshot_index + self.entries.len() as u64
    }

    /// Term of the last entry, or of the snapshot.
    pub fn last_term(&self) -> (r: u64)
        ensures
            r == self@.last_term(),
    {
        let n: usize = self.entries.len();
        if n == 0 {
            self.snapshot_term
        } else {
            proof {
                assert(self@.entries.last() == self.entries@[n - 1]@);
            }
            self.entries[n - 1].term
        }
    }

    /// Term of the entry at `index`, where it is known.
    pub fn term_at(&self, index: u64) -> (r: Option<u64>)
        requires
            self@.wf(),
        ensures
            r == self@.term_at(index as int),
    {
        if index == 0 {
            Some(0)
        } else if index == self.snapshot_index {
            Some(self.snapshot_term)
        } else if index > self.snapshot_index && index - self.snapshot_index
            <= self.entries.len() as u64 {
            let k: usize = (index - self.snapshot_index - 1) as usize;
            assert(self@.at(index as int) == self.entries@[k as int]@);
            Some(self.entries[k].term)
        } else {
            None
        }
    }

    /// The entries from `lo` to `hi`, both included.
    pub fn entries_range(&self, lo: u64, hi: u64) -> (r: Result<&[LogEntry], RaftError>)
        requires
            self@.wf(),
        ensures
            r is Ok <==> self@.snapshot_index < lo <= hi <= self@.last_index(),
            r matches Ok(es) ==> message::entries_view(es@) == self@.entries.subrange(
                lo - self@.snapshot_index - 1,
                hi - self@.snapshot_index,
            ),
            r matches Err(e) ==> e == (RaftError::OutOfRange {
                index: if lo <= self@.snapshot_index {
                    lo
                } else {
                    hi
                },
            }),
    {
        if lo <= self.snapshot_index {
            return Err(RaftError::OutOfRange { index: lo });
        }
        if hi < lo || hi > self.last_index() {
            return Err(RaftError::OutOfRange { index: hi });
        }
        let n: usize = self.entries.len();
        assert(hi - self.snapshot_index <= n);
        let from: usize = (lo - self.snapshot_index - 1) as usize;
        let to: usize = (hi - self.snapshot_index) as usize;
        let es = vstd::slice::slice_subrange(self.entries.as_slice(), from, to);
        assert(message::entries_view(es@) =~= self@.entries.subrange(from as int, to as int));
        Ok(es)
    }

    /// Appends one entry, which must be numbered next.
    pub fn append(&mut self, entry: LogEntry) -> (r: Result<(), RaftError>)
        requires
            old(self)@.wf(),
        ensures
            final(self)@.wf(),
            final(self).storage.reliable() == old(self).storage.reliable(),
            entry@.index != old(self)@.last_index() + 1 ==> r == Err::<(), RaftError>(
                (RaftError::IndexGap {
                    after: old(self)@.last_index() as u64,
                    found: entry@.index,
                }),
            ),
            r is Ok ==> {
                &&& final(self)@ == old(self)@.appended(entry@)
                &&& final(self).stored() == old(self).stored().appended(seq![entry@])
            },
            r is Err ==> final(self)@ == old(self)@ && final(self).stored() == old(self).stored(),
            entry@.index == old(self)@.last_index() + 1 && old(self).storage.reliable() ==> r is Ok,
    {
        let last: u64 = self.last_index();
        if entry.index == 0 || entry.index - 1 != last {
            return Err(RaftError::IndexGap { after: last, found: entry.index });
        }
        let ghost e = entry@;
        let mut one: Vec<LogEntry> = Vec::new();
        one.push(entry);
        assert(message::entries_view(one@) =~= seq![e]);
        match self.storage.append(one.as_slice()) {
            Ok(()) => {},
            Err(err) => return Err(err),
        }
        proof {
            assert(message::entries_view(self.entries@ + one@) =~= message::entries_view(
                self.entries@,
            ).push(e));
        }
        self.entries.append(&mut one);
        Ok(())
    }

    /// Takes over entries that follow `prev`. Entries that the log already
    /// covers are skipped; the first that it does not cover replaces
    /// everything from its index on.
    pub fn append_entries(&mut self, prev: u64, entries: &[LogEntry]) -> (r: Result<(), RaftError>)
        requires
            old(self)@.wf(),
        ensures
            final(self)@.wf(),
            final(self).storage.reliable() == old(self).storage.reliable(),
            r is Ok ==> {
                let es = message::entries_view(entries@);
                &&& follows(prev, es)
                &&& prev <= old(self)@.last_index()
                &&& final(self)@ == old(self)@.merged(es)
                &&& final(self).stored() == stored_merge(old(self)@, old(self).stored(), es)
            },
            r matches Err(e) ==> {
                let es = message::entries_view(entries@);
                if !follows(prev, es) {
                    is_gap_error(e, prev, es) && final(self)@ == old(self)@ && final(self).stored()
                        == old(self).stored()
                } else if prev > old(self)@.last_index() {
                    e == (RaftError::OutOfRange { index: prev }) && final(self)@ == old(self)@
                        && final(self).stored() == old(self).stored()
                } else {
                    &&& !old(self).storage.reliable()
                    &&& (final(self)@ == old(self)@ && final(self).stored() == old(self).stored())
                        || is_cut_of(
                        old(self)@,
                        old(self).stored(),
                        es,
                        final(self)@,
                        final(self).stored(),
                    )
                }
            },
    {
        let ghost es = message::entries_view(entries@);
        let ghost l = self@;
        match first_gap(prev, entries) {
            Some(e) => return Err(e),
            None => {},
        }
        let last: u64 = self.last_index();
        if prev > last {
            return Err(RaftError::OutOfRange { index: prev });
        }
        let k: usize = self.count_covered(entries);
        proof {
            lemma_merged_wf(l, prev, es);
        }
        if k == entries.len() {
            return Ok(());
        }
        let from: u64 = entries[k].index;
        assert(from == es[k as int].index);
        if from <= last {
            match self.storage.truncate(from) {
                Ok(()) => {},
                Err(e) => return Err(e),
            }
            let keep: usize = (from - self.snapshot_index - 1) as usize;
            self.entries.truncate(keep);
            assert(self@.entries =~= l.cut(from).entries);
        } else {
            assert(l.cut(from).entries =~= l.entries);
        }
        assert(self@ == l.cut(from));
        assert(self@.wf());
        let mut rest = message::copy_entries(entries, k, entries.len());
        assert(message::entries_view(rest@) =~= es.skip(k as int));
        match self.storage.append(rest.as_slice()) {
            Ok(()) => {},
            Err(e) => return Err(e),
        }
        proof {
            assert(rest@.len() == es.skip(k as int).len()) by {
                assert(message::entries_view(rest@).len() == es.skip(k as int).len());
            }
            assert forall|i: int| 0 <= i < rest@.len() implies rest@[i]@ == es.skip(k as int)[i] by {
                assert(message::entries_view(rest@)[i] == rest@[i]@);
            }
            assert(message::entries_view(self.entries@ + rest@) =~= l.cut(from).entries + es.skip(
                k as int,
            ));
        }
        self.entries.append(&mut rest);
        Ok(())
    }

    /// How many entries at the start of `entries` the log already covers.
    fn count_covered(&self, entries: &[LogEntry]) -> (k: usize)
        requires
            self@.wf(),
        ensures
            k == self@.covered(message::entries_view(entries@)),
            k <= entries@.len(),
    {
        let ghost es = message::entries_view(entries@);
        let mut k: usize = 0;
        let mut more: bool = true;
        while more && k < entries.len()
            invariant
                k <= entries@.len(),
                es == message::entries_view(entries@),
                self@.wf(),
                forall|j: int| 0 <= j < k ==> self@.holds(#[trigger] es[j]),
                !more ==> k < entries@.len() && !self@.holds(es[k as int]),
            decreases entries@.len() - k, more as int,
        {
            let i: u64 = entries[k].index;
            let t: u64 = entries[k].term;
            assert(es[k as int] == entries@[k as int]@);
            let held: bool = if i <= self.snapshot_index {
                true
            } else {
                match self.term_at(i) {
                    Some(s) => s == t,
                    None => false,
                }
            };
            if held {
                k = k + 1;
            } else {
                more = false;
            }
        }
        proof {
            lemma_covered(self@, es, k as int);
        }
        k
    }

    /// Moves the snapshot to `index`. Storage is told; its answer does not
    /// hold back the log in memory, which has been superseded either way.
    pub fn apply_snapshot(&mut self, index: u64, term: u64)
        requires
            old(self)@.wf(),
        ensures
            final(self)@.wf(),
            final(self)@ == old(self)@.snapshotted(index, term),
            final(self).storage.reliable() == old(self).storage.reliable(),
            old(self).storage.reliable() ==> final(self).stored() == stored_snapshot(
                old(self)@,
                old(self).stored(),
                index,
                term,
            ),
            final(self).stored().hard_state == old(self).stored().hard_state,
    {
        if index <= self.snapshot_index {
            return;
        }
        let ghost l = self@;
        let kept: bool = match self.term_at(index) {
            Some(t) => t == term,
            None => false,
        };
        if kept {
            let _ = self.storage.compact(index, term);
            let drop: usize = (index - self.snapshot_index) as usize;
            let rest = message::copy_entries(self.entries.as_slice(), drop, self.entries.len());
            assert(l.entries.subrange(drop as int, l.entries.len() as int) =~= l.entries.skip(
                drop as int,
            ));
            self.entries = rest;
        } else {
            let _ = self.storage.truncate(0);
            let _ = self.storage.compact(index, term);
            self.entries = Vec::new();
            assert(self@.entries =~= Seq::empty());
        }
        self.snapshot_index = index;
        self.snapshot_term = term;
    }
}

/// What storage holds after the log took over `es`.
pub open spec fn stored_merge(l: LogView, st: StoredView, es: Seq<EntryView>) -> StoredView {
    let k = l.covered(es);
    if k >= es.len() {
        st
    } else if l.conflicts(es) {
        st.truncated(es[k].index).appended(es.skip(k))
    } else {
        st.appended(es.skip(k))
    }
}

/// Whether (`to`, `to_st`) is the log after replaced entries were dropped and
/// before the new ones were written.
pub open spec fn is_cut_of(
    l: LogView,
    st: StoredView,
    es: Seq<EntryView>,
    to: LogView,
    to_st: StoredView,
) -> bool {
    let from = es[l.covered(es)].index;
    &&& l.conflicts(es)
    &&& to == l.cut(from)
    &&& to_st == st.truncated(from)
}

/// What storage holds after the snapshot moved.
pub open spec fn stored_snapshot(
    l: LogView,
    st: StoredView,
    index: u64,
    term: u64,
) -> StoredView {
    if index <= l.snapshot_index {
        st
    } else if l.term_at(index as int) == Some(term) {
        st.compacted(index, term)
    } else {
        st.truncated(0).compacted(index, term)
    }
}

/// The error for the first entry that does not follow its predecessor, if there is one.
fn first_gap(prev: u64, entries: &[LogEntry]) -> (r: Option<RaftError>)
    ensures
        r is None <==> follows(prev, message::entries_view(entries@)),
        r matches Some(e) ==> is_gap_error(e, prev, message::entries_view(entries@)),
{
    let ghost es = message::entries_view(entries@);
    let mut k: usize = 0;
    let mut after: u64 = prev;
    while k < entries.len()
        invariant
            k <= entries@.len(),
            es == message::entries_view(entries@),
            after == prev + k,
            forall|j: int| 0 <= j < k ==> (#[trigger] es[j]).index == prev + 1 + j,
        decreases entries@.len() - k,
    {
        let found: u64 = entries[k].index;
        assert(es[k as int] == entries@[k as int]@);
        if found == 0 || found - 1 != after {
            assert(follows(prev, es.take(k as int)));
            return Some(RaftError::IndexGap { after, found });
        }
        after = found;
        k = k + 1;
    }
    None
}

} // verus!
