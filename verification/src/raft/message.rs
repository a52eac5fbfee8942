//! Messages that the members of a Raft group exchange, and log entries.

use vstd::prelude::*;

verus! {

/// One entry of a replicated log.
#[derive(Debug)]
pub struct LogEntry {
    pub term: u64,
    pub index: u64,
    pub data: Vec<u8>,
}

/// What a log entry says, without its memory layout.
#[verifier::ext_equal]
pub struct EntryView {
    pub term: u64,
    pub index: u64,
    pub data: Seq<u8>,
}

impl View for LogEntry {
    type V = EntryView;

    open spec fn view(&self) -> EntryView {
        EntryView { term: self.term, index: self.index, data: self.data@ }
    }
}

impl Clone for LogEntry {
    fn clone(&self) -> (r: LogEntry)
        ensures
            r@ == self@,
    {
        let r = LogEntry { term: self.term, index: self.index, data: self.data.clone() };
        assert(r.data@ =~= self.data@);
        r
    }
}

/// The views of a sequence of entries, in order.
pub open spec fn entries_view(s: Seq<LogEntry>) -> Seq<EntryView> {
    Seq::new(s.len(), |i: int| s[i]@)
}

/// Appending one entry appends one view.
pub proof fn lemma_entries_view_push(s: Seq<LogEntry>, e: LogEntry)
    ensures
        entries_view(s.push(e)) == entries_view(s).push(e@),
{
    assert(entries_view(s.push(e)) =~= entries_view(s).push(e@));
}

/// Copies `entries[from..to]`.
pub fn copy_entries(entries: &[LogEntry], from: usize, to: usize) -> (r: Vec<LogEntry>)
    requires
        from <= to <= entries@.len(),
    ensures
        entries_view(r@) == entries_view(entries@).subrange(from as int, to as int),
{
    let mut r: Vec<LogEntry> = Vec::new();
    let mut i: usize = from;
    assert(entries_view(r@) =~= entries_view(entries@).subrange(from as int, from as int));
    while i < to
        invariant
            from <= i <= to <= entries@.len(),
            entries_view(r@) == entries_view(entries@).subrange(from as int, i as int),
        decreases to - i,
    {
        let e = entries[i].clone();
        proof {
            lemma_entries_view_push(r@, e);
            assert(entries_view(entries@).subrange(from as int, i as int).push(e@)
                =~= entries_view(entries@).subrange(from as int, i + 1));
        }
        r.push(e);
        i = i + 1;
    }
    r
}

/// Sent by a leader to replicate entries, and as a heartbeat when it carries none.
#[derive(Debug)]
pub struct AppendEntriesRequest {
    pub term: u64,
    pub leader_id: u64,
    pub prev_log_index: u64,
    pub prev_log_term: u64,
    pub entries: Vec<LogEntry>,
    pub leader_commit: u64,
    pub group_id: u64,
}

/// What an append request says.
#[verifier::ext_equal]
pub struct AppendView {
    pub term: u64,
    pub leader_id: u64,
    pub prev_log_index: u64,
    pub prev_log_term: u64,
    pub entries: Seq<EntryView>,
    pub leader_commit: u64,
    pub group_id: u64,
}

impl View for AppendEntriesRequest {
    type V = AppendView;

    open spec fn view(&self) -> AppendView {
        AppendView {
            term: self.term,
            leader_id: self.leader_id,
            prev_log_index: self.prev_log_index,
            prev_log_term: self.prev_log_term,
            entries: entries_view(self.entries@),
            leader_commit: self.leader_commit,
            group_id: self.group_id,
        }
    }
}

/// The answer to an append request.
#[derive(Debug, Clone, Copy, PartialEq, Eq, Structural)]
pub struct AppendEntriesResponse {
    pub term: u64,
    pub success: bool,
    /// Index of the last entry in the responder's log.
    pub last_log_index: u64,
}

/// Sent by a candidate to gather votes.
#[derive(Debug, Clone, Copy, PartialEq, Eq, Structural)]
pub struct RequestVoteRequest {
    pub term: u64,
    pub candidate_id: u64,
    pub last_log_index: u64,
    pub last_log_term: u64,
    pub group_id: u64,
}

/// The answer to a vote request.
#[derive(Debug, Clone, Copy, PartialEq, Eq, Structural)]
pub struct RequestVoteResponse {
    pub term: u64,
    pub vote_granted: bool,
}

/// Sent by a leader to a peer whose next entry has been compacted away.
#[derive(Debug)]
pub struct InstallSnapshotRequest {
    pub term: u64,
    pub leader_id: u64,
    pub last_included_index: u64,
    pub last_included_term: u64,
    pub offset: u64,
    pub data: Vec<u8>,
    pub done: bool,
    pub group_id: u64,
}

/// The answer to a snapshot.
#[derive(Debug, Clone, Copy, PartialEq, Eq, Structural)]
pub struct InstallSnapshotResponse {
    pub term: u64,
}

} // verus!
