//! Errors of a Raft group.

use vstd::prelude::*;

use crate::text;

verus! {

/// Why a Raft operation was refused or failed.
#[derive(Debug)]
pub enum RaftError {
    /// Only the leader accepts proposals; the hint names the leader when it is known.
    NotLeader { leader_hint: Option<u64> },
    /// Persistent storage failed.
    Storage { detail: String },
    /// A requested index lies outside the entries that the log still holds.
    OutOfRange { index: u64 },
    /// The entry `found` does not continue a log that ends at `after`.
    IndexGap { after: u64, found: u64 },
}

impl RaftError {
    /// What the error says.
    pub open spec fn says(self) -> Seq<char> {
        match self {
            RaftError::NotLeader { leader_hint } => match leader_hint {
                Some(id) => "not leader (leader hint: Some("@ + text::decimal(id as int) + "))"@,
                None => "not leader (leader hint: None)"@,
            },
            RaftError::Storage { detail } => "storage: "@ + detail@,
            RaftError::OutOfRange { index } => "no entry at index "@ + text::decimal(index as int),
            RaftError::IndexGap { after, found } => "entry "@ + text::decimal(found as int)
                + " does not follow entry "@ + text::decimal(after as int),
        }
    }

    /// What the error says, as text.
    pub fn message(&self) -> (r: String)
        ensures
            r@ == self.says(),
    {
        match self {
            RaftError::NotLeader { leader_hint } => match leader_hint {
                Some(id) => {
                    let mut s = text::numbered("not leader (leader hint: Some(", *id);
                    s.append("))");
                    s
                },
                None => "not leader (leader hint: None)".to_owned(),
            },
            RaftError::Storage { detail } => {
                let mut s = "storage: ".to_owned();
                s.append(detail.as_str());
                s
            },
            RaftError::OutOfRange { index } => text::numbered("no entry at index ", *index),
            RaftError::IndexGap { after, found } => {
                let mut s = text::numbered("entry ", *found);
                s.append(" does not follow entry ");
                text::push_decimal(&mut s, *after);
                s
            },
        }
    }
}

} // verus!
