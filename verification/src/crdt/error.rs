//! Errors of the document engine.

use vstd::prelude::*;
use vstd::std_specs::convert::FromSpecImpl;

use crate::text;

verus! {

/// Why an operation on a document failed.
#[derive(Debug)]
pub enum CrdtError {
    /// A constraint was violated during validation.
    ConstraintViolation { constraint: String, collection: String, detail: String },
    /// The delta could not be applied to the current state.
    DeltaApplyFailed(String),
    /// The document library refused.
    Loro(String),
    /// The dead-letter queue is full.
    DlqFull { capacity: usize, pending: usize },
    /// The collection does not exist.
    UnknownCollection(String),
    /// The agent must authenticate again before it syncs.
    AuthExpired { user_id: u64, expired_at: u64 },
    /// A delta's signature does not hold.
    InvalidSignature { user_id: u64, detail: String },
    /// The number of a delta is not above the last one taken from that device.
    ReplayDetected { user_id: u64, device_id: u64, seq_no: u64, last_seen: u64 },
}

impl CrdtError {
    /// What is said of the error.
    pub open spec fn said(&self) -> Seq<char> {
        match *self {
            CrdtError::ConstraintViolation { constraint, collection, detail } =>
                "constraint violation: "@ + constraint@ + " on collection `"@ + collection@
                + "`: "@ + detail@,
            CrdtError::DeltaApplyFailed(s) => "delta application failed: "@ + s@,
            CrdtError::Loro(s) => "loro error: "@ + s@,
            CrdtError::DlqFull { capacity, pending } => "dead-letter queue full: capacity "@
                + text::decimal(capacity as int) + ", pending "@ + text::decimal(pending as int),
            CrdtError::UnknownCollection(s) => "unknown collection: "@ + s@,
            CrdtError::AuthExpired { user_id, expired_at } => "auth expired: user "@
                + text::decimal(user_id as int) + " must re-authenticate (expired at "@
                + text::decimal(expired_at as int) + ")"@,
            CrdtError::InvalidSignature { user_id, detail } =>
                "delta signature invalid for user "@ + text::decimal(user_id as int) + ": "@
                + detail@,
            CrdtError::ReplayDetected { user_id, device_id, seq_no, last_seen } =>
                "replay detected for user "@ + text::decimal(user_id as int) + " device "@
                + text::decimal(device_id as int) + ": seq_no "@ + text::decimal(seq_no as int)
                + " <= last_seen "@ + text::decimal(last_seen as int),
        }
    }

    /// What is said of the error.
    pub fn message(&self) -> (r: String)
        ensures
            r@ == self.said(),
    {
        match self {
            CrdtError::ConstraintViolation { constraint, collection, detail } => {
                let mut s = "constraint violation: ".to_owned();
                s.append(constraint.as_str());
                s.append(" on collection `");
                s.append(collection.as_str());
                s.append("`: ");
                s.append(detail.as_str());
                s
            },
            CrdtError::DeltaApplyFailed(e) => {
                let mut s = "delta application failed: ".to_owned();
                s.append(e.as_str());
                s
            },
            CrdtError::Loro(e) => {
                let mut s = "loro error: ".to_owned();
                s.append(e.as_str());
                s
            },
            CrdtError::DlqFull { capacity, pending } => {
                let mut s = "dead-letter queue full: capacity ".to_owned();
                text::push_decimal(&mut s, *capacity as u64);
                s.append(", pending ");
                text::push_decimal(&mut s, *pending as u64);
                s
            },
            CrdtError::UnknownCollection(e) => {
                let mut s = "unknown collection: ".to_owned();
                s.append(e.as_str());
                s
            },
            CrdtError::AuthExpired { user_id, expired_at } => {
                let mut s = "auth expired: user ".to_owned();
                text::push_decimal(&mut s, *user_id);
                s.append(" must re-authenticate (expired at ");
                text::push_decimal(&mut s, *expired_at);
                s.append(")");
                s
            },
            CrdtError::InvalidSignature { user_id, detail } => {
                let mut s = "delta signature invalid for user ".to_owned();
                text::push_decimal(&mut s, *user_id);
                s.append(": ");
                s.append(detail.as_str());
                s
            },
            CrdtError::ReplayDetected { user_id, device_id, seq_no, last_seen } => {
                let mut s = "replay detected for user ".to_owned();
                text::push_decimal(&mut s, *user_id);
                s.append(" device ");
                text::push_decimal(&mut s, *device_id);
                s.append(": seq_no ");
                text::push_decimal(&mut s, *seq_no);
                s.append(" <= last_seen ");
                text::push_decimal(&mut s, *last_seen);
                s
            },
        }
    }
}

/// An error of the document library.
#[verifier::external_type_specification]
#[verifier::external_body]
pub struct ExLoroError(loro::LoroError);

/// What the document library says of one of its errors.
pub uninterp spec fn loro_error_text(e: loro::LoroError) -> String;

/// Calls `ToString::to_string` of `loro::LoroError`. The text depends on the
/// error alone.
#[verifier::external_body]
pub(crate) fn error_text(e: &loro::LoroError) -> (r: String)
    ensures
        r == loro_error_text(*e),
{
    e.to_string()
}

impl From<loro::LoroError> for CrdtError {
    fn from(e: loro::LoroError) -> (r: CrdtError) {
        CrdtError::Loro(error_text(&e))
    }
}

impl FromSpecImpl<loro::LoroError> for CrdtError {
    open spec fn obeys_from_spec() -> bool {
        true
    }

    open spec fn from_spec(e: loro::LoroError) -> CrdtError {
        CrdtError::Loro(loro_error_text(e))
    }
}

} // verus!
