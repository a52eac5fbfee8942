//! What the apply loop does with each committed entry.
//!
//! Decoding a plan, running it and waiting for the answer happen outside; this
//! machine decides what comes next and what the proposer is told.

use vstd::prelude::*;

use crate::control::distributed_applier::ApplyBatch;
use crate::control::error::ControlError;
use crate::control::propose_tracker::ProposeResult;
use crate::control::replicated;
use crate::control::replicated::{ReplicatedEntry, ReplicatedWrite};
use crate::raft::message;
use crate::raft::message::EntryView;
use crate::time::{Duration, Instant};

verus! {

/// How long a write may take to be applied: 30 s, in nanoseconds.
pub const APPLY_TIMEOUT_NANOS: u64 = 30_000_000_000;

/// Where the loop stands with the entry at hand.
#[derive(Debug, Clone, Copy, PartialEq, Eq, Structural)]
pub enum ApplyStage {
    /// The entry has not been looked at.
    Fresh,
    /// Its plan is being decoded.
    Decoding,
    /// Its plan is being handed to the data plane.
    Dispatching,
    /// The data plane's answer is awaited.
    Awaiting,
}

/// What has happened outside.
pub enum ApplyEvent {
    /// Nothing yet: look at the entry.
    Begin,
    /// The entry holds a plan.
    Decoded,
    /// The entry is of another format.
    NotReplicated,
    /// The entry's plan could not be decoded.
    DecodeFailed { detail: String },
    /// The data plane took the plan.
    Dispatched,
    /// The data plane did not take the plan.
    DispatchFailed { detail: String },
    /// The data plane answered.
    Responded { failed: bool, error_code: Option<String>, payload: Vec<u8> },
    /// The data plane went away.
    Closed,
    /// The data plane did not answer in time.
    TimedOut,
}

/// What is to be done outside.
pub enum ApplyAction {
    /// Apply an array operation; that settles the proposer.
    ApplyArrayOp { index: u64, key: u64, array: String, op_bytes: Vec<u8> },
    /// Apply an array schema; that settles the proposer.
    ApplyArraySchema {
        index: u64,
        key: u64,
        array: String,
        snapshot_payload: Vec<u8>,
        schema_hlc_bytes: [u8; 18],
    },
    /// Decode the plan of the entry at `pos` in the batch.
    Decode { pos: usize },
    /// Hand the plan to the data plane, to be done by `deadline`.
    Dispatch { deadline: Instant },
    /// Wait for the data plane's answer.
    Await { timeout: Duration },
    /// Settle the proposer of the entry.
    Complete { index: u64, key: u64, result: ProposeResult },
    /// All entries are done.
    Done,
    /// What happened does not fit the stage; nothing is to be done.
    Ignore,
}

/// The idempotency key that an entry carries, 0 if it carries none.
pub open spec fn entry_key(e: EntryView) -> u64 {
    match replicated::parsed_entry(e.data) {
        Some(r) => r.idempotency_key,
        None => 0,
    }
}

/// The array operation that an entry carries, if it carries one.
pub open spec fn is_array_op(e: EntryView) -> bool {
    replicated::parsed_entry(e.data) matches Some(r) && r.write is ArrayOp
}

/// The array schema that an entry carries, if it carries one.
pub open spec fn is_array_schema(e: EntryView) -> bool {
    replicated::parsed_entry(e.data) matches Some(r) && r.write is ArraySchema
}

/// What the proposer is told at an event that settles an entry, in its stage.
pub open spec fn verdict(stage: ApplyStage, ev: ApplyEvent, told: ProposeResult) -> bool {
    match (stage, ev) {
        (ApplyStage::Decoding, ApplyEvent::NotReplicated) => told matches Ok(p) && p@
            == Seq::<u8>::empty(),
        (ApplyStage::Decoding, ApplyEvent::DecodeFailed { detail }) => told matches Err(e)
            && e is Internal && e->detail@ == "decode replicated entry: "@ + detail@,
        (ApplyStage::Dispatching, ApplyEvent::DispatchFailed { detail }) => told matches Err(e)
            && e is Internal && e->detail@ == "dispatch failed: "@ + detail@,
        (ApplyStage::Awaiting, ApplyEvent::Responded { failed, error_code, payload }) => if failed {
            told matches Err(e) && e is Internal && e->detail@ == match error_code {
                Some(c) => c@,
                None => "execution error"@,
            }
        } else {
            told == Ok::<Vec<u8>, ControlError>(payload)
        },
        (ApplyStage::Awaiting, ApplyEvent::Closed) => told matches Err(e) && e is Internal
            && e->detail@ == "response channel closed"@,
        (ApplyStage::Awaiting, ApplyEvent::TimedOut) => told matches Err(e) && e is Internal
            && e->detail@ == "deadline exceeded applying committed write"@,
        _ => false,
    }
}

/// Whether an event settles an entry in its stage.
pub open spec fn settles(stage: ApplyStage, ev: ApplyEvent) -> bool {
    match (stage, ev) {
        (ApplyStage::Decoding, ApplyEvent::NotReplicated) => true,
        (ApplyStage::Decoding, ApplyEvent::DecodeFailed { .. }) => true,
        (ApplyStage::Dispatching, ApplyEvent::DispatchFailed { .. }) => true,
        (ApplyStage::Awaiting, ApplyEvent::Responded { .. }) => true,
        (ApplyStage::Awaiting, ApplyEvent::Closed) => true,
        (ApplyStage::Awaiting, ApplyEvent::TimedOut) => true,
        _ => false,
    }
}

/// The loop over one batch.
pub struct ApplyRun {
    pub batch: ApplyBatch,
    pub pos: usize,
    pub stage: ApplyStage,
}

/// What the proposer is told at an event that settles an entry.
fn judge(stage: ApplyStage, ev: ApplyEvent) -> (r: Option<ProposeResult>)
    ensures
        r is Some <==> settles(stage, ev),
        r matches Some(told) ==> verdict(stage, ev, told),
{
    match (stage, ev) {
        (ApplyStage::Decoding, ApplyEvent::NotReplicated) => {
            let none: Vec<u8> = Vec::new();
            assert(none@ =~= Seq::<u8>::empty());
            Some(Ok(none))
        },
        (ApplyStage::Decoding, ApplyEvent::DecodeFailed { detail }) => {
            let mut s = "decode replicated entry: ".to_owned();
            s.append(detail.as_str());
            Some(Err(ControlError::Internal { detail: s }))
        },
        (ApplyStage::Dispatching, ApplyEvent::DispatchFailed { detail }) => {
            let mut s = "dispatch failed: ".to_owned();
            s.append(detail.as_str());
            Some(Err(ControlError::Internal { detail: s }))
        },
        (ApplyStage::Awaiting, ApplyEvent::Responded { failed, error_code, payload }) => {
            if failed {
                let detail = match error_code {
                    Some(c) => c,
                    None => "execution error".to_owned(),
                };
                Some(Err(ControlError::Internal { detail }))
            } else {
                Some(Ok(payload))
            }
        },
        (ApplyStage::Awaiting, ApplyEvent::Closed) => Some(
            Err(ControlError::Internal { detail: "response channel closed".to_owned() }),
        ),
        (ApplyStage::Awaiting, ApplyEvent::TimedOut) => Some(
            Err(
                ControlError::Internal {
                    detail: "deadline exceeded applying committed write".to_owned(),
                },
            ),
        ),
        _ => None,
    }
}

impl ApplyRun {
    /// The entry at hand.
    pub open spec fn entry(&self) -> EntryView {
        self.batch.entries@[self.pos as int]@
    }

    /// The loop has not run past the batch.
    pub open spec fn wf(&self) -> bool {
        self.pos <= self.batch.entries@.len()
    }

    /// Whether `to` is this loop at another entry or stage.
    pub open spec fn moved(&self, to: &ApplyRun, pos: int, stage: ApplyStage) -> bool {
        to.batch == self.batch && to.pos == pos && to.stage == stage
    }

    /// What comes of something that happened outside. An entry that is settled
    /// makes room for the next one.
    pub open spec fn advanced(
        from: ApplyRun,
        ev: ApplyEvent,
        now: Instant,
        to: ApplyRun,
        act: ApplyAction,
    ) -> bool {
        let e = from.entry();
        if from.pos == from.batch.entries@.len() {
            act is Done && to == from
        } else if from.stage == ApplyStage::Fresh && ev is Begin {
            if is_array_op(e) {
                let w = replicated::parsed_entry(e.data)->0.write;
                &&& act matches ApplyAction::ApplyArrayOp { index, key, array, op_bytes }
                &&& index == e.index && key == entry_key(e)
                &&& w == (replicated::WriteView::ArrayOp {
                    array: array@,
                    op_bytes: op_bytes@,
                    schema_hlc_bytes: w->ArrayOp_schema_hlc_bytes,
                })
                &&& from.moved(&to, from.pos + 1, ApplyStage::Fresh)
            } else if is_array_schema(e) {
                &&& act matches ApplyAction::ApplyArraySchema {
                    index,
                    key,
                    array,
                    snapshot_payload,
                    schema_hlc_bytes,
                }
                &&& index == e.index && key == entry_key(e)
                &&& replicated::parsed_entry(e.data)->0.write == (
                replicated::WriteView::ArraySchema {
                    array: array@,
                    snapshot_payload: snapshot_payload@,
                    schema_hlc_bytes: schema_hlc_bytes@,
                })
                &&& from.moved(&to, from.pos + 1, ApplyStage::Fresh)
            } else {
                &&& act matches ApplyAction::Decode { pos } && pos == from.pos
                &&& from.moved(&to, from.pos as int, ApplyStage::Decoding)
            }
        } else if from.stage == ApplyStage::Decoding && ev is Decoded {
            &&& act matches ApplyAction::Dispatch { deadline } && deadline.nanos
                == crate::time::saturating_sum(
                now.nanos as int,
                APPLY_TIMEOUT_NANOS as int,
            )
            &&& from.moved(&to, from.pos as int, ApplyStage::Dispatching)
        } else if from.stage == ApplyStage::Dispatching && ev is Dispatched {
            &&& act matches ApplyAction::Await { timeout } && timeout.nanos
                == APPLY_TIMEOUT_NANOS
            &&& from.moved(&to, from.pos as int, ApplyStage::Awaiting)
        } else if settles(from.stage, ev) {
            &&& act matches ApplyAction::Complete { index, key, result }
            &&& index == e.index && key == entry_key(e)
            &&& verdict(from.stage, ev, result)
            &&& from.moved(&to, from.pos + 1, ApplyStage::Fresh)
        } else {
            act is Ignore && to == from
        }
    }

    /// A loop at the start of a batch.
    pub fn new(batch: ApplyBatch) -> (r: ApplyRun)
        ensures
            r.wf(),
            r.batch == batch,
            r.pos == 0,
            r.stage == ApplyStage::Fresh,
    {
        ApplyRun { batch, pos: 0, stage: ApplyStage::Fresh }
    }

    /// What comes next after something happened outside. An entry that is
    /// settled makes room for the next one.
    pub fn advance(&mut self, ev: ApplyEvent, now: Instant) -> (r: ApplyAction)
        requires
            old(self).wf(),
        ensures
            final(self).wf(),
            Self::advanced(*old(self), ev, now, *final(self), r),
    {
        if self.pos >= self.batch.entries.len() {
            return ApplyAction::Done;
        }
        let pos: usize = self.pos;
        let index: u64 = self.batch.entries[pos].index;
        match (self.stage, &ev) {
            (ApplyStage::Fresh, ApplyEvent::Begin) => {
                match ReplicatedEntry::from_bytes(self.batch.entries[pos].data.as_slice()) {
                    Some(r) => {
                        let key: u64 = r.idempotency_key;
                        match r.write {
                            ReplicatedWrite::ArrayOp { array, op_bytes, schema_hlc_bytes } => {
                                self.pos = pos + 1;
                                return ApplyAction::ApplyArrayOp { index, key, array, op_bytes };
                            },
                            ReplicatedWrite::ArraySchema {
                                array,
                                snapshot_payload,
                                schema_hlc_bytes,
                            } => {
                                self.pos = pos + 1;
                                return ApplyAction::ApplyArraySchema {
                                    index,
                                    key,
                                    array,
                                    snapshot_payload,
                                    schema_hlc_bytes,
                                };
                            },
                            _ => {},
                        }
                    },
                    None => {},
                }
                self.stage = ApplyStage::Decoding;
                ApplyAction::Decode { pos }
            },
            (ApplyStage::Decoding, ApplyEvent::Decoded) => {
                self.stage = ApplyStage::Dispatching;
                ApplyAction::Dispatch {
                    deadline: now.after(Duration { nanos: APPLY_TIMEOUT_NANOS }),
                }
            },
            (ApplyStage::Dispatching, ApplyEvent::Dispatched) => {
                self.stage = ApplyStage::Awaiting;
                ApplyAction::Await { timeout: Duration { nanos: APPLY_TIMEOUT_NANOS } }
            },
            _ => {
                let key: u64 = match ReplicatedEntry::from_bytes(
                    self.batch.entries[pos].data.as_slice(),
                ) {
                    Some(r) => r.idempotency_key,
                    None => 0,
                };
                match judge(self.stage, ev) {
                    Some(result) => {
                        self.pos = pos + 1;
                        self.stage = ApplyStage::Fresh;
                        ApplyAction::Complete { index, key, result }
                    },
                    None => ApplyAction::Ignore,
                }
            },
        }
    }
}

} // verus!
