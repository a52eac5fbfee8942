//! How far the deterministic scheduler had got before a restart: the log keeps
//! a record of every epoch that a shard has applied.

use vstd::prelude::*;

use crate::control::error::ControlError;
use crate::text;
use crate::wal::le;
use crate::wal::record::{self, RecordType, RecordView, WalRecord};

verus! {

/// Says that no epoch was applied yet. Epoch 0 is a real one.
pub const NOT_YET_APPLIED_EPOCH: u64 = u64::MAX;

/// That a shard has applied its part of an epoch.
#[derive(Debug, Clone, Copy, PartialEq, Eq, Structural)]
pub struct CalvinApplied {
    pub epoch: u64,
    pub position: u32,
}

/// The record's payload.
pub open spec fn applied_bytes(a: CalvinApplied) -> Seq<u8> {
    le::le64(a.epoch) + le::le32(a.position)
}

/// What a payload says; nothing if it is not of the right size.
pub open spec fn parsed_applied(s: Seq<u8>) -> Option<CalvinApplied> {
    if s.len() == 12 {
        Some(
            CalvinApplied {
                epoch: le::from64(s.subrange(0, 8)),
                position: le::from32(s.subrange(8, 12)),
            },
        )
    } else {
        None
    }
}

/// What was written is what is read.
pub proof fn law_applied_round_trip(a: CalvinApplied)
    ensures
        parsed_applied(applied_bytes(a)) == Some(a),
{
    broadcast use le::group_round_trips;

    let s = applied_bytes(a);
    assert(s.subrange(0, 8) =~= le::le64(a.epoch));
    assert(s.subrange(8, 12) =~= le::le32(a.position));
}

impl CalvinApplied {
    /// The record's payload.
    pub fn to_bytes(&self) -> (r: Vec<u8>)
        ensures
            r@ == applied_bytes(*self),
    {
        let mut v = le::u64_to_le(self.epoch);
        v.append(&mut le::u32_to_le(self.position));
        v
    }

    /// What a payload says; nothing if it is not of the right size.
    pub fn from_bytes(s: &[u8]) -> (r: Option<CalvinApplied>)
        ensures
            r == parsed_applied(s@),
    {
        if s.len() != 12 {
            return None;
        }
        Some(CalvinApplied { epoch: le::u64_at(s, 0), position: le::u32_at(s, 8) })
    }
}

/// Whether a record says that the shard has applied an epoch.
pub open spec fn is_applied_by(r: RecordView, vshard_id: u32) -> bool {
    r.logical_type() == record::raw_of(RecordType::CalvinApplied) && r.header.vshard_id
        == vshard_id
}

/// The epoch that a record names.
pub open spec fn epoch_of(r: RecordView) -> u64 {
    parsed_applied(r.payload)->0.epoch
}

/// Where the first record of the shard with a bad payload stands; the end if
/// there is none.
pub open spec fn first_malformed(records: Seq<WalRecord>, vshard_id: u32) -> int
    decreases records.len(),
{
    if records.len() == 0 {
        0
    } else if is_applied_by(records[0]@, vshard_id) && parsed_applied(records[0]@.payload) is None {
        0
    } else {
        1 + first_malformed(records.skip(1), vshard_id)
    }
}

/// Whether `epoch` is the latest that the shard has applied.
pub open spec fn is_last_applied(records: Seq<WalRecord>, vshard_id: u32, epoch: u64) -> bool {
    if exists|i: int| 0 <= i < records.len() && is_applied_by(#[trigger] records[i]@, vshard_id) {
        &&& exists|i: int|
            0 <= i < records.len() && is_applied_by(#[trigger] records[i]@, vshard_id) && epoch_of(
                records[i]@,
            ) == epoch
        &&& forall|i: int|
            0 <= i < records.len() && is_applied_by(#[trigger] records[i]@, vshard_id)
                ==> epoch_of(records[i]@) <= epoch
    } else {
        epoch == NOT_YET_APPLIED_EPOCH
    }
}

/// The latest epoch that a shard has applied, by the records of its log in any
/// order; the epochs of other shards do not count.
pub fn read_last_applied_epoch(records: &Vec<WalRecord>, vshard_id: u32) -> (r: Result<
    u64,
    ControlError,
>)
    ensures
        0 <= first_malformed(records@, vshard_id) <= records@.len(),
        first_malformed(records@, vshard_id) == records@.len() ==> (r matches Ok(e)
            && is_last_applied(records@, vshard_id, e)),
        first_malformed(records@, vshard_id) < records@.len() ==> (r matches Err(e)
            && e is Internal && e->detail@ == "malformed applied-epoch record at lsn "@
            + text::decimal(
            records@[first_malformed(records@, vshard_id)]@.header.lsn as int,
        )),
{
    let mut last: Option<u64> = None;
    let mut i: usize = 0;
    assert(records@.skip(0) =~= records@);
    while i < records.len()
        invariant
            i <= records@.len(),
            first_malformed(records@, vshard_id) == i + first_malformed(
                records@.skip(i as int),
                vshard_id,
            ),
            last is None ==> forall|k: int|
                0 <= k < i ==> !is_applied_by(#[trigger] records@[k]@, vshard_id),
            last matches Some(e) ==> exists|k: int|
                0 <= k < i && is_applied_by(#[trigger] records@[k]@, vshard_id) && epoch_of(
                    records@[k]@,
                ) == e,
            last matches Some(e) ==> forall|k: int|
                0 <= k < i && is_applied_by(#[trigger] records@[k]@, vshard_id) ==> epoch_of(
                    records@[k]@,
                ) <= e,
        decreases records@.len() - i,
    {
        proof {
            assert(records@.skip(i as int)[0] == records@[i as int]);
            assert(records@.skip(i as int).skip(1) =~= records@.skip(i + 1));
            lemma_first_malformed(records@.skip(i + 1), vshard_id);
        }
        let rec = &records[i];
        if rec.logical_record_type() == RecordType::CalvinApplied.raw() && rec.header.vshard_id
            == vshard_id {
            match CalvinApplied::from_bytes(rec.payload.as_slice()) {
                Some(a) => {
                    let newer = match last {
                        Some(e) => a.epoch > e,
                        None => true,
                    };
                    assert(is_applied_by(records@[i as int]@, vshard_id));
                    if newer {
                        last = Some(a.epoch);
                    }
                },
                None => {
                    return Err(
                        ControlError::Internal {
                            detail: text::numbered(
                                "malformed applied-epoch record at lsn ",
                                rec.header.lsn,
                            ),
                        },
                    );
                },
            }
        }
        i = i + 1;
    }
    match last {
        Some(e) => Ok(e),
        None => Ok(NOT_YET_APPLIED_EPOCH),
    }
}

/// The place of the first bad record is within the list or at its end.
proof fn lemma_first_malformed(records: Seq<WalRecord>, vshard_id: u32)
    ensures
        0 <= first_malformed(records, vshard_id) <= records.len(),
    decreases records.len(),
{
    if records.len() > 0 {
        lemma_first_malformed(records.skip(1), vshard_id);
    }
}

/// Records of another shard do not change how far a shard has got, and neither
/// does the order of the records.
pub proof fn law_last_applied_of_own_records(
    a: Seq<WalRecord>,
    b: Seq<WalRecord>,
    vshard_id: u32,
    epoch: u64,
)
    requires
        forall|i: int|
            0 <= i < a.len() && is_applied_by(#[trigger] a[i]@, vshard_id) ==> exists|j: int|
                0 <= j < b.len() && #[trigger] b[j]@ == a[i]@,
        forall|j: int|
            0 <= j < b.len() && is_applied_by(#[trigger] b[j]@, vshard_id) ==> exists|i: int|
                0 <= i < a.len() && #[trigger] a[i]@ == b[j]@,
    ensures
        is_last_applied(a, vshard_id, epoch) == is_last_applied(b, vshard_id, epoch),
{
}

} // verus!
