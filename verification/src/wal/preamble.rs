//! The preamble of an encrypted segment.

use vstd::prelude::*;

use crate::wal::le;

verus! {

/// First four bytes of a preamble: "WALP" read as a little-endian number.
pub const PREAMBLE_MAGIC: u32 = 0x504C_4157;

/// Version of the preamble's layout.
pub const PREAMBLE_VERSION: u16 = 1;

/// Number of the cipher: AES-256-GCM.
pub const CIPHER_AES_256_GCM: u16 = 1;

/// Bytes in a preamble.
pub const PREAMBLE_SIZE: usize = 16;

/// Binds the ciphertext of a segment to the segment and to its key's epoch.
#[derive(Debug, Clone, Copy, PartialEq, Eq, Structural)]
pub struct SegmentPreamble {
    pub epoch: u32,
}

/// A preamble as stored.
pub open spec fn preamble_bytes(p: SegmentPreamble) -> Seq<u8> {
    le::le32(PREAMBLE_MAGIC) + le::le16(
        PREAMBLE_VERSION,
    ) + le::le16(CIPHER_AES_256_GCM) + le::le32(
        p.epoch,
    ) + le::le32(0)
}

/// Whether a log starts with a preamble.
pub open spec fn starts_with_preamble(data: Seq<u8>) -> bool {
    data.len() >= PREAMBLE_SIZE && le::from32(data.subrange(0, 4)) == PREAMBLE_MAGIC
}

/// Where the records of a log start: behind the preamble, if there is one.
pub open spec fn records_start(data: Seq<u8>) -> int {
    if starts_with_preamble(data) {
        PREAMBLE_SIZE as int
    } else {
        0
    }
}

/// Where the records of a log start.
pub fn find_records(data: &[u8]) -> (r: usize)
    ensures
        r == records_start(data@),
{
    if data.len() >= PREAMBLE_SIZE && le::u32_at(data, 0) == PREAMBLE_MAGIC {
        PREAMBLE_SIZE
    } else {
        0
    }
}

impl SegmentPreamble {
    /// The preamble of a log segment under a key of the given epoch.
    pub fn new_wal(epoch: u32) -> (r: SegmentPreamble)
        ensures
            r.epoch == epoch,
    {
        SegmentPreamble { epoch }
    }

    /// The stored form.
    pub fn to_bytes(&self) -> (r: Vec<u8>)
        ensures
            r@ == preamble_bytes(*self),
            r@.len() == PREAMBLE_SIZE,
    {
        broadcast use le::group_round_trips;

        let mut v: Vec<u8> = le::u32_to_le(PREAMBLE_MAGIC);
        v.append(&mut le::u16_to_le(PREAMBLE_VERSION));
        v.append(&mut le::u16_to_le(CIPHER_AES_256_GCM));
        v.append(&mut le::u32_to_le(self.epoch));
        v.append(&mut le::u32_to_le(0));
        v
    }
}

} // verus!
