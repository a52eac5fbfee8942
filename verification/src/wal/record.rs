//! The record format: a fixed header, then the payload.

use vstd::prelude::*;

use crate::wal::crc32c;
use crate::wal::error::WalError;
use crate::wal::le;

verus! {

/// First four bytes of every record: "WALR" read as a little-endian number.
pub const WAL_MAGIC: u32 = 0x524C_4157;

/// Version of the record format.
pub const WAL_FORMAT_VERSION: u16 = 1;

/// Bytes in a header.
pub const HEADER_SIZE: usize = 46;

/// Bytes of the header that the checksum covers: all but the checksum itself.
pub const CHECKED_HEADER: usize = 42;

/// Largest payload.
pub const MAX_WAL_PAYLOAD_SIZE: usize = 67_108_864;

/// Marks a record whose payload is encrypted.
pub const ENCRYPTED_FLAG: u32 = 0x8000_0000;

/// Marks a record type that a reader must understand.
pub const REQUIRED_FLAG: u32 = 0x8000;

/// What a record says.
#[derive(Debug, Clone, Copy, PartialEq, Eq, Structural)]
pub enum RecordType {
    Noop,
    Put,
    Delete,
    Checkpoint,
    CalvinApplied,
}

/// The number of a record type.
pub open spec fn raw_of(t: RecordType) -> u32 {
    match t {
        RecordType::Noop => 0,
        RecordType::Put => 1,
        RecordType::Delete => 2,
        RecordType::Checkpoint => 3,
        RecordType::CalvinApplied => 4,
    }
}

impl RecordType {
    /// The number under which the type is stored.
    pub fn raw(self) -> (r: u32)
        ensures
            r == raw_of(self),
    {
        match self {
            RecordType::Noop => 0,
            RecordType::Put => 1,
            RecordType::Delete => 2,
            RecordType::Checkpoint => 3,
            RecordType::CalvinApplied => 4,
        }
    }

    /// The type stored under a number, if there is one.
    pub fn from_raw(raw: u32) -> (r: Option<RecordType>)
        ensures
            match r {
                Some(t) => raw_of(t) == raw,
                None => raw > 4,
            },
    {
        if raw == 0 {
            Some(RecordType::Noop)
        } else if raw == 1 {
            Some(RecordType::Put)
        } else if raw == 2 {
            Some(RecordType::Delete)
        } else if raw == 3 {
            Some(RecordType::Checkpoint)
        } else if raw == 4 {
            Some(RecordType::CalvinApplied)
        } else {
            None
        }
    }

    /// Whether a reader must understand records of this type.
    pub fn is_required(raw: u32) -> (r: bool)
        ensures
            r == (raw & REQUIRED_FLAG != 0),
    {
        raw & REQUIRED_FLAG != 0
    }
}

/// Whether a type number is known.
pub open spec fn known_type(raw: u32) -> bool {
    raw <= 4
}

/// A record's header.
#[derive(Debug, Clone, Copy, PartialEq, Eq, Structural)]
pub struct RecordHeader {
    pub magic: u32,
    pub format_version: u16,
    pub record_type: u32,
    pub lsn: u64,
    pub tenant_id: u64,
    pub vshard_id: u32,
    pub payload_len: u32,
    pub database_id: u64,
    pub crc32c: u32,
}

/// The header fields that the checksum covers, as stored.
pub open spec fn checked_bytes(h: RecordHeader) -> Seq<u8> {
    le::le32(h.magic) + le::le16(
        h.format_version,
    ) + le::le32(h.record_type) + le::le64(h.lsn)
        + le::le64(h.tenant_id) + le::le32(
        h.vshard_id,
    ) + le::le32(h.payload_len) + le::le64(
        h.database_id,
    )
}

/// The header as stored.
pub open spec fn header_bytes(h: RecordHeader) -> Seq<u8> {
    checked_bytes(h) + le::le32(h.crc32c)
}

/// The header that is stored at the start of `s`.
pub open spec fn parsed_header(s: Seq<u8>) -> RecordHeader {
    RecordHeader {
        magic: le::from32(s.subrange(0, 4)),
        format_version: le::from16(s.subrange(4, 6)),
        record_type: le::from32(s.subrange(6, 10)),
        lsn: le::from64(s.subrange(10, 18)),
        tenant_id: le::from64(s.subrange(18, 26)),
        vshard_id: le::from32(s.subrange(26, 30)),
        payload_len: le::from32(s.subrange(30, 34)),
        database_id: le::from64(s.subrange(34, 42)),
        crc32c: le::from32(s.subrange(42, 46)),
    }
}

/// A stored header has the size that it should have.
pub proof fn lemma_header_len(h: RecordHeader)
    ensures
        checked_bytes(h).len() == CHECKED_HEADER,
        header_bytes(h).len() == HEADER_SIZE,
        header_bytes(h).take(CHECKED_HEADER as int) == checked_bytes(h),
{
    broadcast use le::group_round_trips;

    assert(header_bytes(h).take(CHECKED_HEADER as int) =~= checked_bytes(h));
}

/// A header reads back as it was stored, whatever follows it.
pub proof fn lemma_header_round_trip(h: RecordHeader, rest: Seq<u8>)
    ensures
        parsed_header(header_bytes(h) + rest) == h,
{
    broadcast use le::group_round_trips;

    let s = header_bytes(h) + rest;
    assert(s.subrange(0, 4) =~= le::le32(h.magic));
    assert(s.subrange(4, 6) =~= le::le16(h.format_version));
    assert(s.subrange(6, 10) =~= le::le32(h.record_type));
    assert(s.subrange(10, 18) =~= le::le64(h.lsn));
    assert(s.subrange(18, 26) =~= le::le64(h.tenant_id));
    assert(s.subrange(26, 30) =~= le::le32(h.vshard_id));
    assert(s.subrange(30, 34) =~= le::le32(h.payload_len));
    assert(s.subrange(34, 42) =~= le::le64(h.database_id));
    assert(s.subrange(42, 46) =~= le::le32(h.crc32c));
}

impl RecordHeader {
    /// The stored form of the fields that the checksum covers.
    fn checked_to_bytes(&self) -> (r: Vec<u8>)
        ensures
            r@ == checked_bytes(*self),
    {
        let mut v: Vec<u8> = le::u32_to_le(self.magic);
        v.append(&mut le::u16_to_le(self.format_version));
        v.append(&mut le::u32_to_le(self.record_type));
        v.append(&mut le::u64_to_le(self.lsn));
        v.append(&mut le::u64_to_le(self.tenant_id));
        v.append(&mut le::u32_to_le(self.vshard_id));
        v.append(&mut le::u32_to_le(self.payload_len));
        v.append(&mut le::u64_to_le(self.database_id));
        v
    }

    /// The stored form.
    pub fn to_bytes(&self) -> (r: Vec<u8>)
        ensures
            r@ == header_bytes(*self),
            r@.len() == HEADER_SIZE,
    {
        let mut v = self.checked_to_bytes();
        v.append(&mut le::u32_to_le(self.crc32c));
        proof {
            lemma_header_len(*self);
        }
        v
    }

    /// Reads a stored header from the start of `s`.
    pub fn from_bytes(s: &[u8]) -> (r: RecordHeader)
        requires
            s@.len() >= HEADER_SIZE,
        ensures
            r == parsed_header(s@),
    {
        RecordHeader {
            magic: le::u32_at(s, 0),
            format_version: le::u16_at(s, 4),
            record_type: le::u32_at(s, 6),
            lsn: le::u64_at(s, 10),
            tenant_id: le::u64_at(s, 18),
            vshard_id: le::u32_at(s, 26),
            payload_len: le::u32_at(s, 30),
            database_id: le::u64_at(s, 34),
            crc32c: le::u32_at(s, 42),
        }
    }

    /// Whether a reader of this version can read the header.
    pub open spec fn readable(self) -> bool {
        self.magic == WAL_MAGIC && self.format_version == WAL_FORMAT_VERSION
    }

    /// Checks magic number and version of the header found at `offset`.
    pub fn validate(&self, offset: u64) -> (r: Result<(), WalError>)
        ensures
            r is Ok <==> self.readable(),
            self.magic != WAL_MAGIC ==> r == Err::<(), WalError>(
                (WalError::InvalidMagic { offset }),
            ),
            self.magic == WAL_MAGIC && !self.readable() ==> r == Err::<(), WalError>(
                (WalError::UnsupportedVersion { offset, version: self.format_version }),
            ),
    {
        if self.magic != WAL_MAGIC {
            return Err(WalError::InvalidMagic { offset });
        }
        if self.format_version != WAL_FORMAT_VERSION {
            return Err(WalError::UnsupportedVersion { offset, version: self.format_version });
        }
        Ok(())
    }
}

/// A record.
#[derive(Debug)]
pub struct WalRecord {
    pub header: RecordHeader,
    pub payload: Vec<u8>,
}

/// A record as a value.
#[verifier::ext_equal]
pub struct RecordView {
    pub header: RecordHeader,
    pub payload: Seq<u8>,
}

impl View for WalRecord {
    type V = RecordView;

    open spec fn view(&self) -> RecordView {
        RecordView { header: self.header, payload: self.payload@ }
    }
}

impl Clone for WalRecord {
    fn clone(&self) -> (r: WalRecord)
        ensures
            r@ == self@,
    {
        let r = WalRecord { header: self.header, payload: self.payload.clone() };
        assert(r@ =~= self@);
        r
    }
}

impl RecordView {
    /// The checksum that the record should carry.
    pub open spec fn expected_crc(self) -> u32 {
        crc32c::checksum(checked_bytes(self.header) + self.payload)
    }

    /// Whether the record is intact.
    pub open spec fn intact(self) -> bool {
        self.header.crc32c == self.expected_crc()
    }

    /// The record as stored.
    pub open spec fn bytes(self) -> Seq<u8> {
        header_bytes(self.header) + self.payload
    }

    /// The record's type without the encryption mark.
    pub open spec fn logical_type(self) -> u32 {
        self.header.record_type & !ENCRYPTED_FLAG
    }

    /// A fresh record.
    pub open spec fn fresh(
        record_type: u32,
        lsn: u64,
        tenant_id: u64,
        vshard_id: u32,
        database_id: u64,
        payload: Seq<u8>,
    ) -> RecordView {
        let h = RecordHeader {
            magic: WAL_MAGIC,
            format_version: WAL_FORMAT_VERSION,
            record_type,
            lsn,
            tenant_id,
            vshard_id,
            payload_len: payload.len() as u32,
            database_id,
            crc32c: 0,
        };
        RecordView {
            header: RecordHeader { crc32c: crc32c::checksum(checked_bytes(h) + payload), ..h },
            payload,
        }
    }

    /// Whether a reader takes the record as it stands: readable, complete, intact and known.
    pub open spec fn sound(self) -> bool {
        &&& self.header.readable()
        &&& self.header.payload_len == self.payload.len()
        &&& self.intact()
        &&& known_type(self.logical_type())
    }
}

/// The checksum does not depend on the field that holds it.
pub proof fn lemma_fresh_intact(
    record_type: u32,
    lsn: u64,
    tenant_id: u64,
    vshard_id: u32,
    database_id: u64,
    payload: Seq<u8>,
)
    ensures
        RecordView::fresh(
            record_type,
            lsn,
            tenant_id,
            vshard_id,
            database_id,
            payload,
        ).intact(),
{
    let r = RecordView::fresh(record_type, lsn, tenant_id, vshard_id, database_id, payload);
    let h = RecordHeader { crc32c: 0, ..r.header };
    assert(checked_bytes(r.header) == checked_bytes(h));
}

impl WalRecord {
    /// A record with its checksum.
    pub fn new(
        record_type: u32,
        lsn: u64,
        tenant_id: u64,
        vshard_id: u32,
        database_id: u64,
        payload: Vec<u8>,
    ) -> (r: Result<WalRecord, WalError>)
        ensures
            r is Ok <==> payload@.len() <= MAX_WAL_PAYLOAD_SIZE,
            r matches Ok(rec) ==> rec@ == RecordView::fresh(
                record_type,
                lsn,
                tenant_id,
                vshard_id,
                database_id,
                payload@,
            ) && rec@.intact(),
            r matches Err(e) ==> e == (WalError::PayloadTooLarge {
                size: payload@.len() as usize,
                max: MAX_WAL_PAYLOAD_SIZE,
            }),
    {
        if payload.len() > MAX_WAL_PAYLOAD_SIZE {
            return Err(
                WalError::PayloadTooLarge { size: payload.len(), max: MAX_WAL_PAYLOAD_SIZE },
            );
        }
        let mut header = RecordHeader {
            magic: WAL_MAGIC,
            format_version: WAL_FORMAT_VERSION,
            record_type,
            lsn,
            tenant_id,
            vshard_id,
            payload_len: payload.len() as u32,
            database_id,
            crc32c: 0,
        };
        header.crc32c = crc32c::checksum_of(
            header.checked_to_bytes().as_slice(),
            payload.as_slice(),
        );
        proof {
            lemma_fresh_intact(
                record_type,
                lsn,
                tenant_id,
                vshard_id,
                database_id,
                payload@,
            );
        }
        Ok(WalRecord { header, payload })
    }

    /// Checks the record against its checksum.
    pub fn verify_checksum(&self) -> (r: Result<(), WalError>)
        ensures
            r is Ok <==> self@.intact(),
            r matches Err(e) ==> e == (WalError::ChecksumMismatch { lsn: self.header.lsn }),
    {
        let sum: u32 = crc32c::checksum_of(
            self.header.checked_to_bytes().as_slice(),
            self.payload.as_slice(),
        );
        if sum == self.header.crc32c {
            Ok(())
        } else {
            Err(WalError::ChecksumMismatch { lsn: self.header.lsn })
        }
    }

    /// The record's type without the encryption mark.
    pub fn logical_record_type(&self) -> (r: u32)
        ensures
            r == self@.logical_type(),
    {
        self.header.record_type & !ENCRYPTED_FLAG
    }
}

} // verus!
