//! Reading the records of sealed segments that are mapped into memory.
//!
//! A reader walks over the bytes of one segment. Replay strings the segments
//! together and keeps what is not older than a given sequence number.

use vstd::prelude::*;

use crate::wal::error::WalError;
use crate::wal::preamble;
use crate::wal::record;
use crate::wal::record::{
    RecordHeader, RecordType, RecordView, WalRecord, HEADER_SIZE, REQUIRED_FLAG, WAL_MAGIC,
};

verus! {

/// What a reader finds at some offset. `next` is where it reads on.
pub enum Found {
    /// The end of what can be read.
    End { next: int },
    /// A record.
    Record { rec: RecordView, next: int },
    /// A record of an unknown type that may be passed over.
    Optional { next: int },
    /// A record of an unknown type that must not be passed over.
    Required { record_type: u32, lsn: u64, next: int },
}

/// The record that a header at `off` announces.
pub open spec fn record_at(data: Seq<u8>, off: int) -> RecordView {
    let h = record::parsed_header(data.skip(off));
    RecordView {
        header: h,
        payload: data.subrange(off + HEADER_SIZE, off + HEADER_SIZE + h.payload_len),
    }
}

/// What stands at `off`.
pub open spec fn found_at(data: Seq<u8>, off: int) -> Found {
    let h = record::parsed_header(data.skip(off));
    let next = off + HEADER_SIZE + h.payload_len;
    let rec = record_at(data, off);
    if off + HEADER_SIZE > data.len() || !h.readable() || next > data.len() {
        Found::End { next: off }
    } else if !rec.intact() {
        Found::End { next }
    } else if record::known_type(rec.logical_type()) {
        Found::Record { rec, next }
    } else if rec.logical_type() & REQUIRED_FLAG != 0 {
        Found::Required { record_type: h.record_type, lsn: h.lsn, next }
    } else {
        Found::Optional { next }
    }
}

/// What a reader at `off` comes to, past everything that may be passed over.
pub open spec fn next_found(data: Seq<u8>, off: int) -> Found
    decreases data.len() - off,
{
    match found_at(data, off) {
        Found::Optional { next } => if off < next <= data.len() {
            next_found(data, next)
        } else {
            Found::End { next }
        },
        f => f,
    }
}

/// The records from `off` on, up to the end or to a record that must not be passed over.
pub open spec fn records_from(data: Seq<u8>, off: int) -> Seq<RecordView>
    decreases data.len() - off,
{
    match found_at(data, off) {
        Found::Record { rec, next } => if off < next <= data.len() {
            seq![rec] + records_from(data, next)
        } else {
            seq![rec]
        },
        Found::Optional { next } => if off < next <= data.len() {
            records_from(data, next)
        } else {
            Seq::empty()
        },
        _ => Seq::empty(),
    }
}

/// The error that ends reading from `off`, if one does.
pub open spec fn failure_from(data: Seq<u8>, off: int) -> Option<WalError>
    decreases data.len() - off,
{
    match found_at(data, off) {
        Found::Record { rec, next } => if off < next <= data.len() {
            failure_from(data, next)
        } else {
            None
        },
        Found::Optional { next } => if off < next <= data.len() {
            failure_from(data, next)
        } else {
            None
        },
        Found::Required { record_type, lsn, next } => Some(
            WalError::UnknownRequiredRecordType { record_type, lsn },
        ),
        Found::End { next } => None,
    }
}

/// Passing over optional records changes neither the records ahead nor the error.
pub proof fn lemma_next_found(data: Seq<u8>, off: int)
    requires
        0 <= off <= data.len(),
    ensures
        match next_found(data, off) {
            Found::Record { rec, next } => {
                &&& off < next <= data.len()
                &&& records_from(data, off) == seq![rec] + records_from(data, next)
                &&& failure_from(data, off) == failure_from(data, next)
            },
            Found::Required { record_type, lsn, next } => {
                &&& off < next <= data.len()
                &&& records_from(data, off) == Seq::<RecordView>::empty()
                &&& failure_from(data, off) == Some(
                    WalError::UnknownRequiredRecordType { record_type, lsn },
                )
            },
            Found::End { next } => {
                &&& off <= next <= data.len()
                &&& records_from(data, off) == Seq::<RecordView>::empty()
                &&& failure_from(data, off) is None
            },
            Found::Optional { next } => false,
        },
    decreases data.len() - off,
{
    match found_at(data, off) {
        Found::Optional { next } => {
            lemma_next_found(data, next);
        },
        _ => {},
    }
}

/// A reader over the bytes of one segment.
pub struct MmapWalReader<'a> {
    pub data: &'a [u8],
    pub offset: usize,
}

impl<'a> MmapWalReader<'a> {
    /// The reader has not left its segment.
    pub open spec fn wf(&self) -> bool {
        self.offset <= self.data@.len()
    }

    /// A reader at the first record of a segment, behind its preamble if it has
    /// one.
    pub fn open(data: &'a [u8]) -> (r: MmapWalReader<'a>)
        ensures
            r.data == data,
            r.offset == preamble::records_start(data@),
            r.wf(),
    {
        MmapWalReader { data, offset: preamble::find_records(data) }
    }

    /// Reads the next record. Nothing comes back at the end of the segment and
    /// at the first place that is not a complete and intact record; a record
    /// of an unknown type is passed over unless it must be understood.
    pub fn next_record(&mut self) -> (r: Result<Option<WalRecord>, WalError>)
        requires
            old(self).wf(),
        ensures
            final(self).wf(),
            final(self).data == old(self).data,
            match next_found(old(self).data@, old(self).offset as int) {
                Found::Record { rec, next } => {
                    &&& r matches Ok(Some(got)) && got@ == rec
                    &&& final(self).offset == next
                },
                Found::Required { record_type, lsn, next } => {
                    &&& r matches Err(e) && e == (WalError::UnknownRequiredRecordType {
                        record_type,
                        lsn,
                    })
                    &&& final(self).offset == next
                },
                Found::End { next } => {
                    &&& r matches Ok(None)
                    &&& final(self).offset == next
                },
                Found::Optional { next } => false,
            },
    {
        let data: &[u8] = self.data;
        let len: usize = data.len();
        proof {
            lemma_next_found(data@, self.offset as int);
        }
        loop
            invariant
                data@ == old(self).data@,
                self.data == old(self).data,
                len == data@.len(),
                self.offset <= len,
                next_found(data@, self.offset as int) == next_found(
                    data@,
                    old(self).offset as int,
                ),
            decreases len - self.offset,
        {
            let off: usize = self.offset;
            proof {
                lemma_next_found(data@, off as int);
            }
            if len - off < HEADER_SIZE {
                return Ok(None);
            }
            let rest = vstd::slice::slice_subrange(data, off, len);
            assert(rest@ =~= data@.skip(off as int));
            let header = RecordHeader::from_bytes(rest);
            if header.magic != WAL_MAGIC {
                return Ok(None);
            }
            if header.validate(off as u64).is_err() {
                return Ok(None);
            }
            let payload_len: usize = header.payload_len as usize;
            if len - off - HEADER_SIZE < payload_len {
                return Ok(None);
            }
            let start: usize = off + HEADER_SIZE;
            let end: usize = start + payload_len;
            let body = vstd::slice::slice_subrange(data, start, end);
            let mut payload: Vec<u8> = Vec::new();
            payload.extend_from_slice(body);
            self.offset = end;
            let rec = WalRecord { header, payload };
            assert(rec@ =~= record_at(data@, off as int));
            if rec.verify_checksum().is_err() {
                return Ok(None);
            }
            let logical: u32 = rec.logical_record_type();
            if RecordType::from_raw(logical).is_none() {
                if RecordType::is_required(logical) {
                    return Err(
                        WalError::UnknownRequiredRecordType {
                            record_type: header.record_type,
                            lsn: header.lsn,
                        },
                    );
                }
                assert(found_at(data@, off as int) == (Found::Optional { next: end as int }));
                continue;
            }
            return Ok(Some(rec));
        }
    }

    /// All records from the reader's place on, or the error that ends them.
    pub fn records(self) -> (r: Result<Vec<WalRecord>, WalError>)
        requires
            self.wf(),
        ensures
            match failure_from(self.data@, self.offset as int) {
                Some(e) => r == Err::<Vec<WalRecord>, WalError>(e),
                None => r matches Ok(v) && records_view(v@) == records_from(
                    self.data@,
                    self.offset as int,
                ),
            },
    {
        let mut reader = self;
        let mut out: Vec<WalRecord> = Vec::new();
        assert(records_view(out@) =~= Seq::empty());
        loop
            invariant
                reader.wf(),
                reader.data == self.data,
                failure_from(self.data@, self.offset as int) == failure_from(
                    reader.data@,
                    reader.offset as int,
                ),
                records_from(self.data@, self.offset as int) =~= records_view(out@) + records_from(
                    reader.data@,
                    reader.offset as int,
                ),
            decreases reader.data@.len() - reader.offset,
        {
            proof {
                lemma_next_found(reader.data@, reader.offset as int);
            }
            match reader.next_record() {
                Ok(Some(rec)) => {
                    let ghost before = out@;
                    out.push(rec);
                    assert(records_view(out@) =~= records_view(before).push(rec@));
                },
                Ok(None) => {
                    return Ok(out);
                },
                Err(e) => {
                    return Err(e);
                },
            }
        }
    }

    /// Where the reader reads next.
    pub fn offset(&self) -> (r: usize)
        ensures
            r == self.offset,
    {
        self.offset
    }

    /// Bytes in the segment.
    pub fn len(&self) -> (r: usize)
        ensures
            r == self.data@.len(),
    {
        self.data.len()
    }

    /// Whether the segment holds no bytes.
    pub fn is_empty(&self) -> (r: bool)
        ensures
            r == (self.data@.len() == 0),
    {
        self.data.len() == 0
    }
}

/// The views of records, in order.
pub open spec fn records_view(s: Seq<WalRecord>) -> Seq<RecordView> {
    Seq::new(s.len(), |i: int| s[i]@)
}

} // verus!
