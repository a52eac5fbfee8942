//! Finding the end of a log that is opened again.

use vstd::prelude::*;

use crate::wal::error::WalError;
use crate::wal::mmap_reader;
use crate::wal::mmap_reader::{Found, MmapWalReader};
use crate::wal::preamble;
use crate::wal::record::RecordView;

verus! {

/// Where a log ends and how far it has counted.
#[derive(Debug, Clone, Copy, PartialEq, Eq, Structural)]
pub struct RecoveryInfo {
    /// Offset behind the last good record.
    pub end_offset: u64,
    /// Sequence number of the last good record, 0 without one.
    pub last_lsn: u64,
}

impl RecoveryInfo {
    /// The sequence number that the next record gets.
    pub fn next_lsn(&self) -> (r: u64)
        requires
            self.last_lsn < u64::MAX,
        ensures
            r == self.last_lsn + 1,
    {
        self.last_lsn + 1
    }
}

/// Offset behind the last record that a reader takes from `off` on.
pub open spec fn end_from(data: Seq<u8>, off: int) -> int
    decreases data.len() - off,
{
    match mmap_reader::next_found(data, off) {
        Found::Record { rec, next } => if off < next <= data.len() {
            end_from(data, next)
        } else {
            off
        },
        _ => off,
    }
}

/// Where a log ends that may start with a preamble.
pub open spec fn log_end(data: Seq<u8>) -> int {
    end_from(data, preamble::records_start(data))
}

/// The records of a log that may start with a preamble.
pub open spec fn log_records(data: Seq<u8>) -> Seq<RecordView> {
    mmap_reader::records_from(data, preamble::records_start(data))
}

/// The error that ends reading a log that may start with a preamble, if one does.
pub open spec fn log_failure(data: Seq<u8>) -> Option<WalError> {
    mmap_reader::failure_from(data, preamble::records_start(data))
}

/// Whether `r` is what a scan of a log owes.
pub open spec fn recovered(data: Seq<u8>, r: Result<RecoveryInfo, WalError>) -> bool {
    match log_failure(data) {
        Some(e) => r == Err::<RecoveryInfo, WalError>(e),
        None => r matches Ok(info) && info.end_offset == log_end(data) && info.end_offset
            <= data.len() && info.last_lsn == if log_records(data).len() == 0 {
            0
        } else {
            log_records(data).last().header.lsn
        },
    }
}

/// Scans a log from its first record.
pub fn recover(data: &[u8]) -> (r: Result<RecoveryInfo, WalError>)
    ensures
        recovered(data@, r),
{
    let mut reader = MmapWalReader::open(data);
    let mut end: usize = reader.offset();
    let ghost start = end as int;
    let mut last: u64 = 0;
    let ghost mut got: Seq<RecordView> = Seq::empty();
    loop
        invariant
            reader.wf(),
            reader.data == data,
            end == reader.offset,
            start == preamble::records_start(data@),
            end_from(data@, start) == end_from(data@, end as int),
            mmap_reader::failure_from(data@, start) == mmap_reader::failure_from(
                data@,
                reader.offset as int,
            ),
            mmap_reader::records_from(data@, start) =~= got + mmap_reader::records_from(
                data@,
                reader.offset as int,
            ),
            last == if got.len() == 0 {
                0
            } else {
                got.last().header.lsn
            },
        decreases reader.data@.len() - reader.offset,
    {
        proof {
            mmap_reader::lemma_next_found(data@, reader.offset as int);
        }
        match reader.next_record() {
            Ok(Some(rec)) => {
                last = rec.header.lsn;
                proof {
                    got = got.push(rec@);
                }
            },
            Ok(None) => {
                return Ok(RecoveryInfo { end_offset: end as u64, last_lsn: last });
            },
            Err(e) => {
                return Err(e);
            },
        }
        end = reader.offset();
    }
}

} // verus!
