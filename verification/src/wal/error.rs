//! Errors of the write-ahead log.

use vstd::prelude::*;

verus! {

/// Why a log operation was refused or failed.
#[derive(Debug, PartialEq, Eq)]
pub enum WalError {
    /// The header at `offset` does not carry the log's magic number.
    InvalidMagic { offset: u64 },
    /// The header at `offset` is of a format version that is not known.
    UnsupportedVersion { offset: u64, version: u16 },
    /// A record's content does not match its checksum.
    ChecksumMismatch { lsn: u64 },
    /// A payload of `size` bytes where at most `max` fit.
    PayloadTooLarge { size: usize, max: usize },
    /// A record that must be understood is of an unknown type.
    UnknownRequiredRecordType { record_type: u32, lsn: u64 },
    /// The log accepts no more records.
    Sealed,
    /// A double-write buffer that is switched off cannot be opened.
    DwbOffNotOpenable,
    /// Encryption could not be set up.
    EncryptionError { detail: String },
    /// Buffers are aligned to powers of two only.
    InvalidAlignment { alignment: usize },
}

} // verus!
