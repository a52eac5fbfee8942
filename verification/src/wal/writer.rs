//! The writer of a log: numbers records, gathers them in a buffer and says
//! what has to be written where.
//!
//! The writer does no I/O. Each of its steps that needs the disk returns the
//! writes to be done, in order; whoever owns the files does them and reports
//! back. Several records share one write and one sync.

use vstd::prelude::*;

use crate::wal::align;
use crate::wal::align::{AlignedBuf, DEFAULT_ALIGNMENT};
use crate::wal::double_write::{DiskWrite, DoubleWriteBuffer, DwbMode};
use crate::wal::error::WalError;
use crate::wal::preamble;
use crate::wal::preamble::SegmentPreamble;
use crate::wal::record;
use crate::wal::record::{
    RecordView, WalRecord, ENCRYPTED_FLAG, HEADER_SIZE, MAX_WAL_PAYLOAD_SIZE,
};
use crate::wal::recovery;

verus! {

/// Default size of the write buffer: 2 MiB.
pub const DEFAULT_WRITE_BUFFER_SIZE: usize = 2_097_152;

/// How a log is written.
#[derive(Debug, Clone, Copy, PartialEq, Eq, Structural)]
pub struct WalWriterConfig {
    /// Size of the write buffer, rounded up to whole blocks.
    pub write_buffer_size: usize,
    /// Block size of direct I/O.
    pub alignment: usize,
    /// Whether the log bypasses the page cache.
    pub use_direct_io: bool,
    /// How the double-write buffer is written; as the log is, if not given.
    pub dwb_mode: Option<DwbMode>,
}

impl Default for WalWriterConfig {
    fn default() -> (r: WalWriterConfig)
        ensures
            r.write_buffer_size == 2 * 1024 * 1024,
            r.alignment == 4096,
            r.use_direct_io,
            r.dwb_mode is None,
    {
        WalWriterConfig {
            write_buffer_size: DEFAULT_WRITE_BUFFER_SIZE,
            alignment: DEFAULT_ALIGNMENT,
            use_direct_io: true,
            dwb_mode: None,
        }
    }
}

/// The mode of the double-write buffer that a configuration asks for.
pub open spec fn resolved_mode(config: WalWriterConfig) -> DwbMode {
    match config.dwb_mode {
        Some(m) => m,
        None => if config.use_direct_io {
            DwbMode::Direct
        } else {
            DwbMode::Buffered
        },
    }
}

/// The mode of the double-write buffer that a configuration asks for.
pub fn resolve_dwb_mode(config: &WalWriterConfig) -> (r: DwbMode)
    ensures
        r == resolved_mode(*config),
{
    match config.dwb_mode {
        Some(m) => m,
        None => DwbMode::default_for_parent(config.use_direct_io),
    }
}

/// The double-write buffer for a log, over a file that holds `file`; none when
/// the configuration switches it off.
pub fn open_dwb_for(config: &WalWriterConfig, file: &[u8]) -> (r: Option<DoubleWriteBuffer>)
    ensures
        r is None <==> resolved_mode(*config) == DwbMode::Off,
        r matches Some(d) ==> d.wf() && d == DoubleWriteBuffer::opened(
            resolved_mode(*config),
            file@,
        ),
{
    let mode = resolve_dwb_mode(config);
    match DoubleWriteBuffer::open(mode, file) {
        Ok(d) => Some(d),
        Err(_) => None,
    }
}

/// How many bytes the buffer takes before it is written out.
pub open spec fn room(config: WalWriterConfig) -> int {
    align::rounded_up(config.write_buffer_size as int, config.alignment as int)
}

/// How many more it holds: with direct I/O a block that was written before it was
/// full.
pub open spec fn spare(config: WalWriterConfig) -> int {
    if config.use_direct_io {
        config.alignment as int
    } else {
        0
    }
}

/// An empty buffer for a log.
fn new_buffer(config: &WalWriterConfig) -> (r: Result<AlignedBuf, WalError>)
    requires
        config.alignment > 0 ==> room(*config) + spare(*config) <= usize::MAX,
    ensures
        r is Ok <==> align::is_power_of_two(config.alignment),
        r matches Ok(b) ==> b.wf() && b@ == Seq::<u8>::empty() && b.spec_alignment()
            == config.alignment && b.spec_capacity() == room(*config) + spare(*config),
        r matches Err(e) ==> e == (WalError::InvalidAlignment { alignment: config.alignment }),
{
    if config.alignment == 0 {
        return Err(WalError::InvalidAlignment { alignment: 0 });
    }
    let size: usize = align::round_up(config.write_buffer_size, config.alignment);
    let extra: usize = if config.use_direct_io {
        config.alignment
    } else {
        0
    };
    proof {
        let block = config.alignment as int;
        align::lemma_rounded_up(config.write_buffer_size as int, block);
        vstd::arithmetic::div_mod::lemma_small_mod(0, block as nat);
        vstd::arithmetic::div_mod::lemma_mod_self_0(block);
        vstd::arithmetic::div_mod::lemma_add_mod_noop(size as int, extra as int, block);
        align::lemma_rounded_up(size + extra, block);
    }
    AlignedBuf::new(size + extra, config.alignment)
}

/// A log that is being written.
pub struct WalWriter {
    pub buffer: AlignedBuf,
    /// Where the buffer goes in the file; with direct I/O the start of a block.
    pub file_offset: u64,
    /// Bytes at the start of the buffer that are in the file already: those of a
    /// block that direct I/O wrote before it was full.
    pub settled: usize,
    /// The sequence number that the next record gets.
    pub next_lsn: u64,
    /// Whether the log accepts no more records.
    pub sealed: bool,
    pub config: WalWriterConfig,
    /// Set when payloads are encrypted.
    pub segment_preamble: Option<SegmentPreamble>,
    pub double_write: Option<DoubleWriteBuffer>,
}

/// A record on its way into the log, and what to write before it gets there.
pub struct PendingAppend {
    pub record: WalRecord,
    /// Goes to the double-write buffer first.
    pub dwb_write: Option<DiskWrite>,
    /// Makes room in the write buffer.
    pub flush: Option<DiskWrite>,
}

/// What a sync has to write, in this order, each followed by a sync of its file.
pub struct SyncPlan {
    pub dwb_flush: Option<DiskWrite>,
    pub log_write: DiskWrite,
}

impl WalWriter {
    /// Parts fit together.
    pub open spec fn wf(&self) -> bool {
        &&& self.buffer.wf()
        &&& self.double_write matches Some(d) ==> d.wf()
        &&& self.buffer.spec_alignment() == self.config.alignment
        &&& self.config.alignment > 0
        &&& self.buffer.spec_capacity() == room(self.config) + spare(self.config)
        &&& self.settled <= self.buffer@.len()
        &&& if self.config.use_direct_io {
            &&& self.file_offset as int % self.config.alignment as int == 0
            &&& self.settled < self.config.alignment
        } else {
            self.settled == 0
        }
        &&& self.on_disk() <= u64::MAX
    }

    /// Bytes of the file that were written.
    pub open spec fn on_disk(&self) -> int {
        self.file_offset + if self.config.use_direct_io {
            align::rounded_up(self.settled as int, self.config.alignment as int)
        } else {
            0
        }
    }

    /// Bytes in the buffer that are not in the file.
    pub open spec fn pending(&self) -> int {
        self.buffer@.len() - self.settled
    }

    /// Whether this writer has taken up a log whose file holds `file`. Direct I/O
    /// writes whole blocks, so the records of a block that is not full go back
    /// into the buffer.
    pub open spec fn takes_up(&self, file: Seq<u8>) -> bool {
        let end = recovery::log_end(file);
        let rs = recovery::log_records(file);
        &&& self.file_offset == if self.config.use_direct_io {
            end - end % self.config.alignment as int
        } else {
            end
        }
        &&& self.buffer@ == file.subrange(self.file_offset as int, end)
        &&& self.settled == self.buffer@.len()
        &&& self.next_lsn == if rs.len() == 0 {
            1
        } else {
            rs.last().header.lsn + 1
        }
    }

    /// Whether everything but the buffer's content is as in `to`.
    pub open spec fn same_setup(&self, to: &WalWriter) -> bool {
        &&& to.config == self.config
        &&& to.segment_preamble == self.segment_preamble
        &&& to.buffer.spec_capacity() == self.buffer.spec_capacity()
        &&& to.buffer.spec_alignment() == self.buffer.spec_alignment()
    }

    /// The bytes that a flush of the buffer writes.
    pub open spec fn flush_bytes(&self) -> Seq<u8> {
        if self.config.use_direct_io {
            align::padded(
                self.buffer@,
                align::rounded_up(self.buffer@.len() as int, self.buffer.spec_alignment()),
            )
        } else {
            self.buffer@
        }
    }

    /// Whether `to` is this writer after a number was given out.
    pub open spec fn numbered(&self, to: &WalWriter) -> bool {
        &&& self.same_setup(to)
        &&& to.buffer == self.buffer
        &&& to.file_offset == self.file_offset
        &&& to.settled == self.settled
        &&& to.sealed == self.sealed
        &&& to.double_write == self.double_write
        &&& to.next_lsn == if self.sealed {
            self.next_lsn as int
        } else {
            self.next_lsn + 1
        }
    }

    /// How many bytes the last block of the buffer holds, if it is not full and
    /// has to be written again.
    pub open spec fn unfilled(&self) -> int {
        if self.config.use_direct_io {
            self.buffer@.len() as int % self.config.alignment as int
        } else {
            0
        }
    }

    /// Whether `to` is this writer after its buffer went to the log. A block that
    /// is not full stays in the buffer, so that the next record follows the last
    /// one.
    pub open spec fn emptied(&self, to: &WalWriter) -> bool {
        let full = self.buffer@.len() - self.unfilled();
        &&& self.same_setup(to)
        &&& to.buffer@ == self.buffer@.skip(full)
        &&& to.file_offset == self.file_offset + full
        &&& to.settled == self.unfilled()
        &&& to.next_lsn == self.next_lsn
        &&& to.sealed == self.sealed
        &&& to.double_write == self.double_write
    }

    /// Whether `to` is this writer after it took `rec`, or refused it for its
    /// size, and `r` is what it said.
    pub open spec fn taken(
        &self,
        rec: RecordView,
        to: &WalWriter,
        r: Result<u64, WalError>,
    ) -> bool {
        let cap = room(self.config);
        &&& self.same_setup(to)
        &&& to.file_offset == self.file_offset
        &&& to.settled == self.settled
        &&& to.next_lsn == self.next_lsn
        &&& to.sealed == self.sealed
        &&& to.double_write == self.double_write
        &&& if HEADER_SIZE + rec.payload.len() > cap {
            &&& to.buffer == self.buffer
            &&& r == Err::<u64, WalError>(
                (WalError::PayloadTooLarge {
                    size: rec.payload.len() as usize,
                    max: if cap >= HEADER_SIZE {
                        (cap - HEADER_SIZE) as usize
                    } else {
                        0
                    },
                }),
            )
        } else {
            &&& r == Ok::<u64, WalError>(rec.header.lsn)
            &&& to.buffer@ == self.buffer@ + rec.bytes()
        }
    }

    /// Opens a log whose file holds `file`. A log that is not empty is scanned
    /// for its end and its last sequence number. With direct I/O the offset stays
    /// aligned: what the last block holds is written again with what follows.
    pub fn open(
        config: WalWriterConfig,
        file: &[u8],
        double_write: Option<DoubleWriteBuffer>,
    ) -> (r: Result<WalWriter, WalError>)
        requires
            config.alignment > 0 ==> room(config) + spare(config) <= usize::MAX,
            config.use_direct_io ==> file@.len() + config.alignment <= u64::MAX,
            double_write matches Some(d) ==> d.wf(),
            recovery::log_records(file@).len() > 0 ==> recovery::log_records(
                file@,
            ).last().header.lsn < u64::MAX,
        ensures
            r is Ok <==> align::is_power_of_two(config.alignment) && recovery::log_failure(
                file@,
            ) is None,
            !align::is_power_of_two(config.alignment) ==> r == Err::<WalWriter, WalError>(
                (WalError::InvalidAlignment { alignment: config.alignment }),
            ),
            align::is_power_of_two(config.alignment) ==> (recovery::log_failure(
                file@,
            ) matches Some(e) ==> r == Err::<WalWriter, WalError>(e)),
            r matches Ok(w) ==> {
                &&& w.wf()
                &&& w.takes_up(file@)
                &&& !w.sealed
                &&& w.config == config
                &&& w.segment_preamble is None
                &&& w.double_write == double_write
            },
    {
        let mut buffer = match new_buffer(&config) {
            Ok(b) => b,
            Err(e) => return Err(e),
        };
        let info = match recovery::recover(file) {
            Ok(info) => info,
            Err(e) => return Err(e),
        };
        let len: usize = file.len();
        assert(info.end_offset <= len);
        let end: usize = info.end_offset as usize;
        proof {
            align::lemma_rounded_up_rest(end as int, config.alignment as int);
            align::lemma_rounded_up(end as int % config.alignment as int, config.alignment as int);
        }
        let tail: usize = if config.use_direct_io {
            end % config.alignment
        } else {
            0
        };
        let start: usize = end - tail;
        let part = vstd::slice::slice_subrange(file, start, end);
        let _ = buffer.write(part);
        proof {
            align::lemma_rounded_up(
                config.write_buffer_size as int,
                config.alignment as int,
            );
            assert(part@.take(tail as int) =~= part@);
            assert(buffer@ =~= file@.subrange(start as int, end as int));
        }
        Ok(
            WalWriter {
                buffer,
                file_offset: start as u64,
                settled: tail,
                next_lsn: info.next_lsn(),
                sealed: false,
                config,
                segment_preamble: None,
                double_write,
            },
        )
    }

    /// Opens a new segment whose first record gets the sequence number `start_lsn`.
    pub fn open_with_start_lsn(
        config: WalWriterConfig,
        start_lsn: u64,
        double_write: Option<DoubleWriteBuffer>,
    ) -> (r: Result<WalWriter, WalError>)
        requires
            config.alignment > 0 ==> room(config) + spare(config) <= usize::MAX,
            double_write matches Some(d) ==> d.wf(),
        ensures
            r is Ok <==> align::is_power_of_two(config.alignment),
            r matches Err(e) ==> e == (WalError::InvalidAlignment {
                alignment: config.alignment,
            }),
            r matches Ok(w) ==> {
                &&& w.wf()
                &&& w.buffer@ == Seq::<u8>::empty()
                &&& w.file_offset == 0
                &&& w.settled == 0
                &&& w.next_lsn == start_lsn
                &&& !w.sealed
                &&& w.config == config
                &&& w.segment_preamble is None
                &&& w.double_write == double_write
            },
    {
        let buffer = match new_buffer(&config) {
            Ok(b) => b,
            Err(e) => return Err(e),
        };
        proof {
            if config.use_direct_io {
                align::lemma_rounded_up(0, config.alignment as int);
                vstd::arithmetic::div_mod::lemma_small_mod(0, config.alignment as nat);
            }
        }
        Ok(
            WalWriter {
                buffer,
                file_offset: 0,
                settled: 0,
                next_lsn: start_lsn,
                sealed: false,
                config,
                segment_preamble: None,
                double_write,
            },
        )
    }

    /// Starts encryption under keys of the given epoch. The segment's preamble
    /// goes out ahead of the first record, so nothing may have been written yet.
    pub fn set_encryption_ring(&mut self, epoch: u32) -> (r: Result<(), WalError>)
        requires
            old(self).wf(),
        ensures
            final(self).wf(),
            r is Ok <==> old(self).file_offset == 0 && old(self).buffer@.len() == 0,
            r is Err ==> *final(self) == *old(self),
            r matches Err(e) ==> e is EncryptionError && e->detail@
                == "set_encryption_ring must be called before writing any records"@,
            r is Ok ==> {
                let p = SegmentPreamble { epoch };
                &&& final(self).segment_preamble == Some(p)
                &&& final(self).buffer@ == if room(old(self).config) >= preamble::PREAMBLE_SIZE {
                    preamble::preamble_bytes(p)
                } else {
                    preamble::preamble_bytes(p).take(room(old(self).config))
                }
                &&& final(self).buffer.spec_capacity() == old(self).buffer.spec_capacity()
                &&& final(self).buffer.spec_alignment() == old(self).buffer.spec_alignment()
                &&& final(self).file_offset == 0
                &&& final(self).settled == 0
                &&& final(self).next_lsn == old(self).next_lsn
                &&& final(self).sealed == old(self).sealed
                &&& final(self).config == old(self).config
                &&& final(self).double_write == old(self).double_write
            },
    {
        if self.file_offset != 0 || !self.buffer.is_empty() {
            return Err(
                WalError::EncryptionError {
                    detail: "set_encryption_ring must be called before writing any records".to_owned(),
                },
            );
        }
        let p = SegmentPreamble::new_wal(epoch);
        let bytes = p.to_bytes();
        let cap: usize = self.room();
        let n: usize = if cap >= preamble::PREAMBLE_SIZE {
            preamble::PREAMBLE_SIZE
        } else {
            cap
        };
        let part = vstd::slice::slice_subrange(bytes.as_slice(), 0, n);
        let _ = self.buffer.write(part);
        proof {
            assert(bytes@.take(preamble::PREAMBLE_SIZE as int) =~= bytes@);
            assert(part@.take(n as int) =~= bytes@.take(n as int));
            assert(self.buffer@ =~= bytes@.take(n as int));
        }
        self.segment_preamble = Some(p);
        Ok(())
    }

    /// The preamble of the segment, when payloads are encrypted.
    pub fn segment_preamble(&self) -> (r: Option<SegmentPreamble>)
        ensures
            r == self.segment_preamble,
    {
        self.segment_preamble
    }

    /// The type under which a record is stored.
    pub open spec fn stored_type(&self, record_type: u32) -> u32 {
        if self.segment_preamble is Some {
            record_type | ENCRYPTED_FLAG
        } else {
            record_type
        }
    }

    /// Numbers a record and says what to write before `commit_append` takes it
    /// into the buffer. With encryption on, `payload` is the ciphertext.
    ///
    /// A number is used up even if the record is refused.
    pub fn append(
        &mut self,
        record_type: u32,
        tenant_id: u64,
        vshard_id: u32,
        database_id: u64,
        payload: &[u8],
    ) -> (r: Result<PendingAppend, WalError>)
        requires
            old(self).wf(),
            old(self).next_lsn < u64::MAX,
        ensures
            final(self).wf(),
            old(self).numbered(final(self)),
            old(self).sealed ==> r == Err::<PendingAppend, WalError>(WalError::Sealed),
            !old(self).sealed && payload@.len() > MAX_WAL_PAYLOAD_SIZE ==> r == Err::<
                PendingAppend,
                WalError,
            >(
                (WalError::PayloadTooLarge {
                    size: payload@.len() as usize,
                    max: MAX_WAL_PAYLOAD_SIZE,
                }),
            ),
            !old(self).sealed && payload@.len() <= MAX_WAL_PAYLOAD_SIZE ==> r is Ok,
            r matches Ok(p) ==> {
                &&& p.record@ == RecordView::fresh(
                    old(self).stored_type(record_type),
                    old(self).next_lsn,
                    tenant_id,
                    vshard_id,
                    database_id,
                    payload@,
                )
                &&& p.record@.intact()
                &&& match old(self).double_write {
                    Some(d) => {
                        &&& p.dwb_write is None <==> payload@.len()
                            > crate::wal::double_write::DWB_SLOT_PAYLOAD_MAX
                        &&& p.dwb_write matches Some(w) ==> w.offset
                            == crate::wal::double_write::slot_start(d.write_pos as int)
                            && w.bytes@ == crate::wal::double_write::slot_bytes(
                            d.mode,
                            p.record@,
                        )
                    },
                    None => p.dwb_write is None,
                }
                &&& p.flush is Some <==> old(self).pending() > 0 && room(old(self).config)
                    - old(self).buffer@.len() < HEADER_SIZE + payload@.len()
                &&& p.flush matches Some(w) ==> w.offset == old(self).file_offset && w.bytes@
                    == old(self).flush_bytes()
            },
    {
        if self.sealed {
            return Err(WalError::Sealed);
        }
        let lsn: u64 = self.next_lsn;
        self.next_lsn = lsn + 1;
        let stored_type: u32 = if self.segment_preamble.is_some() {
            record_type | ENCRYPTED_FLAG
        } else {
            record_type
        };
        let mut owned: Vec<u8> = Vec::new();
        owned.extend_from_slice(payload);
        assert(owned@ =~= payload@);
        let rec = match WalRecord::new(
            stored_type,
            lsn,
            tenant_id,
            vshard_id,
            database_id,
            owned,
        ) {
            Ok(rec) => rec,
            Err(e) => return Err(e),
        };
        let dwb_write = match &self.double_write {
            Some(d) => d.write_record_deferred(&rec),
            None => None,
        };
        let total: usize = HEADER_SIZE + rec.payload.len();
        let used: usize = self.buffer.len();
        let cap: usize = self.room();
        let flush = if cap < used || cap - used < total {
            self.flush_buffer()
        } else {
            None
        };
        Ok(PendingAppend { record: rec, dwb_write, flush })
    }

    /// Takes note that a record's slot in the double-write buffer was written.
    pub fn dwb_written(&mut self, w: &DiskWrite)
        requires
            old(self).wf(),
        ensures
            final(self).wf(),
            old(self).same_setup(final(self)),
            final(self).buffer == old(self).buffer,
            final(self).file_offset == old(self).file_offset,
            final(self).settled == old(self).settled,
            final(self).next_lsn == old(self).next_lsn,
            final(self).sealed == old(self).sealed,
            match old(self).double_write {
                Some(d) => final(self).double_write == Some(d.with_slot(w.bytes@.len() as int)),
                None => final(self).double_write is None,
            },
    {
        match &mut self.double_write {
            Some(d) => d.slot_written(w),
            None => {},
        }
    }

    /// Goes on without the double-write buffer after it failed. The log is what
    /// counts; only the protection against torn writes is lost.
    pub fn detach_dwb(&mut self)
        requires
            old(self).wf(),
        ensures
            final(self).wf(),
            *final(self) == (WalWriter { double_write: None, ..*old(self) }),
    {
        self.double_write = None;
    }

    /// How many bytes the buffer takes before it is written out.
    fn room(&self) -> (r: usize)
        requires
            self.wf(),
        ensures
            r == room(self.config),
    {
        if self.config.use_direct_io {
            self.buffer.capacity() - self.config.alignment
        } else {
            self.buffer.capacity()
        }
    }

    /// The write that empties the buffer into the log, if it holds anything that
    /// is not there yet.
    pub fn flush_buffer(&self) -> (r: Option<DiskWrite>)
        requires
            self.wf(),
        ensures
            r is None <==> self.pending() == 0,
            r matches Some(w) ==> w.offset == self.file_offset && w.bytes@ == self.flush_bytes(),
    {
        if self.buffer.len() == self.settled {
            return None;
        }
        let bytes: Vec<u8> = if self.config.use_direct_io {
            self.buffer.as_aligned_slice()
        } else {
            let mut v: Vec<u8> = Vec::new();
            v.extend_from_slice(self.buffer.as_slice());
            assert(v@ =~= self.buffer@);
            v
        };
        Some(DiskWrite { offset: self.file_offset, bytes })
    }

    /// Takes note that the buffer was written to the log, as `flush_buffer` asked.
    pub fn buffer_flushed(&mut self, w: &DiskWrite)
        requires
            old(self).wf(),
            w.bytes@.len() == old(self).flush_bytes().len(),
            old(self).file_offset + w.bytes@.len() <= u64::MAX,
        ensures
            final(self).wf(),
            old(self).emptied(final(self)),
            final(self).on_disk() == old(self).file_offset + w.bytes@.len(),
    {
        let len: usize = self.buffer.len();
        let rest: usize = if self.config.use_direct_io {
            len % self.config.alignment
        } else {
            0
        };
        proof {
            let block = self.config.alignment as int;
            if self.config.use_direct_io {
                align::lemma_rounded_up_rest(len as int, block);
                align::lemma_rounded_up(len as int, block);
                align::lemma_rounded_up(rest as int, block);
                vstd::arithmetic::div_mod::lemma_small_mod(0, block as nat);
                vstd::arithmetic::div_mod::lemma_add_mod_noop(
                    self.file_offset as int,
                    len - rest,
                    block,
                );
            }
        }
        self.file_offset = self.file_offset + (len - rest) as u64;
        self.buffer.keep_last(rest);
        self.settled = rest;
    }

    /// Takes a record into the buffer after the writes that it asked for.
    /// Returns its sequence number.
    pub fn commit_append(&mut self, p: PendingAppend) -> (r: Result<u64, WalError>)
        requires
            old(self).wf(),
            p.record@.payload.len() <= MAX_WAL_PAYLOAD_SIZE,
            old(self).pending() == 0 || HEADER_SIZE + p.record@.payload.len() <= room(
                old(self).config,
            ) - old(self).buffer@.len(),
        ensures
            final(self).wf(),
            old(self).taken(p.record@, final(self), r),
    {
        let n: usize = p.record.payload.len();
        let cap: usize = self.room();
        let total: usize = HEADER_SIZE + n;
        if total > cap {
            return Err(
                WalError::PayloadTooLarge {
                    size: n,
                    max: if cap >= HEADER_SIZE {
                        cap - HEADER_SIZE
                    } else {
                        0
                    },
                },
            );
        }
        let header = p.record.header.to_bytes();
        let _ = self.buffer.write(header.as_slice());
        let _ = self.buffer.write(p.record.payload.as_slice());
        proof {
            assert(header@.take(HEADER_SIZE as int) =~= header@);
            assert(p.record.payload@.take(n as int) =~= p.record.payload@);
            assert(self.buffer@ =~= old(self).buffer@ + p.record@.bytes());
        }
        Ok(p.record.header.lsn)
    }

    /// What has to be written to make all records durable; nothing if they are.
    /// The double-write buffer comes first.
    pub fn sync(&self) -> (r: Option<SyncPlan>)
        requires
            self.wf(),
        ensures
            r is None <==> self.pending() == 0,
            r matches Some(p) ==> {
                &&& p.log_write.offset == self.file_offset
                &&& p.log_write.bytes@ == self.flush_bytes()
                &&& match self.double_write {
                    Some(d) => {
                        &&& p.dwb_flush is Some <==> d.dirty
                        &&& p.dwb_flush matches Some(w) ==> w.offset == 0 && w.bytes@
                            == crate::wal::double_write::ring_header_bytes(
                            d.mode,
                            d.count,
                            d.write_pos,
                        )
                    },
                    None => p.dwb_flush is None,
                }
            },
    {
        let dwb_flush = match &self.double_write {
            Some(d) => d.flush(),
            None => None,
        };
        match self.flush_buffer() {
            Some(log_write) => Some(SyncPlan { dwb_flush, log_write }),
            None => None,
        }
    }

    /// Takes note that the double-write buffer's header was written and synced.
    pub fn dwb_flushed(&mut self, w: &DiskWrite)
        requires
            old(self).wf(),
        ensures
            final(self).wf(),
            old(self).same_setup(final(self)),
            final(self).buffer == old(self).buffer,
            final(self).file_offset == old(self).file_offset,
            final(self).settled == old(self).settled,
            final(self).next_lsn == old(self).next_lsn,
            final(self).sealed == old(self).sealed,
            match old(self).double_write {
                Some(d) => final(self).double_write == Some(d.with_header(w.bytes@.len() as int)),
                None => final(self).double_write is None,
            },
    {
        match &mut self.double_write {
            Some(d) => d.flushed(w),
            None => {},
        }
    }

    /// Closes the log for good, after a sync.
    pub fn seal(&mut self)
        requires
            old(self).wf(),
            old(self).pending() == 0,
        ensures
            final(self).wf(),
            *final(self) == (WalWriter { sealed: true, ..*old(self) }),
    {
        self.sealed = true;
    }

    /// The sequence number that the next record gets.
    pub fn next_lsn(&self) -> (r: u64)
        ensures
            r == self.next_lsn,
    {
        self.next_lsn
    }

    /// Bytes of the file that were written; with direct I/O whole blocks.
    pub fn file_offset(&self) -> (r: u64)
        requires
            self.wf(),
        ensures
            r == self.on_disk(),
    {
        proof {
            let block = self.config.alignment as int;
            align::lemma_rounded_up(self.settled as int, block);
            if self.config.use_direct_io {
                vstd::arithmetic::div_mod::lemma_small_mod(self.settled as nat, block as nat);
            }
        }
        if !self.config.use_direct_io || self.settled == 0 {
            self.file_offset
        } else {
            self.file_offset + self.config.alignment as u64
        }
    }
}

} // verus!
