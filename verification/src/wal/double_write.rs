//! A second copy of the latest records, against torn writes.
//!
//! A drive writes single sectors atomically, but not larger pages: a power
//! failure can leave the last record of the log half written. Every record
//! therefore goes to a small ring file first. When a record of the log fails
//! its checksum on recovery, the ring is searched for an intact copy.
//!
//! The ring is one header block followed by slots of a fixed, block-aligned
//! stride, the same in buffered and in direct mode, so that a ring written in
//! one mode can be read in the other. This module lays out the bytes; whoever
//! owns the file writes them and reports back.

use vstd::prelude::*;

use crate::wal::align;
use crate::wal::align::DEFAULT_ALIGNMENT;
use crate::wal::error::WalError;
use crate::wal::le;
use crate::wal::record;
use crate::wal::record::{RecordHeader, RecordView, WalRecord, HEADER_SIZE, WAL_MAGIC};

verus! {

/// Number of slots.
pub const DWB_CAPACITY: u32 = 64;

/// Largest payload that a slot takes, besides its length prefix and header.
pub const DWB_SLOT_PAYLOAD_MAX: usize = 65_536;

/// Distance between slots: prefix, header and largest payload, rounded up to whole blocks.
pub const DWB_SLOT_STRIDE: usize = 69_632;

/// Bytes of the header block.
pub const DWB_HEADER_STRIDE: usize = 4096;

/// Bytes of the header block that carry something.
pub const DWB_HEADER_FIELDS: usize = 12;

/// First four bytes of the header block.
pub const DWB_MAGIC: u32 = 0x4457_4246;

/// How the ring file is written.
#[derive(Debug, Clone, Copy, PartialEq, Eq, Structural)]
pub enum DwbMode {
    /// Not at all.
    Off,
    /// Through the page cache.
    Buffered,
    /// Past the page cache, in whole blocks.
    Direct,
}

impl DwbMode {
    /// The mode that matches how the log itself is written.
    pub fn default_for_parent(parent_uses_direct_io: bool) -> (r: DwbMode)
        ensures
            r == if parent_uses_direct_io {
                DwbMode::Direct
            } else {
                DwbMode::Buffered
            },
    {
        if parent_uses_direct_io {
            DwbMode::Direct
        } else {
            DwbMode::Buffered
        }
    }
}

/// Distance between slots, for callers that size the file ahead of time.
pub fn slot_stride() -> (r: usize)
    ensures
        r == align::rounded_up(
            4 + HEADER_SIZE + DWB_SLOT_PAYLOAD_MAX,
            DEFAULT_ALIGNMENT as int,
        ),
{
    DWB_SLOT_STRIDE
}

/// Where slot `idx` starts; indexes go round.
pub open spec fn slot_start(idx: int) -> int {
    DWB_HEADER_STRIDE + (idx % DWB_CAPACITY as int) * DWB_SLOT_STRIDE
}

/// Where slot `idx` starts; indexes go round.
pub fn slot_offset(idx: u32) -> (r: u64)
    ensures
        r == slot_start(idx as int),
{
    let k: u64 = (idx % DWB_CAPACITY) as u64;
    let stride: u64 = DWB_SLOT_STRIDE as u64;
    assert(k * stride <= 63 * 69_632) by (nonlinear_arith)
        requires
            k <= 63,
            stride == 69_632,
    ;
    DWB_HEADER_STRIDE as u64 + k * stride
}

/// Bytes to be written at an offset.
#[derive(Debug)]
pub struct DiskWrite {
    pub offset: u64,
    pub bytes: Vec<u8>,
}

/// A file's content after `bytes` were written at `off`; a gap reads as zeros.
pub open spec fn overwritten(image: Seq<u8>, off: int, bytes: Seq<u8>) -> Seq<u8> {
    let n = if off + bytes.len() > image.len() {
        off + bytes.len()
    } else {
        image.len() as int
    };
    Seq::new(
        n as nat,
        |i: int|
            if off <= i < off + bytes.len() {
                bytes[i - off]
            } else if i < image.len() {
                image[i]
            } else {
                0u8
            },
    )
}

impl DiskWrite {
    /// Performs the write on a file that is held in memory.
    pub fn apply(&self, image: &mut Vec<u8>)
        requires
            self.offset + self.bytes@.len() <= usize::MAX,
        ensures
            final(image)@ == overwritten(old(image)@, self.offset as int, self.bytes@),
    {
        let off: usize = self.offset as usize;
        let end: usize = off + self.bytes.len();
        let ghost before = image@;
        while image.len() < end
            invariant
                end == off + self.bytes@.len(),
                image@.len() >= before.len(),
                image@.len() <= end || image@.len() == before.len(),
                forall|i: int|
                    0 <= i < image@.len() ==> #[trigger] image@[i] == if i < before.len() {
                        before[i]
                    } else {
                        0u8
                    },
            decreases end - image@.len(),
        {
            image.push(0);
        }
        let ghost grown = image@;
        let mut i: usize = 0;
        while i < self.bytes.len()
            invariant
                i <= self.bytes@.len(),
                end == off + self.bytes@.len(),
                image@.len() == grown.len(),
                grown.len() >= end,
                forall|k: int|
                    0 <= k < image@.len() ==> #[trigger] image@[k] == if off <= k < off + i {
                        self.bytes@[k - off]
                    } else {
                        grown[k]
                    },
            decreases self.bytes@.len() - i,
        {
            let b: u8 = self.bytes[i];
            image.set(off + i, b);
            i = i + 1;
        }
        assert(image@ =~= overwritten(before, off as int, self.bytes@));
    }
}

/// The meaningful bytes of a slot: length of what follows, header, payload.
pub open spec fn slot_content(r: RecordView) -> Seq<u8> {
    le::le32((HEADER_SIZE + r.payload.len()) as u32) + r.bytes()
}

/// The bytes that are written for a slot: direct mode fills up to a whole slot.
pub open spec fn slot_bytes(mode: DwbMode, r: RecordView) -> Seq<u8> {
    if mode == DwbMode::Direct {
        align::padded(slot_content(r), DWB_SLOT_STRIDE as int)
    } else {
        slot_content(r)
    }
}

/// The meaningful bytes of the header block.
pub open spec fn header_content(count: u32, write_pos: u32) -> Seq<u8> {
    le::le32(DWB_MAGIC) + le::le32(count)
        + le::le32(write_pos)
}

/// The bytes that are written for the header block.
pub open spec fn ring_header_bytes(mode: DwbMode, count: u32, write_pos: u32) -> Seq<u8> {
    if mode == DwbMode::Direct {
        align::padded(header_content(count, write_pos), DWB_HEADER_STRIDE as int)
    } else {
        header_content(count, write_pos)
    }
}

/// What can be read of slot `i`: as much as the file holds of it.
pub open spec fn slot_window(image: Seq<u8>, i: int) -> Seq<u8> {
    let off = slot_start(i);
    if off >= image.len() {
        Seq::empty()
    } else if off + DWB_SLOT_STRIDE <= image.len() {
        image.subrange(off, off + DWB_SLOT_STRIDE)
    } else {
        image.subrange(off, image.len() as int)
    }
}

/// The intact record in a slot, if there is one.
pub open spec fn slot_record(w: Seq<u8>) -> Option<RecordView> {
    let total = le::from32(w.subrange(0, 4));
    let r = RecordView {
        header: record::parsed_header(w.skip(4)),
        payload: w.subrange(4 + HEADER_SIZE, 4 + total),
    };
    if w.len() < 4 + HEADER_SIZE || total < HEADER_SIZE || total > HEADER_SIZE
        + DWB_SLOT_PAYLOAD_MAX || w.len() < 4 + total {
        None
    } else if r.header.magic != WAL_MAGIC || !r.intact() {
        None
    } else {
        Some(r)
    }
}

/// The intact record with a sequence number in the slots from `i` on, the first one found.
pub open spec fn recovered_from(image: Seq<u8>, lsn: u64, i: int) -> Option<RecordView>
    decreases DWB_CAPACITY - i,
{
    if i >= DWB_CAPACITY {
        None
    } else {
        match slot_record(slot_window(image, i)) {
            Some(r) => if r.header.lsn == lsn {
                Some(r)
            } else {
                recovered_from(image, lsn, i + 1)
            },
            None => recovered_from(image, lsn, i + 1),
        }
    }
}

/// What makes one record durable in the ring: its slot, then the header, after
/// which the file is synced.
#[derive(Debug)]
pub struct RecordWrites {
    /// None for a record that no slot takes.
    pub slot: Option<DiskWrite>,
    /// None if the header on disk is up to date.
    pub header: Option<DiskWrite>,
}

/// The ring's state between writes.
#[derive(Debug)]
pub struct DoubleWriteBuffer {
    pub mode: DwbMode,
    /// Slot that the next record goes to; goes round.
    pub write_pos: u32,
    /// Slots in use.
    pub count: u32,
    /// Whether slots were written since the header was.
    pub dirty: bool,
    /// Bytes written since the ring was opened.
    pub bytes_written: u64,
}

impl DoubleWriteBuffer {
    /// An open ring is not switched off.
    pub open spec fn wf(&self) -> bool {
        self.mode != DwbMode::Off
    }

    /// The ring that a file holds: where it was left, or new if the file holds none.
    pub open spec fn opened(mode: DwbMode, file: Seq<u8>) -> DoubleWriteBuffer {
        let known = file.len() >= DWB_HEADER_STRIDE && le::from32(file.subrange(0, 4)) == DWB_MAGIC;
        DoubleWriteBuffer {
            mode,
            count: if known {
                le::from32(file.subrange(4, 8))
            } else {
                0
            },
            write_pos: if known {
                le::from32(file.subrange(8, 12))
            } else {
                0
            },
            dirty: false,
            bytes_written: 0,
        }
    }

    /// The ring after a slot was written with `n` bytes.
    pub open spec fn with_slot(self, n: int) -> DoubleWriteBuffer {
        DoubleWriteBuffer {
            mode: self.mode,
            write_pos: if self.write_pos == u32::MAX {
                0
            } else {
                (self.write_pos + 1) as u32
            },
            count: if self.count >= DWB_CAPACITY {
                DWB_CAPACITY
            } else {
                (self.count + 1) as u32
            },
            dirty: true,
            bytes_written: ((self.bytes_written + n) % 0x1_0000_0000_0000_0000) as u64,
        }
    }

    /// The ring after its header was written with `n` bytes.
    pub open spec fn with_header(self, n: int) -> DoubleWriteBuffer {
        DoubleWriteBuffer {
            dirty: false,
            bytes_written: ((self.bytes_written + n) % 0x1_0000_0000_0000_0000) as u64,
            ..self
        }
    }

    /// Opens a ring whose file holds `file`. A file without a header block, or
    /// with one that is not a ring's, starts a new ring.
    pub fn open(mode: DwbMode, file: &[u8]) -> (r: Result<DoubleWriteBuffer, WalError>)
        ensures
            mode == DwbMode::Off ==> r == Err::<DoubleWriteBuffer, WalError>(
                WalError::DwbOffNotOpenable,
            ),
            mode != DwbMode::Off ==> r == Ok::<DoubleWriteBuffer, WalError>(
                Self::opened(mode, file@),
            ),
    {
        if mode == DwbMode::Off {
            return Err(WalError::DwbOffNotOpenable);
        }
        let mut count: u32 = 0;
        let mut write_pos: u32 = 0;
        if file.len() >= DWB_HEADER_STRIDE {
            let magic: u32 = le::u32_at(file, 0);
            if magic == DWB_MAGIC {
                count = le::u32_at(file, 4);
                write_pos = le::u32_at(file, 8);
            }
        }
        Ok(DoubleWriteBuffer { mode, write_pos, count, dirty: false, bytes_written: 0 })
    }

    /// How the ring file is written.
    pub fn mode(&self) -> (r: DwbMode)
        ensures
            r == self.mode,
    {
        self.mode
    }

    /// The write that puts a record into the next slot. A record with a larger
    /// payload than a slot takes is not protected.
    pub fn write_record_deferred(&self, rec: &WalRecord) -> (r: Option<DiskWrite>)
        requires
            self.wf(),
        ensures
            r is None <==> rec@.payload.len() > DWB_SLOT_PAYLOAD_MAX,
            r matches Some(w) ==> w.offset == slot_start(self.write_pos as int) && w.bytes@
                == slot_bytes(self.mode, rec@) && w.bytes@.len() <= DWB_SLOT_STRIDE,
    {
        broadcast use le::group_round_trips;

        let n: usize = rec.payload.len();
        if n > DWB_SLOT_PAYLOAD_MAX {
            return None;
        }
        let total: u32 = (HEADER_SIZE + n) as u32;
        let mut bytes: Vec<u8> = le::u32_to_le(total);
        let mut header = rec.header.to_bytes();
        bytes.append(&mut header);
        bytes.extend_from_slice(rec.payload.as_slice());
        assert(bytes@ =~= slot_content(rec@));
        let offset: u64 = slot_offset(self.write_pos);
        if self.mode == DwbMode::Direct {
            bytes = align::zero_filled(bytes.as_slice(), DWB_SLOT_STRIDE);
        }
        Some(DiskWrite { offset, bytes })
    }

    /// The writes that put a record into the next slot and make it count at once.
    pub fn write_record(&self, rec: &WalRecord) -> (r: RecordWrites)
        requires
            self.wf(),
        ensures
            r.slot is None <==> rec@.payload.len() > DWB_SLOT_PAYLOAD_MAX,
            r.slot matches Some(w) ==> w.offset == slot_start(self.write_pos as int) && w.bytes@
                == slot_bytes(self.mode, rec@),
            ({
                let after = match r.slot {
                    Some(w) => self.with_slot(w.bytes@.len() as int),
                    None => *self,
                };
                &&& r.header is None <==> !after.dirty
                &&& r.header matches Some(w) ==> w.offset == 0 && w.bytes@ == ring_header_bytes(
                    after.mode,
                    after.count,
                    after.write_pos,
                )
            }),
    {
        let slot = self.write_record_deferred(rec);
        let mut after = DoubleWriteBuffer {
            mode: self.mode,
            write_pos: self.write_pos,
            count: self.count,
            dirty: self.dirty,
            bytes_written: self.bytes_written,
        };
        match &slot {
            Some(w) => after.slot_written(w),
            None => {},
        }
        let header = after.flush();
        RecordWrites { slot, header }
    }

    /// Takes note that the write for a slot was done.
    pub fn slot_written(&mut self, w: &DiskWrite)
        ensures
            *final(self) == old(self).with_slot(w.bytes@.len() as int),
    {
        self.write_pos = self.write_pos.wrapping_add(1);
        self.count = if self.count >= DWB_CAPACITY {
            DWB_CAPACITY
        } else {
            self.count + 1
        };
        self.dirty = true;
        self.bytes_written = self.bytes_written.wrapping_add(w.bytes.len() as u64);
    }

    /// The write of the header that makes the slots written so far count, if
    /// there are any. The file is synced after it.
    pub fn flush(&self) -> (r: Option<DiskWrite>)
        requires
            self.wf(),
        ensures
            r is None <==> !self.dirty,
            r matches Some(w) ==> w.offset == 0 && w.bytes@ == ring_header_bytes(
                self.mode,
                self.count,
                self.write_pos,
            ),
    {
        broadcast use le::group_round_trips;

        if !self.dirty {
            return None;
        }
        let mut bytes: Vec<u8> = le::u32_to_le(DWB_MAGIC);
        bytes.append(&mut le::u32_to_le(self.count));
        bytes.append(&mut le::u32_to_le(self.write_pos));
        assert(bytes@ =~= header_content(self.count, self.write_pos));
        if self.mode == DwbMode::Direct {
            bytes = align::zero_filled(bytes.as_slice(), DWB_HEADER_STRIDE);
        }
        Some(DiskWrite { offset: 0, bytes })
    }

    /// Takes note that the header was written and the file synced.
    pub fn flushed(&mut self, w: &DiskWrite)
        ensures
            *final(self) == old(self).with_header(w.bytes@.len() as int),
    {
        self.dirty = false;
        self.bytes_written = self.bytes_written.wrapping_add(w.bytes.len() as u64);
    }

    /// Looks for an intact copy of the record with a sequence number. Every
    /// slot is looked at: the header may be stale after a crash, and a slot
    /// tells by its own checksum whether it can be used.
    pub fn recover_record(file: &[u8], target_lsn: u64) -> (r: Option<WalRecord>)
        ensures
            match recovered_from(file@, target_lsn, 0) {
                Some(rec) => r matches Some(got) && got@ == rec,
                None => r is None,
            },
    {
        let mut i: u32 = 0;
        while i < DWB_CAPACITY
            invariant
                i <= DWB_CAPACITY,
                recovered_from(file@, target_lsn, 0) == recovered_from(
                    file@,
                    target_lsn,
                    i as int,
                ),
            decreases DWB_CAPACITY - i,
        {
            match read_slot(file, i) {
                Some(rec) => {
                    if rec.header.lsn == target_lsn {
                        return Some(rec);
                    }
                },
                None => {},
            }
            i = i + 1;
        }
        None
    }
}

/// Reads the intact record in slot `i`, if there is one.
fn read_slot(file: &[u8], i: u32) -> (r: Option<WalRecord>)
    requires
        i < DWB_CAPACITY,
    ensures
        match slot_record(slot_window(file@, i as int)) {
            Some(rec) => r matches Some(got) && got@ == rec,
            None => r is None,
        },
{
    let off: u64 = slot_offset(i);
    let len: usize = file.len();
    if off >= len as u64 {
        return None;
    }
    let start: usize = off as usize;
    let end: usize = if len - start >= DWB_SLOT_STRIDE {
        start + DWB_SLOT_STRIDE
    } else {
        len
    };
    let w = vstd::slice::slice_subrange(file, start, end);
    assert(w@ =~= slot_window(file@, i as int));
    if w.len() < 4 + HEADER_SIZE {
        return None;
    }
    let total: usize = le::u32_at(w, 0) as usize;
    if total < HEADER_SIZE || total > HEADER_SIZE + DWB_SLOT_PAYLOAD_MAX || w.len() < 4 + total {
        return None;
    }
    let rest = vstd::slice::slice_subrange(w, 4, w.len());
    assert(rest@ =~= w@.skip(4));
    let header = RecordHeader::from_bytes(rest);
    if header.magic != WAL_MAGIC {
        return None;
    }
    let body = vstd::slice::slice_subrange(w, 4 + HEADER_SIZE, 4 + total);
    let mut payload: Vec<u8> = Vec::new();
    payload.extend_from_slice(body);
    let rec = WalRecord { header, payload };
    assert(rec@.payload =~= w@.subrange(4 + HEADER_SIZE as int, 4 + total as int));
    if rec.verify_checksum().is_ok() {
        Some(rec)
    } else {
        None
    }
}

} // verus!
