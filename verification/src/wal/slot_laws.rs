//! What the slots of the double-write ring and its header can be relied on for.

use vstd::prelude::*;

use crate::wal::double_write;
use crate::wal::double_write::{DoubleWriteBuffer, DwbMode, DWB_CAPACITY};
use crate::wal::le;
use crate::wal::record;
use crate::wal::record::{RecordView, HEADER_SIZE, WAL_MAGIC};

verus! {

/// What the ring gives back for a number is an intact record of that number.
pub proof fn law_recovered_record_is_intact(image: Seq<u8>, lsn: u64, i: int)
    requires
        double_write::recovered_from(image, lsn, i) is Some,
    ensures
        double_write::recovered_from(image, lsn, i)->0.header.lsn == lsn,
        double_write::recovered_from(image, lsn, i)->0.intact(),
        double_write::recovered_from(image, lsn, i)->0.header.magic == WAL_MAGIC,
        double_write::recovered_from(image, lsn, i)->0.payload.len() <= 65_536,
    decreases DWB_CAPACITY - i,
{
    let w = double_write::slot_window(image, i);
    if double_write::slot_record(w) is Some && double_write::slot_record(w)->0.header.lsn == lsn {
        let total = le::from32(w.subrange(0, 4));
        assert(double_write::slot_record(w)->0.payload.len() == total - HEADER_SIZE);
    } else {
        law_recovered_record_is_intact(image, lsn, i + 1);
    }
}

/// Each record goes to the slot behind the last one's, the ring counts its slots
/// up to as many as it has, and its header is due until it is written.
pub proof fn law_ring_moves_on(d: DoubleWriteBuffer, n: int)
    ensures
        d.write_pos < u32::MAX ==> d.with_slot(n).write_pos == d.write_pos + 1,
        d.count < 64 ==> d.with_slot(n).count == d.count + 1,
        d.count >= 64 ==> d.with_slot(n).count == 64,
        d.with_slot(n).dirty,
        !d.with_header(n).dirty,
        d.with_header(n).write_pos == d.write_pos,
        d.with_header(n).count == d.count,
        0 <= n && d.bytes_written + n <= u64::MAX ==> d.with_slot(n).bytes_written
            == d.bytes_written + n && d.with_header(n).bytes_written == d.bytes_written + n,
{
}

/// A ring's header holds the ring's magic number, the number of slots in use and
/// the next slot, in this order, and is opened as such; a file that is too short
/// or has another magic number starts a new ring.
pub proof fn law_ring_header_says_where_it_was(
    mode: DwbMode,
    count: u32,
    write_pos: u32,
    rest: Seq<u8>,
)
    requires
        rest.len() >= 4084,
    ensures
        ({
            let file = double_write::header_content(count, write_pos) + rest;
            let d = DoubleWriteBuffer::opened(mode, file);
            &&& d.count == count
            &&& d.write_pos == write_pos
            &&& !d.dirty
            &&& d.mode == mode
            &&& d.bytes_written == 0
        }),
        forall|file: Seq<u8>| file.len() < 4096 ==> (#[trigger] DoubleWriteBuffer::opened(
            mode,
            file,
        )).count == 0 && DoubleWriteBuffer::opened(mode, file).write_pos == 0,
{
    broadcast use le::group_round_trips;

    let file = double_write::header_content(count, write_pos) + rest;
    assert(file.subrange(0, 4) =~= le::le32(double_write::DWB_MAGIC));
    assert(file.subrange(4, 8) =~= le::le32(count));
    assert(file.subrange(8, 12) =~= le::le32(write_pos));
}

/// Slots lie behind the header block of 4 KiB, one behind the other, each with
/// room for the largest record that a slot takes, and go round after 64.
pub proof fn law_slots_have_room(idx: u32, r: RecordView)
    ensures
        double_write::slot_start(idx as int) == 4096 + (idx as int % 64) * 69_632,
        r.payload.len() <= 65_536 ==> double_write::slot_content(r).len() <= 69_632,
        idx < u32::MAX && idx as int % 64 != 63 ==> double_write::slot_start(idx + 1)
            == double_write::slot_start(idx as int) + 69_632,
        idx < u32::MAX && idx as int % 64 == 63 ==> double_write::slot_start(idx + 1) == 4096,
{
    broadcast use le::group_round_trips;

    record::lemma_header_len(r.header);
    let k = idx as int % 64;
    assert((idx + 1) % 64 == if k == 63 {
        0
    } else {
        k + 1
    });
    assert((k + 1) * 69_632 == k * 69_632 + 69_632) by (nonlinear_arith);
}

} // verus!
