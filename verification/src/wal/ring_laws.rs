//! What the double-write ring promises: the latest records are found in it.

use vstd::prelude::*;

use crate::wal::align::DEFAULT_ALIGNMENT;
use crate::wal::double_write;
use crate::wal::double_write::{
    DoubleWriteBuffer, DwbMode, DWB_CAPACITY, DWB_HEADER_STRIDE, DWB_MAGIC,
    DWB_SLOT_PAYLOAD_MAX, DWB_SLOT_STRIDE,
};
use crate::wal::le;
use crate::wal::record;
use crate::wal::record::{RecordView, HEADER_SIZE, WAL_MAGIC};

verus! {

/// Every slot of the ring, and its header, starts on a block boundary, and a
/// slot is a whole number of blocks.
pub proof fn law_slots_are_block_aligned(idx: u32)
    ensures
        double_write::slot_start(idx as int) % (DEFAULT_ALIGNMENT as int) == 0,
        DWB_SLOT_STRIDE as int % DEFAULT_ALIGNMENT as int == 0,
        DWB_HEADER_STRIDE as int % DEFAULT_ALIGNMENT as int == 0,
{
    let k = idx as int % DWB_CAPACITY as int;
    assert(double_write::slot_start(idx as int) == 4096 * (1 + 17 * k));
    assert((4096 * (1 + 17 * k)) % 4096 == 0) by (nonlinear_arith);
}

/// Slots lie behind the header and do not overlap.
pub proof fn law_slots_are_disjoint(i: int, j: int)
    requires
        0 <= i < DWB_CAPACITY,
        0 <= j < DWB_CAPACITY,
        i != j,
    ensures
        double_write::slot_start(i) >= DWB_HEADER_STRIDE,
        double_write::slot_start(i) + DWB_SLOT_STRIDE <= double_write::slot_start(j)
            || double_write::slot_start(j) + DWB_SLOT_STRIDE <= double_write::slot_start(i),
{
}

/// Whether the ring file holds `r` in slot `i`.
#[verifier::opaque]
pub open spec fn slot_holds(image: Seq<u8>, i: int, r: RecordView) -> bool {
    let off = double_write::slot_start(i);
    let c = double_write::slot_content(r);
    off + c.len() <= image.len() && image.subrange(off, off + c.len()) == c
}

/// Whether a record may go into the ring.
pub open spec fn protectable(r: RecordView) -> bool {
    r.header.magic == WAL_MAGIC && r.intact() && r.payload.len() <= DWB_SLOT_PAYLOAD_MAX
}

/// A slot that holds a record gives it back.
proof fn lemma_slot_gives_back(image: Seq<u8>, i: int, r: RecordView)
    requires
        0 <= i < DWB_CAPACITY,
        protectable(r),
        slot_holds(image, i, r),
    ensures
        double_write::slot_record(double_write::slot_window(image, i)) == Some(r),
{
    broadcast use le::group_round_trips;

    reveal(slot_holds);
    record::lemma_header_len(r.header);
    let off = double_write::slot_start(i);
    let c = double_write::slot_content(r);
    let w = double_write::slot_window(image, i);
    let total = (HEADER_SIZE + r.payload.len()) as u32;
    assert(c.len() == 4 + HEADER_SIZE + r.payload.len());
    assert forall|k: int| 0 <= k < c.len() implies #[trigger] w[k] == c[k] by {
        assert(image.subrange(off, off + c.len())[k] == c[k]);
    }
    assert(w.subrange(0, 4) =~= le::le32(total));
    let rest = w.skip(4 + HEADER_SIZE as int);
    assert(w.skip(4) =~= record::header_bytes(r.header) + rest) by {
        assert forall|k: int| 0 <= k < HEADER_SIZE implies w.skip(4)[k] == record::header_bytes(
            r.header,
        )[k] by {
            assert(w[4 + k] == c[4 + k]);
        }
    }
    record::lemma_header_round_trip(r.header, rest);
    assert(w.subrange(4 + HEADER_SIZE as int, 4 + total as int) =~= r.payload) by {
        assert forall|k: int| 0 <= k < r.payload.len() implies w[4 + HEADER_SIZE + k]
            == r.payload[k] by {
            assert(w[4 + HEADER_SIZE + k] == c[4 + HEADER_SIZE + k]);
        }
    }
}

/// Writing a record into a slot makes the slot hold it and leaves the others as they are.
proof fn lemma_slot_write(image: Seq<u8>, mode: DwbMode, pos: int, r: RecordView)
    requires
        pos >= 0,
        r.payload.len() <= DWB_SLOT_PAYLOAD_MAX,
    ensures
        ({
            let to = double_write::overwritten(
                image,
                double_write::slot_start(pos),
                double_write::slot_bytes(mode, r),
            );
            &&& slot_holds(to, pos % DWB_CAPACITY as int, r)
            &&& to.len() >= image.len()
            &&& forall|i: int, o: RecordView|
                0 <= i < DWB_CAPACITY && i != pos % DWB_CAPACITY as int && o.payload.len()
                    <= DWB_SLOT_PAYLOAD_MAX && #[trigger] slot_holds(image, i, o) ==> slot_holds(
                    to,
                    i,
                    o,
                )
        }),
{
    broadcast use le::group_round_trips;

    reveal(slot_holds);
    record::lemma_header_len(r.header);
    let off = double_write::slot_start(pos);
    let bytes = double_write::slot_bytes(mode, r);
    let c = double_write::slot_content(r);
    let to = double_write::overwritten(image, off, bytes);
    let p = pos % DWB_CAPACITY as int;
    assert(bytes.len() <= DWB_SLOT_STRIDE);
    assert(double_write::slot_start(p) == off);
    assert forall|k: int| 0 <= k < c.len() implies to[off + k] == c[k] by {
        assert(bytes[k] == c[k]);
    }
    assert(to.subrange(off, off + c.len()) =~= c);
    assert forall|i: int, o: RecordView|
        0 <= i < DWB_CAPACITY && i != p && o.payload.len() <= DWB_SLOT_PAYLOAD_MAX
            && #[trigger] slot_holds(image, i, o) implies slot_holds(to, i, o) by {
        record::lemma_header_len(o.header);
        let oo = double_write::slot_start(i);
        let oc = double_write::slot_content(o);
        law_slots_are_disjoint(i, p);
        assert(oc.len() <= DWB_SLOT_STRIDE);
        assert forall|k: int| 0 <= k < oc.len() implies to[oo + k] == oc[k] by {
            assert(image.subrange(oo, oo + oc.len())[k] == oc[k]);
        }
        assert(to.subrange(oo, oo + oc.len()) =~= oc);
    }
}

/// A record just written to the ring is recovered from it, provided that no
/// other slot holds an intact record of the same number.
pub proof fn law_written_record_is_recovered(
    image: Seq<u8>,
    mode: DwbMode,
    pos: u32,
    r: RecordView,
)
    requires
        protectable(r),
        forall|i: int|
            0 <= i < DWB_CAPACITY && i != pos as int % DWB_CAPACITY as int ==> (
            double_write::slot_record(
                #[trigger] double_write::slot_window(
                    double_write::overwritten(
                        image,
                        double_write::slot_start(pos as int),
                        double_write::slot_bytes(mode, r),
                    ),
                    i,
                ),
            ) matches Some(o) ==> o.header.lsn != r.header.lsn),
    ensures
        double_write::recovered_from(
            double_write::overwritten(
                image,
                double_write::slot_start(pos as int),
                double_write::slot_bytes(mode, r),
            ),
            r.header.lsn,
            0,
        ) == Some(r),
{
    let to = double_write::overwritten(
        image,
        double_write::slot_start(pos as int),
        double_write::slot_bytes(mode, r),
    );
    let p = pos as int % DWB_CAPACITY as int;
    lemma_slot_write(image, mode, pos as int, r);
    lemma_slot_gives_back(to, p, r);
    lemma_recovered_at(to, r, p, 0);
}

/// The search comes to the one slot that holds the record.
proof fn lemma_recovered_at(image: Seq<u8>, r: RecordView, p: int, i: int)
    requires
        0 <= i <= p < DWB_CAPACITY,
        double_write::slot_record(double_write::slot_window(image, p)) == Some(r),
        forall|k: int|
            0 <= k < p ==> (double_write::slot_record(
                #[trigger] double_write::slot_window(image, k),
            ) matches Some(o) ==> o.header.lsn != r.header.lsn),
    ensures
        double_write::recovered_from(image, r.header.lsn, i) == Some(r),
    decreases p - i,
{
    if i < p {
        let w = double_write::slot_window(image, i);
        lemma_recovered_at(image, r, p, i + 1);
    }
}

/// A ring file after records were written to it one after the other, from the
/// first slot on.
pub open spec fn ring_after(mode: DwbMode, rs: Seq<RecordView>) -> Seq<u8>
    decreases rs.len(),
{
    if rs.len() == 0 {
        Seq::empty()
    } else {
        double_write::overwritten(
            ring_after(mode, rs.drop_last()),
            double_write::slot_start(rs.len() - 1),
            double_write::slot_bytes(mode, rs.last()),
        )
    }
}

/// Whether the file reads as zeros over slot `i`, as far as it reaches.
#[verifier::opaque]
spec fn slot_blank(image: Seq<u8>, i: int) -> bool {
    forall|k: int| 0 <= k < double_write::slot_window(image, i).len() ==> #[trigger]
        double_write::slot_window(image, i)[k] == 0
}

/// A blank slot holds no record.
proof fn lemma_blank_slot(image: Seq<u8>, i: int)
    requires
        slot_blank(image, i),
    ensures
        double_write::slot_record(double_write::slot_window(image, i)) is None,
{
    reveal(slot_blank);
    let w = double_write::slot_window(image, i);
    if w.len() >= 4 {
        let z = w.subrange(0, 4);
        assert forall|k: int| 0 <= k < 4 implies z[k] == 0 by {
            assert(z[k] == w[k]);
        }
        le::lemma_zeros32(z);
    }
}

/// What the slots of a ring hold after a run of writes: the latest records, and
/// nothing where no record has come to.
proof fn lemma_ring_slots(mode: DwbMode, rs: Seq<RecordView>)
    requires
        forall|k: int| 0 <= k < rs.len() ==> protectable(#[trigger] rs[k]),
    ensures
        forall|k: int|
            0 <= k < rs.len() && k >= rs.len() - DWB_CAPACITY ==> slot_holds(
                ring_after(mode, rs),
                k % DWB_CAPACITY as int,
                #[trigger] rs[k],
            ),
        forall|i: int|
            rs.len() <= i < DWB_CAPACITY ==> #[trigger] slot_blank(ring_after(mode, rs), i),
    decreases rs.len(),
{
    if rs.len() > 0 {
        let init = rs.drop_last();
        let pos = rs.len() - 1;
        let r = rs.last();
        assert forall|k: int| 0 <= k < init.len() implies protectable(#[trigger] init[k]) by {
            assert(init[k] == rs[k]);
        }
        assert(protectable(rs[pos]));
        lemma_ring_slots(mode, init);
        let image = ring_after(mode, init);
        let to = ring_after(mode, rs);
        lemma_slot_write(image, mode, pos, r);
        assert forall|k: int|
            0 <= k < rs.len() && k >= rs.len() - DWB_CAPACITY implies slot_holds(
            to,
            k % DWB_CAPACITY as int,
            #[trigger] rs[k],
        ) by {
            if k < pos {
                assert(init[k] == rs[k]);
                assert(protectable(init[k]));
                assert(slot_holds(image, k % DWB_CAPACITY as int, init[k]));
                assert(k % 64 != pos % 64);
            }
        }
        assert forall|i: int| rs.len() <= i < DWB_CAPACITY implies #[trigger] slot_blank(
            to,
            i,
        ) by {
            assert(slot_blank(image, i));
            lemma_blank_stays(image, mode, pos, r, i);
        }
    } else {
        assert forall|i: int| 0 <= i < DWB_CAPACITY implies #[trigger] slot_blank(
            ring_after(mode, rs),
            i,
        ) by {
            reveal(slot_blank);
            assert(double_write::slot_window(ring_after(mode, rs), i).len() == 0);
        }
    }
}

/// Writing another slot leaves a blank one blank.
proof fn lemma_blank_stays(image: Seq<u8>, mode: DwbMode, pos: int, r: RecordView, i: int)
    requires
        0 <= pos < i < DWB_CAPACITY,
        r.payload.len() <= DWB_SLOT_PAYLOAD_MAX,
        slot_blank(image, i),
    ensures
        slot_blank(
            double_write::overwritten(
                image,
                double_write::slot_start(pos),
                double_write::slot_bytes(mode, r),
            ),
            i,
        ),
{
    broadcast use le::group_round_trips;

    reveal(slot_blank);
    record::lemma_header_len(r.header);
    let off = double_write::slot_start(pos);
    let bytes = double_write::slot_bytes(mode, r);
    let to = double_write::overwritten(image, off, bytes);
    let at = double_write::slot_start(i);
    law_slots_are_disjoint(pos, i);
    assert(bytes.len() <= DWB_SLOT_STRIDE);
    let w = double_write::slot_window(to, i);
    assert forall|k: int| 0 <= k < w.len() implies #[trigger] w[k] == 0 by {
        assert(w[k] == to[at + k]);
        if at + k < image.len() {
            assert(double_write::slot_window(image, i)[k] == image[at + k]);
        }
    }
}

/// The record that a slot holds after a run of writes, by its place in the run.
spec fn holder(n: int, i: int) -> int {
    n - 1 - (n - 1 - i) % 64
}

/// What a slot gives after a run of writes.
proof fn lemma_ring_slot_gives(mode: DwbMode, rs: Seq<RecordView>, i: int)
    requires
        0 <= i < DWB_CAPACITY,
        forall|k: int| 0 <= k < rs.len() ==> protectable(#[trigger] rs[k]),
    ensures
        ({
            let k = holder(rs.len() as int, i);
            double_write::slot_record(double_write::slot_window(ring_after(mode, rs), i)) == if i
                < rs.len() {
                Some(rs[k])
            } else {
                None
            }
        }),
        i < rs.len() ==> {
            let k = holder(rs.len() as int, i);
            0 <= k < rs.len() && k >= rs.len() - DWB_CAPACITY && k % 64 == i
        },
{
    lemma_ring_slots(mode, rs);
    if i < rs.len() {
        let k = holder(rs.len() as int, i);
        assert(k % 64 == i);
        assert(protectable(rs[k]));
        lemma_slot_gives_back(ring_after(mode, rs), i, rs[k]);
    } else {
        assert(slot_blank(ring_after(mode, rs), i));
        lemma_blank_slot(ring_after(mode, rs), i);
    }
}

/// A search that meets the record in no slot finds nothing.
proof fn lemma_not_recovered(image: Seq<u8>, lsn: u64, i: int)
    requires
        0 <= i <= DWB_CAPACITY,
        forall|k: int|
            0 <= k < DWB_CAPACITY ==> (double_write::slot_record(
                #[trigger] double_write::slot_window(image, k),
            ) matches Some(o) ==> o.header.lsn != lsn),
    ensures
        double_write::recovered_from(image, lsn, i) is None,
    decreases DWB_CAPACITY - i,
{
    if i < DWB_CAPACITY {
        let w = double_write::slot_window(image, i);
        lemma_not_recovered(image, lsn, i + 1);
    }
}

/// The ring keeps the latest records, as many as it has slots, and gives each
/// of them back; older ones have been overwritten.
#[verifier::rlimit(40)]
pub proof fn law_ring_keeps_latest_records(mode: DwbMode, rs: Seq<RecordView>, k: int)
    requires
        0 <= k < rs.len(),
        forall|j: int| 0 <= j < rs.len() ==> protectable(#[trigger] rs[j]),
        forall|i: int, j: int|
            0 <= i < j < rs.len() ==> rs[i].header.lsn != rs[j].header.lsn,
    ensures
        double_write::recovered_from(ring_after(mode, rs), rs[k].header.lsn, 0) == if k
            >= rs.len() - DWB_CAPACITY {
            Some(rs[k])
        } else {
            None
        },
{
    let image = ring_after(mode, rs);
    let p = k % 64;
    let n = rs.len() as int;
    assert forall|i: int| 0 <= i < DWB_CAPACITY implies (double_write::slot_record(
        #[trigger] double_write::slot_window(image, i),
    ) matches Some(o) ==> (o.header.lsn == rs[k].header.lsn <==> i < n && holder(n, i) == k)) by {
        lemma_ring_slot_gives(mode, rs, i);
        if i < n {
            let h = holder(n, i);
            if h < k {
                assert(rs[h].header.lsn != rs[k].header.lsn);
            } else if h > k {
                assert(rs[k].header.lsn != rs[h].header.lsn);
            }
        }
    }
    if k >= n - DWB_CAPACITY {
        assert(holder(n, p) == k);
        assert(p < n);
        lemma_ring_slot_gives(mode, rs, p);
        assert forall|i: int| 0 <= i < p implies (double_write::slot_record(
            #[trigger] double_write::slot_window(image, i),
        ) matches Some(o) ==> o.header.lsn != rs[k].header.lsn) by {
            if i < n && holder(n, i) == k {
                lemma_ring_slot_gives(mode, rs, i);
            }
        }
        lemma_recovered_at(image, rs[k], p, 0);
    } else {
        lemma_not_recovered(image, rs[k].header.lsn, 0);
    }
}

/// A ring that is opened again, in the same mode or in the other, goes on where
/// the last flush left it.
pub proof fn law_ring_reopens_where_it_was(
    image: Seq<u8>,
    d: DoubleWriteBuffer,
    mode: DwbMode,
)
    requires
        image.len() >= DWB_HEADER_STRIDE,
    ensures
        ({
            let to = double_write::overwritten(
                image,
                0,
                double_write::ring_header_bytes(d.mode, d.count, d.write_pos),
            );
            let again = DoubleWriteBuffer::opened(mode, to);
            again.count == d.count && again.write_pos == d.write_pos
        }),
{
    broadcast use le::group_round_trips;

    let c = double_write::header_content(d.count, d.write_pos);
    let bytes = double_write::ring_header_bytes(d.mode, d.count, d.write_pos);
    let to = double_write::overwritten(image, 0, bytes);
    assert(c.len() == 12);
    assert forall|k: int| 0 <= k < 12 implies to[k] == c[k] by {
        assert(bytes[k] == c[k]);
    }
    assert(to.subrange(0, 4) =~= le::le32(DWB_MAGIC));
    assert(to.subrange(4, 8) =~= le::le32(d.count));
    assert(to.subrange(8, 12) =~= le::le32(d.write_pos));
}

/// What can be recovered from the slots does not depend on the ring's header,
/// which may be stale after a crash.
pub proof fn law_header_leaves_slots_alone(
    image: Seq<u8>,
    mode: DwbMode,
    count: u32,
    write_pos: u32,
    lsn: u64,
)
    ensures
        double_write::recovered_from(
            double_write::overwritten(
                image,
                0,
                double_write::ring_header_bytes(mode, count, write_pos),
            ),
            lsn,
            0,
        ) == double_write::recovered_from(image, lsn, 0),
{
    broadcast use le::group_round_trips;

    let bytes = double_write::ring_header_bytes(mode, count, write_pos);
    assert(double_write::header_content(count, write_pos).len() == 12);
    assert(bytes.len() <= DWB_HEADER_STRIDE);
    lemma_same_slots(image, double_write::overwritten(image, 0, bytes), lsn, 0);
}

/// Files that differ in front of the slots only give the same records.
proof fn lemma_same_slots(a: Seq<u8>, b: Seq<u8>, lsn: u64, i: int)
    requires
        0 <= i <= DWB_CAPACITY,
        a.len() == b.len() || (a.len() <= DWB_HEADER_STRIDE && b.len() <= DWB_HEADER_STRIDE),
        forall|k: int| DWB_HEADER_STRIDE <= k < a.len() ==> a[k] == b[k],
    ensures
        double_write::recovered_from(b, lsn, i) == double_write::recovered_from(a, lsn, i),
    decreases DWB_CAPACITY - i,
{
    if i < DWB_CAPACITY {
        assert(double_write::slot_window(a, i) =~= double_write::slot_window(b, i));
        lemma_same_slots(a, b, lsn, i + 1);
    }
}

} // verus!
