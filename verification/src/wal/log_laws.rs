//! What a log promises: what was written reads back.

use vstd::prelude::*;

use crate::wal::align;
use crate::wal::double_write;
use crate::wal::double_write::{DiskWrite, DwbMode};
use crate::wal::error::WalError;
use crate::wal::le;
use crate::wal::mmap_reader;
use crate::wal::preamble;
use crate::wal::preamble::{SegmentPreamble, PREAMBLE_SIZE};
use crate::wal::record;
use crate::wal::record::{RecordView, ENCRYPTED_FLAG, HEADER_SIZE, MAX_WAL_PAYLOAD_SIZE};
use crate::wal::recovery;
use crate::wal::recovery::RecoveryInfo;
use crate::wal::writer;
use crate::wal::writer::{WalWriter, WalWriterConfig};

verus! {

/// The bytes of records, strung together.
pub open spec fn log_bytes(rs: Seq<RecordView>) -> Seq<u8>
    decreases rs.len(),
{
    if rs.len() == 0 {
        Seq::empty()
    } else {
        log_bytes(rs.drop_last()) + rs.last().bytes()
    }
}

/// How a log starts: with a preamble, if there is one.
pub open spec fn head_bytes(h: Option<SegmentPreamble>) -> Seq<u8> {
    match h {
        Some(p) => preamble::preamble_bytes(p),
        None => Seq::empty(),
    }
}

/// The bytes of a log: its preamble, if it has one, and its records.
pub open spec fn content(h: Option<SegmentPreamble>, rs: Seq<RecordView>) -> Seq<u8> {
    head_bytes(h) + log_bytes(rs)
}

/// A sound record that stands at `off` is what a reader finds there.
proof fn lemma_sound_record_found(data: Seq<u8>, off: int, r: RecordView)
    requires
        0 <= off,
        off + r.bytes().len() <= data.len(),
        data.subrange(off, off + r.bytes().len()) == r.bytes(),
        r.sound(),
    ensures
        r.bytes().len() == HEADER_SIZE + r.payload.len(),
        mmap_reader::found_at(data, off) == (mmap_reader::Found::Record {
            rec: r,
            next: off + r.bytes().len(),
        }),
{
    record::lemma_header_len(r.header);
    let n = r.bytes().len() as int;
    let tail = data.skip(off);
    let rest = tail.skip(HEADER_SIZE as int);
    assert forall|i: int| 0 <= i < HEADER_SIZE implies tail[i] == record::header_bytes(r.header)[i] by {
        assert(data.subrange(off, off + n)[i] == r.bytes()[i]);
    }
    assert(tail =~= record::header_bytes(r.header) + rest);
    record::lemma_header_round_trip(r.header, rest);
    let payload = data.subrange(off + HEADER_SIZE, off + HEADER_SIZE + r.payload.len());
    assert forall|i: int| 0 <= i < r.payload.len() implies payload[i] == r.payload[i] by {
        assert(data.subrange(off, off + n)[HEADER_SIZE + i] == r.bytes()[HEADER_SIZE + i]);
    }
    assert(payload =~= r.payload);
    assert(mmap_reader::record_at(data, off) =~= r);
}

/// The bytes of the first `k` records are how the bytes of all of them start.
proof fn lemma_prefix(rs: Seq<RecordView>, k: int)
    requires
        0 <= k <= rs.len(),
    ensures
        log_bytes(rs.take(k)).len() <= log_bytes(rs).len(),
        log_bytes(rs).take(log_bytes(rs.take(k)).len() as int) == log_bytes(rs.take(k)),
    decreases rs.len(),
{
    if k == rs.len() {
        assert(rs.take(k) =~= rs);
        assert(log_bytes(rs).take(log_bytes(rs).len() as int) =~= log_bytes(rs));
    } else {
        let init = rs.drop_last();
        lemma_prefix(init, k);
        assert(init.take(k) =~= rs.take(k));
        let n = log_bytes(rs.take(k)).len() as int;
        assert(log_bytes(rs).take(n) =~= log_bytes(init).take(n));
    }
}

/// What a writer put into a log, a reader gets out of it: the records, all of
/// them, in order and unchanged, and the log's end where the last one ends.
pub proof fn law_log_reads_back(rs: Seq<RecordView>)
    requires
        forall|i: int| 0 <= i < rs.len() ==> (#[trigger] rs[i]).sound(),
    ensures
        mmap_reader::records_from(log_bytes(rs), 0) == rs,
        mmap_reader::failure_from(log_bytes(rs), 0) is None,
        recovery::end_from(log_bytes(rs), 0) == log_bytes(rs).len(),
{
    lemma_reads_all_before(Seq::empty(), rs, Seq::empty());
    assert(Seq::<u8>::empty() + log_bytes(rs) + Seq::<u8>::empty() =~= log_bytes(rs));
}

/// Writing the buffer at the end of the file puts it behind what is there.
pub proof fn law_flush_extends_file(file: Seq<u8>, bytes: Seq<u8>)
    ensures
        double_write::overwritten(file, file.len() as int, bytes) == file + bytes,
{
    assert(double_write::overwritten(file, file.len() as int, bytes) =~= file + bytes);
}

/// Records that are followed by something which no reader takes for a record.
proof fn lemma_reads_up_to(head: Seq<u8>, rs: Seq<RecordView>, tail: Seq<u8>, k: int)
    requires
        0 <= k <= rs.len(),
        forall|i: int| 0 <= i < rs.len() ==> (#[trigger] rs[i]).sound(),
        mmap_reader::found_at(
            head + log_bytes(rs) + tail,
            (head.len() + log_bytes(rs).len()) as int,
        ) is End,
    ensures
        ({
            let data = head + log_bytes(rs) + tail;
            let off = (head.len() + log_bytes(rs.take(k)).len()) as int;
            &&& mmap_reader::records_from(data, off) == rs.skip(k)
            &&& mmap_reader::failure_from(data, off) is None
            &&& recovery::end_from(data, off) == head.len() + log_bytes(rs).len()
        }),
    decreases rs.len() - k,
{
    let data = head + log_bytes(rs) + tail;
    let off = (head.len() + log_bytes(rs.take(k)).len()) as int;
    lemma_prefix(rs, k);
    if k == rs.len() {
        assert(rs.take(k) =~= rs);
        assert(rs.skip(k) =~= Seq::empty());
    } else {
        let r = rs[k];
        lemma_prefix(rs, k + 1);
        assert(rs.take(k + 1).drop_last() =~= rs.take(k));
        assert(rs.take(k + 1).last() == r);
        let before = log_bytes(rs.take(k)).len() as int;
        let next = log_bytes(rs.take(k + 1)).len() as int;
        assert(data.subrange(off, off + r.bytes().len()) =~= r.bytes()) by {
            let p = log_bytes(rs.take(k + 1));
            assert forall|i: int| 0 <= i < r.bytes().len() implies data[off + i] == r.bytes()[i] by {
                assert(log_bytes(rs).take(next)[before + i] == p[before + i]);
            }
        }
        lemma_sound_record_found(data, off, r);
        lemma_reads_up_to(head, rs, tail, k + 1);
        assert(seq![r] + rs.skip(k + 1) =~= rs.skip(k));
    }
}

/// What follows the records is what a reader finds behind them.
proof fn lemma_reads_all_before(head: Seq<u8>, rs: Seq<RecordView>, tail: Seq<u8>)
    requires
        forall|i: int| 0 <= i < rs.len() ==> (#[trigger] rs[i]).sound(),
        mmap_reader::found_at(
            head + log_bytes(rs) + tail,
            (head.len() + log_bytes(rs).len()) as int,
        ) is End,
    ensures
        ({
            let data = head + log_bytes(rs) + tail;
            let off = head.len() as int;
            &&& mmap_reader::records_from(data, off) == rs
            &&& mmap_reader::failure_from(data, off) is None
            &&& recovery::end_from(data, off) == off + log_bytes(rs).len()
        }),
{
    lemma_reads_up_to(head, rs, tail, 0);
    assert(log_bytes(rs.take(0)) =~= Seq::empty());
    assert(rs.skip(0) =~= rs);
}

/// A record that is cut off at the end of a log, after any number of its
/// bytes, does not hide the records before it, and the log ends in front of it.
pub proof fn law_torn_tail_keeps_prefix(rs: Seq<RecordView>, torn: RecordView, n: int)
    requires
        forall|i: int| 0 <= i < rs.len() ==> (#[trigger] rs[i]).sound(),
        torn.sound(),
        0 <= n < torn.bytes().len(),
    ensures
        mmap_reader::records_from(log_bytes(rs) + torn.bytes().take(n), 0) == rs,
        mmap_reader::failure_from(log_bytes(rs) + torn.bytes().take(n), 0) is None,
        recovery::end_from(log_bytes(rs) + torn.bytes().take(n), 0) == log_bytes(rs).len(),
{
    let tail = torn.bytes().take(n);
    let data = log_bytes(rs) + tail;
    let off = log_bytes(rs).len() as int;
    record::lemma_header_len(torn.header);
    if n >= HEADER_SIZE {
        assert(data.skip(off) =~= record::header_bytes(torn.header) + tail.skip(
            HEADER_SIZE as int,
        ));
        record::lemma_header_round_trip(torn.header, tail.skip(HEADER_SIZE as int));
    }
    assert(Seq::<u8>::empty() + log_bytes(rs) + tail =~= data);
    lemma_reads_all_before(Seq::empty(), rs, tail);
}

/// A record whose content does not match its checksum ends a log, whatever
/// follows it; the records before it are not affected.
pub proof fn law_corrupt_record_ends_log(rs: Seq<RecordView>, bad: RecordView, rest: Seq<u8>)
    requires
        forall|i: int| 0 <= i < rs.len() ==> (#[trigger] rs[i]).sound(),
        bad.header.payload_len == bad.payload.len(),
        !bad.intact(),
    ensures
        mmap_reader::records_from(log_bytes(rs) + (bad.bytes() + rest), 0) == rs,
        mmap_reader::failure_from(log_bytes(rs) + (bad.bytes() + rest), 0) is None,
{
    let tail = bad.bytes() + rest;
    let data = log_bytes(rs) + tail;
    let off = log_bytes(rs).len() as int;
    record::lemma_header_len(bad.header);
    assert(data.skip(off) =~= record::header_bytes(bad.header) + (bad.payload + rest));
    record::lemma_header_round_trip(bad.header, bad.payload + rest);
    assert(data.subrange(off + HEADER_SIZE, off + HEADER_SIZE + bad.payload.len())
        =~= bad.payload);
    assert(mmap_reader::record_at(data, off) =~= bad);
    assert(Seq::<u8>::empty() + log_bytes(rs) + tail =~= data);
    lemma_reads_all_before(Seq::empty(), rs, tail);
}

/// Zeros that fill a log up to whole blocks read as its end. A preamble in front
/// of the records is stepped over.
pub proof fn law_padding_reads_as_end(h: Option<SegmentPreamble>, rs: Seq<RecordView>, n: int)
    requires
        forall|i: int| 0 <= i < rs.len() ==> (#[trigger] rs[i]).sound(),
        n >= content(h, rs).len(),
    ensures
        ({
            let data = align::padded(content(h, rs), n);
            &&& preamble::records_start(data) == head_bytes(h).len()
            &&& recovery::log_records(data) == rs
            &&& recovery::log_failure(data) is None
            &&& recovery::log_end(data) == content(h, rs).len()
        }),
{
    let head = head_bytes(h);
    let tail = Seq::new((n - content(h, rs).len()) as nat, |i: int| 0u8);
    let data = head + log_bytes(rs) + tail;
    let off = (head.len() + log_bytes(rs).len()) as int;
    assert(align::padded(content(h, rs), n) =~= data);
    if tail.len() >= HEADER_SIZE {
        le::lemma_zeros32(data.skip(off).subrange(0, 4));
    }
    lemma_reads_all_before(head, rs, tail);
    match h {
        Some(p) => {
            lemma_preamble_len(p);
            le::lemma_round_trip32(preamble::PREAMBLE_MAGIC);
            assert(data.subrange(0, 4) =~= le::le32(preamble::PREAMBLE_MAGIC));
        },
        None => {
            if rs.len() == 0 {
                assert(log_bytes(rs) =~= Seq::empty());
                if data.len() >= PREAMBLE_SIZE {
                    le::lemma_zeros32(data.subrange(0, 4));
                }
            } else {
                assert(mmap_reader::records_from(data, 0).len() > 0);
                assert(data.skip(0) =~= data);
                assert(record::parsed_header(data.skip(0)).readable());
            }
        },
    }
}

/// A preamble has the size that it should have.
proof fn lemma_preamble_len(p: SegmentPreamble)
    ensures
        preamble::preamble_bytes(p).len() == PREAMBLE_SIZE,
{
    broadcast use le::group_round_trips;

}

/// Whether a writer and the file that it writes to hold a log between them: its
/// preamble, if it has one, and the records `rs`, in order, each with a higher
/// number than the one before it. What the file holds beyond that is zeros.
pub open spec fn in_log(
    w: WalWriter,
    file: Seq<u8>,
    h: Option<SegmentPreamble>,
    rs: Seq<RecordView>,
) -> bool {
    &&& w.file_offset <= file.len()
    &&& file.take(w.file_offset as int) + w.buffer@ == content(h, rs)
    &&& forall|i: int| w.file_offset + w.buffer@.len() <= i < file.len() ==> file[i] == 0
    &&& forall|i: int, j: int| 0 <= i < j < rs.len() ==> rs[i].header.lsn < rs[j].header.lsn
    &&& forall|i: int| 0 <= i < rs.len() ==> (#[trigger] rs[i]).header.lsn < w.next_lsn
}

/// The file after a write.
pub open spec fn written(file: Seq<u8>, w: Option<DiskWrite>) -> Seq<u8> {
    match w {
        Some(w) => double_write::overwritten(file, w.offset as int, w.bytes@),
        None => file,
    }
}

/// A preamble that is set on an empty log is how the log starts.
pub proof fn law_preamble_opens_log(w: WalWriter, p: SegmentPreamble)
    requires
        w.file_offset == 0,
        w.buffer@ == preamble::preamble_bytes(p),
    ensures
        in_log(w, Seq::empty(), Some(p), Seq::empty()),
{
    assert(log_bytes(Seq::empty()) =~= Seq::<u8>::empty());
    assert(Seq::<u8>::empty().take(0) + w.buffer@ =~= content(Some(p), Seq::empty()));
}

/// Writing the buffer out changes nothing of a log. A block that direct I/O had
/// to write before it was full stays in the buffer.
proof fn lemma_flush_keeps_log(
    w: WalWriter,
    to: WalWriter,
    file: Seq<u8>,
    h: Option<SegmentPreamble>,
    rs: Seq<RecordView>,
    write: DiskWrite,
)
    requires
        w.wf(),
        in_log(w, file, h, rs),
        write.offset == w.file_offset,
        write.bytes@ == w.flush_bytes(),
        w.emptied(&to),
    ensures
        in_log(to, written(file, Some(write)), h, rs),
{
    let after = written(file, Some(write));
    let off = w.file_offset as int;
    let len = w.buffer@.len() as int;
    let full = len - w.unfilled();
    if w.config.use_direct_io {
        align::lemma_rounded_up(len, w.config.alignment as int);
        align::lemma_rounded_up_rest(len, w.config.alignment as int);
    }
    assert(after.take(off + full) + w.buffer@.skip(full) =~= file.take(off) + w.buffer@);
}

/// An append that is carried through puts its record behind those that are
/// there and changes nothing of them, whether or not the buffer had to be
/// emptied for it; one that is refused changes nothing. `numbered` is the
/// writer after `append`, `ready` after the flush that it asked for, if it
/// asked for one, and `to` after `commit_append`.
pub proof fn law_append_extends_log(
    from: WalWriter,
    numbered: WalWriter,
    ready: WalWriter,
    to: WalWriter,
    file: Seq<u8>,
    h: Option<SegmentPreamble>,
    rs: Seq<RecordView>,
    flush: Option<DiskWrite>,
    rec: RecordView,
    r: Result<u64, WalError>,
)
    requires
        from.wf(),
        in_log(from, file, h, rs),
        !from.sealed,
        from.numbered(&numbered),
        rec.header.lsn == from.next_lsn,
        match flush {
            Some(w) => {
                &&& w.offset == from.file_offset
                &&& w.bytes@ == from.flush_bytes()
                &&& numbered.emptied(&ready)
            },
            None => ready == numbered,
        },
        ready.taken(rec, &to, r),
    ensures
        in_log(
            to,
            written(file, flush),
            h,
            if r is Ok {
                rs.push(rec)
            } else {
                rs
            },
        ),
{
    let after = written(file, flush);
    if let Some(w) = flush {
        assert(in_log(numbered, file, h, rs));
        assert(from.flush_bytes() == numbered.flush_bytes());
        assert(numbered.wf());
        lemma_flush_keeps_log(numbered, ready, file, h, rs, w);
    }
    assert(after.take(ready.file_offset as int) + ready.buffer@ =~= content(h, rs));
    if r is Ok {
        let more = rs.push(rec);
        assert(more.drop_last() =~= rs);
        assert(content(h, more) =~= content(h, rs) + rec.bytes());
        assert(after.take(to.file_offset as int) + to.buffer@ =~= after.take(
            ready.file_offset as int,
        ) + ready.buffer@ + rec.bytes());
        assert(after.take(to.file_offset as int) + to.buffer@ =~= content(h, more));
    }
}

/// A record of a known type, as `append` makes it, is one that a reader takes.
pub proof fn law_appended_records_are_sound(
    record_type: u32,
    lsn: u64,
    tenant_id: u64,
    vshard_id: u32,
    database_id: u64,
    payload: Seq<u8>,
)
    requires
        payload.len() <= MAX_WAL_PAYLOAD_SIZE,
        record::known_type(record_type & !ENCRYPTED_FLAG),
    ensures
        RecordView::fresh(record_type, lsn, tenant_id, vshard_id, database_id, payload).sound(),
{
    record::lemma_fresh_intact(record_type, lsn, tenant_id, vshard_id, database_id, payload);
}

/// A sync puts all records into the file, from which they read back: all of
/// them, in order and unchanged. With direct I/O this includes a last block
/// that is filled up. The log goes on behind its last record: `to` is the writer
/// after the sync.
pub proof fn law_synced_log_reads_back(
    w: WalWriter,
    to: WalWriter,
    file: Seq<u8>,
    h: Option<SegmentPreamble>,
    rs: Seq<RecordView>,
    write: DiskWrite,
)
    requires
        w.wf(),
        in_log(w, file, h, rs),
        forall|i: int| 0 <= i < rs.len() ==> (#[trigger] rs[i]).sound(),
        write.offset == w.file_offset,
        write.bytes@ == w.flush_bytes(),
        w.emptied(&to),
    ensures
        ({
            let after = written(file, Some(write));
            &&& preamble::records_start(after) == head_bytes(h).len()
            &&& recovery::log_records(after) == rs
            &&& recovery::log_failure(after) is None
            &&& recovery::log_end(after) == content(h, rs).len()
            &&& in_log(to, after, h, rs)
        }),
{
    lemma_flush_keeps_log(w, to, file, h, rs, write);
    let after = written(file, Some(write));
    let n = after.len() as int;
    let off = w.file_offset as int;
    let all = content(h, rs);
    assert(all.len() == off + w.buffer@.len());
    if w.config.use_direct_io {
        align::lemma_rounded_up(w.buffer@.len() as int, w.buffer.spec_alignment());
    }
    assert forall|i: int| 0 <= i < n implies after[i] == align::padded(all, n)[i] by {
        if i < off {
            assert(all[i] == file.take(off)[i]);
        } else if i < all.len() {
            assert(all[i] == w.buffer@[i - off]);
        }
    }
    assert(after =~= align::padded(all, n));
    law_padding_reads_as_end(h, rs, n);
}

/// A log that is opened again goes on behind its last record, with the next
/// number, whether its file ends there or is filled up to whole blocks.
pub proof fn law_reopened_log_goes_on(
    w: WalWriter,
    file: Seq<u8>,
    h: Option<SegmentPreamble>,
    rs: Seq<RecordView>,
    n: int,
)
    requires
        w.wf(),
        forall|i: int| 0 <= i < rs.len() ==> (#[trigger] rs[i]).sound(),
        forall|i: int, j: int| 0 <= i < j < rs.len() ==> rs[i].header.lsn < rs[j].header.lsn,
        n >= content(h, rs).len(),
        file == align::padded(content(h, rs), n),
        w.takes_up(file),
    ensures
        in_log(w, file, h, rs),
{
    law_padding_reads_as_end(h, rs, n);
    let all = content(h, rs);
    let end = all.len() as int;
    let off = w.file_offset as int;
    if w.config.use_direct_io {
        vstd::arithmetic::div_mod::lemma_mod_bound(end, w.config.alignment as int);
        vstd::arithmetic::div_mod::lemma_mod_decreases(
            end as nat,
            w.config.alignment as nat,
        );
    }
    assert(w.buffer@ =~= file.subrange(off, end));
    assert(file.take(off) + w.buffer@ =~= all);
}

/// Reading goes on behind sound records with what stands there.
proof fn lemma_reads_on(rs: Seq<RecordView>, tail: Seq<u8>, k: int)
    requires
        0 <= k <= rs.len(),
        forall|i: int| 0 <= i < rs.len() ==> (#[trigger] rs[i]).sound(),
    ensures
        ({
            let data = log_bytes(rs) + tail;
            let off = log_bytes(rs.take(k)).len() as int;
            let end = log_bytes(rs).len() as int;
            &&& mmap_reader::records_from(data, off) == rs.skip(k) + mmap_reader::records_from(
                data,
                end,
            )
            &&& mmap_reader::failure_from(data, off) == mmap_reader::failure_from(data, end)
        }),
    decreases rs.len() - k,
{
    let data = log_bytes(rs) + tail;
    let off = log_bytes(rs.take(k)).len() as int;
    let end = log_bytes(rs).len() as int;
    lemma_prefix(rs, k);
    if k == rs.len() {
        assert(rs.take(k) =~= rs);
        assert(rs.skip(k) + mmap_reader::records_from(data, end) =~= mmap_reader::records_from(
            data,
            end,
        ));
    } else {
        let r = rs[k];
        lemma_prefix(rs, k + 1);
        assert(rs.take(k + 1).drop_last() =~= rs.take(k));
        assert(rs.take(k + 1).last() == r);
        let next = log_bytes(rs.take(k + 1)).len() as int;
        assert(data.subrange(off, off + r.bytes().len()) =~= r.bytes()) by {
            let p = log_bytes(rs.take(k + 1));
            assert forall|i: int| 0 <= i < r.bytes().len() implies data[off + i] == r.bytes()[i] by {
                assert(log_bytes(rs).take(next)[off + i] == p[off + i]);
            }
        }
        lemma_sound_record_found(data, off, r);
        lemma_reads_on(rs, tail, k + 1);
        assert(seq![r] + (rs.skip(k + 1) + mmap_reader::records_from(data, end)) =~= rs.skip(k)
            + mmap_reader::records_from(data, end));
    }
}

/// What a reader finds where an intact record stands whose type it does not know.
proof fn lemma_unknown_record_found(data: Seq<u8>, off: int, r: RecordView)
    requires
        0 <= off,
        off + r.bytes().len() <= data.len(),
        data.subrange(off, off + r.bytes().len()) == r.bytes(),
        r.header.readable(),
        r.header.payload_len == r.payload.len(),
        r.intact(),
        !record::known_type(r.logical_type()),
    ensures
        r.bytes().len() == HEADER_SIZE + r.payload.len(),
        mmap_reader::found_at(data, off) == if r.logical_type() & 0x8000 != 0 {
            mmap_reader::Found::Required {
                record_type: r.header.record_type,
                lsn: r.header.lsn,
                next: off + r.bytes().len(),
            }
        } else {
            mmap_reader::Found::Optional { next: off + r.bytes().len() }
        },
{
    record::lemma_header_len(r.header);
    let n = r.bytes().len() as int;
    let tail = data.skip(off);
    let rest = tail.skip(HEADER_SIZE as int);
    assert forall|i: int| 0 <= i < HEADER_SIZE implies tail[i] == record::header_bytes(r.header)[i] by {
        assert(data.subrange(off, off + n)[i] == r.bytes()[i]);
    }
    assert(tail =~= record::header_bytes(r.header) + rest);
    record::lemma_header_round_trip(r.header, rest);
    let payload = data.subrange(off + HEADER_SIZE, off + HEADER_SIZE + r.payload.len());
    assert forall|i: int| 0 <= i < r.payload.len() implies payload[i] == r.payload[i] by {
        assert(data.subrange(off, off + n)[HEADER_SIZE + i] == r.bytes()[HEADER_SIZE + i]);
    }
    assert(payload =~= r.payload);
    assert(mmap_reader::record_at(data, off) =~= r);
}

/// An intact record of a type that is not known and not marked as required is
/// passed over: the records before and behind it read as if it were not there.
pub proof fn law_optional_record_is_passed_over(
    rs: Seq<RecordView>,
    unknown: RecordView,
    more: Seq<RecordView>,
)
    requires
        forall|i: int| 0 <= i < rs.len() ==> (#[trigger] rs[i]).sound(),
        forall|i: int| 0 <= i < more.len() ==> (#[trigger] more[i]).sound(),
        unknown.header.readable(),
        unknown.header.payload_len == unknown.payload.len(),
        unknown.intact(),
        !record::known_type(unknown.logical_type()),
        unknown.logical_type() & 0x8000 == 0,
    ensures
        mmap_reader::records_from(log_bytes(rs) + (unknown.bytes() + log_bytes(more)), 0) == rs
            + more,
        mmap_reader::failure_from(log_bytes(rs) + (unknown.bytes() + log_bytes(more)), 0) is None,
{
    let tail = unknown.bytes() + log_bytes(more);
    let data = log_bytes(rs) + tail;
    let off = log_bytes(rs).len() as int;
    lemma_reads_on(rs, tail, 0);
    assert(log_bytes(rs.take(0)) =~= Seq::empty());
    assert(rs.skip(0) =~= rs);
    assert(data.subrange(off, off + unknown.bytes().len()) =~= unknown.bytes());
    lemma_unknown_record_found(data, off, unknown);
    let head = log_bytes(rs) + unknown.bytes();
    assert(head + log_bytes(more) + Seq::<u8>::empty() =~= data);
    lemma_reads_all_before(head, more, Seq::empty());
}

/// An intact record of a type that is not known and marked as required ends a
/// log with an error that names it; the records before it are read.
pub proof fn law_required_record_is_not_passed_over(
    rs: Seq<RecordView>,
    unknown: RecordView,
    rest: Seq<u8>,
)
    requires
        forall|i: int| 0 <= i < rs.len() ==> (#[trigger] rs[i]).sound(),
        unknown.header.readable(),
        unknown.header.payload_len == unknown.payload.len(),
        unknown.intact(),
        !record::known_type(unknown.logical_type()),
        unknown.logical_type() & 0x8000 != 0,
    ensures
        mmap_reader::records_from(log_bytes(rs) + (unknown.bytes() + rest), 0) == rs,
        mmap_reader::failure_from(log_bytes(rs) + (unknown.bytes() + rest), 0) == Some(
            WalError::UnknownRequiredRecordType {
                record_type: unknown.header.record_type,
                lsn: unknown.header.lsn,
            },
        ),
{
    let tail = unknown.bytes() + rest;
    let data = log_bytes(rs) + tail;
    let off = log_bytes(rs).len() as int;
    lemma_reads_on(rs, tail, 0);
    assert(log_bytes(rs.take(0)) =~= Seq::empty());
    assert(rs.skip(0) =~= rs);
    assert(data.subrange(off, off + unknown.bytes().len()) =~= unknown.bytes());
    lemma_unknown_record_found(data, off, unknown);
    assert(rs + Seq::<RecordView>::empty() =~= rs);
}

/// A record gets the log's next number, and the one behind it is the next; a
/// sealed log gives out none.
pub proof fn law_records_are_numbered_in_turn(from: WalWriter, to: WalWriter)
    requires
        from.numbered(&to),
    ensures
        !from.sealed ==> to.next_lsn == from.next_lsn + 1,
        from.sealed ==> to.next_lsn == from.next_lsn,
        to.buffer@ == from.buffer@,
        to.file_offset == from.file_offset,
{
}

/// A record that fits the write buffer as it was asked for is taken, whatever
/// the buffer holds already, and its bytes go behind what is there. The room is
/// the size that was asked for, rounded up to whole blocks.
pub proof fn law_fitting_record_is_taken(
    from: WalWriter,
    rec: RecordView,
    to: WalWriter,
    r: Result<u64, WalError>,
)
    requires
        from.wf(),
        from.taken(rec, &to, r),
    ensures
        46 + rec.payload.len() <= from.config.write_buffer_size ==> r == Ok::<u64, WalError>(
            rec.header.lsn,
        ) && to.buffer@ == from.buffer@ + rec.bytes(),
        46 + rec.payload.len() >= from.config.write_buffer_size + from.config.alignment ==> r
            is Err,
        r matches Ok(lsn) ==> lsn == rec.header.lsn && to.buffer@ == from.buffer@ + rec.bytes(),
        r matches Err(e) ==> to.buffer@ == from.buffer@ && e is PayloadTooLarge,
        to.next_lsn == from.next_lsn,
        to.config == from.config,
        to.segment_preamble == from.segment_preamble,
        to.sealed == from.sealed,
        to.double_write == from.double_write,
{
    align::lemma_rounded_up(
        from.config.write_buffer_size as int,
        from.config.alignment as int,
    );
}

/// Records are stored under their own type, and with encryption on under that
/// type with its top bit set, from which it comes back.
pub proof fn law_stored_type_keeps_the_type(w: WalWriter, record_type: u32)
    requires
        record_type < 0x8000_0000,
    ensures
        w.segment_preamble is None ==> w.stored_type(record_type) == record_type,
        w.segment_preamble is Some ==> w.stored_type(record_type) == record_type + 0x8000_0000,
        w.stored_type(record_type) & 0x7FFF_FFFF == record_type,
{
    assert(record_type < 0x8000_0000u32 ==> record_type | 0x8000_0000u32 == record_type
        + 0x8000_0000u32) by (bit_vector);
    assert(record_type < 0x8000_0000u32 ==> (record_type | 0x8000_0000u32) & 0x7FFF_FFFFu32
        == record_type) by (bit_vector);
    assert(record_type < 0x8000_0000u32 ==> record_type & 0x7FFF_FFFFu32 == record_type)
        by (bit_vector);
}

/// A double-write buffer is kept in the mode that is asked for; without one
/// asked for, in the mode in which the log itself is written.
pub proof fn law_buffer_mode_follows_the_log(config: WalWriterConfig)
    ensures
        config.dwb_mode matches Some(m) ==> writer::resolved_mode(config) == m,
        config.dwb_mode is None && config.use_direct_io ==> writer::resolved_mode(config)
            == DwbMode::Direct,
        config.dwb_mode is None && !config.use_direct_io ==> writer::resolved_mode(config)
            == DwbMode::Buffered,
{
}

/// What a log has taken and not written yet is pending: with plain I/O all that
/// the buffer holds, with direct I/O what follows a block that was written before
/// it was full. A record that was taken is.
pub proof fn law_taken_record_is_pending(
    from: WalWriter,
    rec: RecordView,
    to: WalWriter,
    r: Result<u64, WalError>,
)
    requires
        from.wf(),
        from.taken(rec, &to, r),
        r is Ok,
    ensures
        to.pending() == from.pending() + 46 + rec.payload.len(),
        to.pending() > 0,
        !from.config.use_direct_io ==> from.pending() == from.buffer@.len(),
{
    record::lemma_header_len(rec.header);
}

/// A scan of a log that was written, and filled up with zeros or not, finds the
/// number of its last record and where that one ends.
pub proof fn law_scan_finds_the_end(
    h: Option<SegmentPreamble>,
    rs: Seq<RecordView>,
    n: int,
    r: Result<RecoveryInfo, WalError>,
)
    requires
        forall|i: int| 0 <= i < rs.len() ==> (#[trigger] rs[i]).sound(),
        n >= content(h, rs).len(),
        recovery::recovered(align::padded(content(h, rs), n), r),
    ensures
        r matches Ok(info) && info.end_offset == content(h, rs).len() && (rs.len() > 0
            ==> info.last_lsn == rs[rs.len() - 1].header.lsn) && (rs.len() == 0 ==> info.last_lsn
            == 0),
{
    law_padding_reads_as_end(h, rs, n);
}

/// After its buffer was written a log has nothing pending, and neither has one
/// that was taken up from its file.
pub proof fn law_nothing_is_pending_after_a_flush(
    from: WalWriter,
    flushed: WalWriter,
    opened: WalWriter,
    file: Seq<u8>,
)
    requires
        from.wf(),
        from.emptied(&flushed),
        opened.takes_up(file),
    ensures
        flushed.pending() == 0,
        flushed.next_lsn == from.next_lsn,
        flushed.file_offset + flushed.buffer@.len() == from.file_offset + from.buffer@.len(),
        opened.pending() == 0,
{
    if from.config.use_direct_io {
        vstd::arithmetic::div_mod::lemma_mod_bound(
            from.buffer@.len() as int,
            from.config.alignment as int,
        );
        vstd::arithmetic::div_mod::lemma_mod_decreases(
            from.buffer@.len(),
            from.config.alignment as nat,
        );
    }
}

} // verus!
