//! Replay of a log that is cut into segments.

use vstd::prelude::*;

use crate::wal::error::WalError;
use crate::wal::mmap_reader;
use crate::wal::mmap_reader::MmapWalReader;
use crate::wal::record::{RecordView, WalRecord};
use crate::wal::recovery;

verus! {

/// Number of segments from which reading them side by side pays off.
pub const PARALLEL_SEGMENT_THRESHOLD: usize = 4;

/// One segment: the first sequence number in it, and its bytes.
pub struct Segment<'a> {
    pub first_lsn: u64,
    pub data: &'a [u8],
}

/// The records of `rs` that are not older than `from_lsn`, in order.
pub open spec fn not_before(rs: Seq<RecordView>, from_lsn: u64) -> Seq<RecordView>
    decreases rs.len(),
{
    if rs.len() == 0 {
        Seq::empty()
    } else {
        let init = not_before(rs.drop_last(), from_lsn);
        if rs.last().header.lsn >= from_lsn {
            init.push(rs.last())
        } else {
            init
        }
    }
}

/// Selection goes piece by piece.
pub proof fn lemma_not_before_concat(a: Seq<RecordView>, b: Seq<RecordView>, from_lsn: u64)
    ensures
        not_before(a + b, from_lsn) == not_before(a, from_lsn) + not_before(b, from_lsn),
    decreases b.len(),
{
    if b.len() == 0 {
        assert(a + b =~= a);
        assert(not_before(a, from_lsn) + not_before(b, from_lsn) =~= not_before(a, from_lsn));
    } else {
        assert((a + b).drop_last() =~= a + b.drop_last());
        assert((a + b).last() == b.last());
        lemma_not_before_concat(a, b.drop_last(), from_lsn);
        assert(not_before(a + b, from_lsn) =~= not_before(a, from_lsn) + not_before(b, from_lsn));
    }
}

/// The records of one segment that are not older than `from_lsn`.
pub open spec fn kept(seg: Segment, from_lsn: u64) -> Seq<RecordView> {
    not_before(recovery::log_records(seg.data@), from_lsn)
}

/// The error that ends one segment, if one does.
pub open spec fn failure(seg: Segment) -> Option<WalError> {
    recovery::log_failure(seg.data@)
}

/// The records of a run of segments, up to the first error.
pub open spec fn stream(segs: Seq<Segment>, from_lsn: u64) -> Seq<RecordView>
    decreases segs.len(),
{
    if segs.len() == 0 {
        Seq::empty()
    } else if failure(segs[0]) is Some {
        kept(segs[0], from_lsn)
    } else {
        kept(segs[0], from_lsn) + stream(segs.skip(1), from_lsn)
    }
}

/// The first error in a run of segments, if there is one.
pub open spec fn stream_failure(segs: Seq<Segment>) -> Option<WalError>
    decreases segs.len(),
{
    if segs.len() == 0 {
        None
    } else if failure(segs[0]) is Some {
        failure(segs[0])
    } else {
        stream_failure(segs.skip(1))
    }
}

/// Index of the first segment that may hold records from `from_lsn` on: a
/// segment reaches up to where the next one starts, the last one has no end.
pub open spec fn live_start(segs: Seq<Segment>, from_lsn: u64) -> int
    decreases segs.len(),
{
    if segs.len() <= 1 || segs[1].first_lsn > from_lsn {
        0
    } else {
        1 + live_start(segs.skip(1), from_lsn)
    }
}

/// The segments that may hold records from `from_lsn` on.
pub open spec fn live(segs: Seq<Segment>, from_lsn: u64) -> Seq<Segment> {
    segs.skip(live_start(segs, from_lsn))
}

/// `live_start` stays inside.
pub proof fn lemma_live_start(segs: Seq<Segment>, from_lsn: u64)
    ensures
        0 <= live_start(segs, from_lsn) <= segs.len(),
        segs.len() > 0 ==> live_start(segs, from_lsn) < segs.len(),
        forall|i: int|
            0 <= i < live_start(segs, from_lsn) ==> (#[trigger] segs[i + 1]).first_lsn <= from_lsn,
        live_start(segs, from_lsn) + 1 < segs.len() ==> segs[live_start(segs, from_lsn)
            + 1].first_lsn > from_lsn,
    decreases segs.len(),
{
    if segs.len() > 1 && segs[1].first_lsn <= from_lsn {
        let t = segs.skip(1);
        lemma_live_start(t, from_lsn);
        let n = live_start(t, from_lsn);
        assert forall|i: int| 0 <= i < n + 1 implies (#[trigger] segs[i + 1]).first_lsn
            <= from_lsn by {
            if i > 0 {
                assert(t[(i - 1) + 1] == segs[i + 1]);
            }
        }
        if n + 1 < t.len() {
            assert(t[n + 1] == segs[n + 2]);
        }
    }
}

/// The segments whose range may hold records from `from_lsn` on. A segment is
/// passed over when the next one starts at or below `from_lsn`; the last one
/// never is.
pub fn filter_segments_by_lsn<'s, 'a>(
    segments: &'s [Segment<'a>],
    from_lsn: u64,
) -> (r: &'s [Segment<'a>])
    ensures
        r@ == live(segments@, from_lsn),
{
    let mut start: usize = 0;
    assert(segments@.skip(0) =~= segments@);
    while segments.len() - start > 1 && segments[start + 1].first_lsn <= from_lsn
        invariant
            start <= segments@.len(),
            live_start(segments@, from_lsn) == start + live_start(
                segments@.skip(start as int),
                from_lsn,
            ),
        decreases segments@.len() - start,
    {
        proof {
            let t = segments@.skip(start as int);
            assert(t[1] == segments@[start + 1]);
            assert(t.skip(1) =~= segments@.skip(start + 1));
        }
        start = start + 1;
    }
    proof {
        let t = segments@.skip(start as int);
        if t.len() > 1 {
            assert(t[1] == segments@[start + 1]);
        }
        assert(live_start(t, from_lsn) == 0);
    }
    let r = vstd::slice::slice_subrange(segments, start, segments.len());
    assert(r@ =~= segments@.skip(start as int));
    r
}

/// The records of one segment that are not older than `from_lsn`.
pub fn segment_records(data: &[u8], from_lsn: u64) -> (r: Result<Vec<WalRecord>, WalError>)
    ensures
        match recovery::log_failure(data@) {
            Some(e) => r == Err::<Vec<WalRecord>, WalError>(e),
            None => r matches Ok(v) && mmap_reader::records_view(v@) == not_before(
                recovery::log_records(data@),
                from_lsn,
            ),
        },
{
    let mut out: Vec<WalRecord> = Vec::new();
    let reader = MmapWalReader::open(data);
    let all = match reader.records() {
        Ok(v) => v,
        Err(e) => return Err(e),
    };
    let ghost rs = mmap_reader::records_view(all@);
    let mut i: usize = 0;
    assert(mmap_reader::records_view(out@) =~= Seq::empty());
    while i < all.len()
        invariant
            i <= all@.len(),
            rs == mmap_reader::records_view(all@),
            mmap_reader::records_view(out@) == not_before(rs.take(i as int), from_lsn),
        decreases all@.len() - i,
    {
        proof {
            assert(rs.take(i + 1).drop_last() =~= rs.take(i as int));
            assert(rs.take(i + 1).last() == all@[i as int]@);
        }
        if all[i].header.lsn >= from_lsn {
            let ghost before = out@;
            let rec = all[i].clone();
            out.push(rec);
            assert(mmap_reader::records_view(out@) =~= mmap_reader::records_view(before).push(
                rec@,
            ));
        }
        i = i + 1;
    }
    assert(rs.take(i as int) =~= rs);
    Ok(out)
}

/// Strings the results of consecutive segments together. The first error, in
/// the order of the segments, is the result.
pub fn merge_segments(
    results: Vec<Result<Vec<WalRecord>, WalError>>,
) -> (r: Result<Vec<WalRecord>, WalError>)
    ensures
        match merged_failure(results@) {
            Some(e) => r == Err::<Vec<WalRecord>, WalError>(e),
            None => r matches Ok(v) && mmap_reader::records_view(v@) == merged_records(results@),
        },
{
    let mut out: Vec<WalRecord> = Vec::new();
    let mut rest = results;
    let ghost all = results@;
    assert(mmap_reader::records_view(out@) =~= Seq::empty());
    assert(all.skip(0) =~= all);
    let ghost mut n: int = 0;
    while rest.len() > 0
        invariant
            0 <= n <= all.len(),
            all == results@,
            rest@ == all.skip(n),
            merged_failure(all) == merged_failure(rest@),
            merged_records(all) =~= mmap_reader::records_view(out@) + merged_records(rest@),
        decreases rest@.len(),
    {
        let ghost before = rest@;
        let head = rest.remove(0);
        proof {
            assert(rest@ =~= before.skip(1));
            assert(rest@ =~= all.skip(n + 1));
            n = n + 1;
        }
        match head {
            Ok(mut v) => {
                proof {
                    assert(mmap_reader::records_view(out@ + v@) =~= mmap_reader::records_view(out@)
                        + mmap_reader::records_view(v@));
                }
                out.append(&mut v);
            },
            Err(e) => {
                return Err(e);
            },
        }
    }
    Ok(out)
}

/// The first error among results, if there is one.
pub open spec fn merged_failure(rs: Seq<Result<Vec<WalRecord>, WalError>>) -> Option<WalError>
    decreases rs.len(),
{
    if rs.len() == 0 {
        None
    } else {
        match rs[0] {
            Err(e) => Some(e),
            Ok(_) => merged_failure(rs.skip(1)),
        }
    }
}

/// The records of results, strung together.
pub open spec fn merged_records(rs: Seq<Result<Vec<WalRecord>, WalError>>) -> Seq<RecordView>
    decreases rs.len(),
{
    if rs.len() == 0 {
        Seq::empty()
    } else {
        (match rs[0] {
            Err(_) => Seq::<RecordView>::empty(),
            Ok(v) => mmap_reader::records_view(v@),
        }) + merged_records(rs.skip(1))
    }
}

/// Whether `r` is what replay of `segs` owes.
pub open spec fn replayed(
    segs: Seq<Segment>,
    from_lsn: u64,
    r: Result<Vec<WalRecord>, WalError>,
) -> bool {
    match stream_failure(segs) {
        Some(e) => r == Err::<Vec<WalRecord>, WalError>(e),
        None => r matches Ok(v) && mmap_reader::records_view(v@) == stream(segs, from_lsn),
    }
}

/// Reads segments one after the other.
pub fn replay_segments_sequential(
    segments: &[Segment],
    from_lsn: u64,
) -> (r: Result<Vec<WalRecord>, WalError>)
    ensures
        replayed(segments@, from_lsn, r),
{
    let mut out: Vec<WalRecord> = Vec::new();
    let mut i: usize = 0;
    assert(mmap_reader::records_view(out@) =~= Seq::empty());
    assert(segments@.skip(0) =~= segments@);
    while i < segments.len()
        invariant
            i <= segments@.len(),
            stream_failure(segments@) == stream_failure(segments@.skip(i as int)),
            stream_failure(segments@) is None ==> stream(segments@, from_lsn)
                =~= mmap_reader::records_view(out@) + stream(
                segments@.skip(i as int),
                from_lsn,
            ),
        decreases segments@.len() - i,
    {
        proof {
            let t = segments@.skip(i as int);
            assert(t[0] == segments@[i as int]);
            assert(t.skip(1) =~= segments@.skip(i + 1));
        }
        match segment_records(segments[i].data, from_lsn) {
            Ok(mut v) => {
                proof {
                    assert(mmap_reader::records_view(out@ + v@) =~= mmap_reader::records_view(out@)
                        + mmap_reader::records_view(v@));
                }
                out.append(&mut v);
            },
            Err(e) => {
                return Err(e);
            },
        }
        i = i + 1;
    }
    Ok(out)
}

/// Reads every segment on its own and strings the results together, as a
/// reader with a worker per segment does.
pub fn replay_segments_parallel(
    segments: &[Segment],
    from_lsn: u64,
) -> (r: Result<Vec<WalRecord>, WalError>)
    ensures
        replayed(segments@, from_lsn, r),
{
    let mut results: Vec<Result<Vec<WalRecord>, WalError>> = Vec::new();
    let mut i: usize = 0;
    while i < segments.len()
        invariant
            i <= segments@.len(),
            results@.len() == i,
            forall|k: int|
                0 <= k < i ==> segment_result(
                    segments@[k],
                    from_lsn,
                    #[trigger] results@[k],
                ),
        decreases segments@.len() - i,
    {
        results.push(segment_records(segments[i].data, from_lsn));
        i = i + 1;
    }
    proof {
        lemma_merged_is_stream(segments@, from_lsn, results@);
    }
    merge_segments(results)
}

/// Whether `r` is what reading one segment owes.
pub open spec fn segment_result(
    seg: Segment,
    from_lsn: u64,
    r: Result<Vec<WalRecord>, WalError>,
) -> bool {
    match failure(seg) {
        Some(e) => r == Err::<Vec<WalRecord>, WalError>(e),
        None => r matches Ok(v) && mmap_reader::records_view(v@) == kept(seg, from_lsn),
    }
}

/// Results that were gathered segment by segment make up the replay, in
/// whatever order the segments were read.
pub proof fn lemma_merged_is_stream(
    segs: Seq<Segment>,
    from_lsn: u64,
    rs: Seq<Result<Vec<WalRecord>, WalError>>,
)
    requires
        rs.len() == segs.len(),
        forall|k: int| 0 <= k < segs.len() ==> segment_result(segs[k], from_lsn, #[trigger] rs[k]),
    ensures
        merged_failure(rs) == stream_failure(segs),
        merged_failure(rs) is None ==> merged_records(rs) == stream(segs, from_lsn),
    decreases segs.len(),
{
    if segs.len() > 0 {
        assert(segment_result(segs[0], from_lsn, rs[0]));
        assert forall|k: int| 0 <= k < segs.len() - 1 implies segment_result(
            segs.skip(1)[k],
            from_lsn,
            #[trigger] rs.skip(1)[k],
        ) by {
            assert(segment_result(segs[k + 1], from_lsn, rs[k + 1]));
        }
        lemma_merged_is_stream(segs.skip(1), from_lsn, rs.skip(1));
    }
}

/// Replays the records from `from_lsn` on. Few segments are read one after the
/// other, many on their own and then strung together; the result is the same.
pub fn replay_segments_mmap(
    segments: &[Segment],
    from_lsn: u64,
) -> (r: Result<Vec<WalRecord>, WalError>)
    ensures
        replayed(live(segments@, from_lsn), from_lsn, r),
{
    let segs = filter_segments_by_lsn(segments, from_lsn);
    if segs.len() < PARALLEL_SEGMENT_THRESHOLD {
        return replay_segments_sequential(segs, from_lsn);
    }
    replay_segments_parallel(segs, from_lsn)
}

/// Whether at least one record and at least `max` of them come before any error.
pub open spec fn limit_reached(segs: Seq<Segment>, from_lsn: u64, max: usize) -> bool {
    stream(segs, from_lsn).len() >= 1 && stream(segs, from_lsn).len() >= max
}

/// Whether `r` is what replay of at most `max` records of `segs` owes.
pub open spec fn replayed_up_to(
    segs: Seq<Segment>,
    from_lsn: u64,
    max: usize,
    r: Result<(Vec<WalRecord>, bool), WalError>,
) -> bool {
    let all = stream(segs, from_lsn);
    if limit_reached(segs, from_lsn, max) {
        r matches Ok(p) && p.1 && mmap_reader::records_view(p.0@) == all.take(max as int)
    } else {
        match stream_failure(segs) {
            Some(e) => r == Err::<(Vec<WalRecord>, bool), WalError>(e),
            None => r matches Ok(p) && !p.1 && mmap_reader::records_view(p.0@) == all,
        }
    }
}

/// Replays at most `max_records` records from `from_lsn` on. The flag tells
/// whether the limit ended the replay before the segments did.
pub fn replay_segments_mmap_limit(
    segments: &[Segment],
    from_lsn: u64,
    max_records: usize,
) -> (r: Result<(Vec<WalRecord>, bool), WalError>)
    ensures
        replayed_up_to(live(segments@, from_lsn), from_lsn, max_records, r),
{
    let segs = filter_segments_by_lsn(segments, from_lsn);
    let ghost all = stream(segs@, from_lsn);
    let mut out: Vec<WalRecord> = Vec::new();
    let mut i: usize = 0;
    assert(mmap_reader::records_view(out@) =~= Seq::empty());
    assert(segs@.skip(0) =~= segs@);
    while i < segs.len()
        invariant
            i <= segs@.len(),
            all == stream(segs@, from_lsn),
            stream_failure(segs@) == stream_failure(segs@.skip(i as int)),
            all =~= mmap_reader::records_view(out@) + stream(segs@.skip(i as int), from_lsn),
            out@.len() == 0 || out@.len() < max_records,
            segs@ == live(segments@, from_lsn),
        decreases segs@.len() - i,
    {
        let ghost rest = segs@.skip(i as int);
        proof {
            assert(rest[0] == segs@[i as int]);
            assert(rest.skip(1) =~= segs@.skip(i + 1));
        }
        let data: &[u8] = segs[i].data;
        let ghost head = out@;
        let mut reader = MmapWalReader::open(data);
        let mut more: bool = true;
        while more
            invariant
                reader.wf(),
                reader.data == data,
                i < segs@.len(),
                data == segs@[i as int].data,
                all == stream(segs@, from_lsn),
                segs@ == live(segments@, from_lsn),
                out@.len() == 0 || out@.len() < max_records,
                recovery::log_failure(data@) == mmap_reader::failure_from(
                    data@,
                    reader.offset as int,
                ) || !more,
                !more ==> recovery::log_failure(data@) is None,
                kept(segs@[i as int], from_lsn) =~= mmap_reader::records_view(
                    out@.skip(head.len() as int),
                ) + (if more {
                    not_before(
                        mmap_reader::records_from(data@, reader.offset as int),
                        from_lsn,
                    )
                } else {
                    Seq::empty()
                }),
                head.len() <= out@.len(),
                out@.take(head.len() as int) == head,
                rest == segs@.skip(i as int),
                all =~= mmap_reader::records_view(head) + stream(rest, from_lsn),
                stream_failure(segs@) == stream_failure(rest),
            decreases reader.data@.len() - reader.offset, more as int,
        {
            proof {
                assert(rest[0] == segs@[i as int]);
                mmap_reader::lemma_next_found(data@, reader.offset as int);
            }
            let ghost off = reader.offset as int;
            let ghost had = out@;
            match reader.next_record() {
                Ok(Some(rec)) => {
                    proof {
                        let tail = mmap_reader::records_from(data@, reader.offset as int);
                        lemma_not_before_concat(seq![rec@], tail, from_lsn);
                        lemma_not_before_one(rec@, from_lsn);
                    }
                    if rec.header.lsn >= from_lsn {
                        if max_records == 0 {
                            proof {
                                assert(all.len() >= 1);
                                assert(all.take(0) =~= mmap_reader::records_view(
                                    Seq::<WalRecord>::empty(),
                                ));
                                assert(had =~= Seq::<WalRecord>::empty());
                            }
                            return Ok((out, true));
                        }
                        let ghost r = rec@;
                        out.push(rec);
                        proof {
                            assert(out@.skip(head.len() as int) =~= had.skip(
                                head.len() as int,
                            ).push(rec));
                            assert(out@.take(head.len() as int) =~= had.take(head.len() as int));
                            assert(mmap_reader::records_view(out@.skip(head.len() as int))
                                =~= mmap_reader::records_view(had.skip(head.len() as int)).push(
                                r,
                            ));
                        }
                        if out.len() >= max_records {
                            proof {
                                let k = kept(segs@[i as int], from_lsn);
                                assert(mmap_reader::records_view(out@) =~= mmap_reader::records_view(
                                    head,
                                ) + mmap_reader::records_view(out@.skip(head.len() as int)));
                                assert(all.take(max_records as int) =~= mmap_reader::records_view(
                                    out@,
                                ));
                            }
                            return Ok((out, true));
                        }
                    }
                },
                Ok(None) => {
                    more = false;
                },
                Err(e) => {
                    proof {
                        let k = kept(segs@[i as int], from_lsn);
                        assert(k =~= mmap_reader::records_view(out@.skip(head.len() as int)));
                        assert(all =~= mmap_reader::records_view(head) + k);
                        assert(all.len() == out@.len());
                    }
                    return Err(e);
                },
            }
        }
        proof {
            let k = kept(segs@[i as int], from_lsn);
            assert(mmap_reader::records_view(out@) =~= mmap_reader::records_view(head)
                + mmap_reader::records_view(out@.skip(head.len() as int)));
            assert(stream(rest, from_lsn) == k + stream(rest.skip(1), from_lsn));
        }
        i = i + 1;
    }
    proof {
        assert(segs@.skip(i as int) =~= Seq::empty());
        assert(all =~= mmap_reader::records_view(out@));
    }
    Ok((out, false))
}

/// Selection of a single record.
proof fn lemma_not_before_one(r: RecordView, from_lsn: u64)
    ensures
        not_before(seq![r], from_lsn) == if r.header.lsn >= from_lsn {
            seq![r]
        } else {
            Seq::empty()
        },
{
    assert(seq![r].drop_last() =~= Seq::empty());
    assert(not_before(seq![r].drop_last(), from_lsn) =~= Seq::empty());
    assert(Seq::<RecordView>::empty().push(r) =~= seq![r]);
}

} // verus!
