//! What replay promises: nothing asked for is passed over, nothing else comes.

use vstd::prelude::*;

use crate::wal::error::WalError;
use crate::wal::mmap_reader;
use crate::wal::record::{RecordView, WalRecord};
use crate::wal::recovery;
use crate::wal::replay;
use crate::wal::replay::Segment;

verus! {

/// Whether each segment's records come before the next segment's first number.
pub open spec fn segments_in_order(segs: Seq<Segment>) -> bool {
    forall|i: int, k: int|
        0 <= i && i + 1 < segs.len() && 0 <= k < recovery::log_records(segs[i].data@).len() ==> (
        #[trigger] recovery::log_records(segs[i].data@)[k]).header.lsn < segs[i + 1].first_lsn
}

/// Passing segments over loses no record that replay is asked for.
pub proof fn law_replay_passes_over_nothing(segs: Seq<Segment>, from_lsn: u64)
    requires
        segments_in_order(segs),
        forall|i: int|
            0 <= i < replay::live_start(segs, from_lsn) ==> replay::failure(#[trigger] segs[i])
                is None,
    ensures
        replay::stream(replay::live(segs, from_lsn), from_lsn) == replay::stream(segs, from_lsn),
        replay::stream_failure(replay::live(segs, from_lsn)) == replay::stream_failure(segs),
    decreases segs.len(),
{
    if segs.len() <= 1 || segs[1].first_lsn > from_lsn {
        assert(segs.skip(0) =~= segs);
    } else {
        let t = segs.skip(1);
        replay::lemma_live_start(t, from_lsn);
        assert(replay::failure(segs[0]) is None);
        assert forall|i: int, k: int|
            0 <= i && i + 1 < t.len() && 0 <= k < recovery::log_records(t[i].data@).len() implies (
            #[trigger] recovery::log_records(t[i].data@)[k]).header.lsn
            < t[i + 1].first_lsn by {
            assert(t[i] == segs[i + 1]);
            assert(t[i + 1] == segs[i + 2]);
            assert(recovery::log_records(segs[i + 1].data@)[k].header.lsn
                < segs[i + 2].first_lsn);
        }
        assert forall|i: int| 0 <= i < replay::live_start(t, from_lsn) implies replay::failure(
            #[trigger] t[i],
        ) is None by {
            assert(t[i] == segs[i + 1]);
        }
        law_replay_passes_over_nothing(t, from_lsn);
        assert(t.skip(replay::live_start(t, from_lsn)) =~= segs.skip(
            replay::live_start(segs, from_lsn),
        ));
        lemma_all_before(recovery::log_records(segs[0].data@), from_lsn);
        assert(replay::kept(segs[0], from_lsn) + replay::stream(t, from_lsn) =~= replay::stream(
            t,
            from_lsn,
        ));
    }
}

/// Selection keeps nothing of records that are all older.
proof fn lemma_all_before(rs: Seq<RecordView>, from_lsn: u64)
    requires
        forall|k: int| 0 <= k < rs.len() ==> (#[trigger] rs[k]).header.lsn < from_lsn,
    ensures
        replay::not_before(rs, from_lsn) == Seq::<RecordView>::empty(),
    decreases rs.len(),
{
    if rs.len() > 0 {
        let init = rs.drop_last();
        assert forall|k: int| 0 <= k < init.len() implies (#[trigger] init[k]).header.lsn
            < from_lsn by {
            assert(init[k] == rs[k]);
        }
        lemma_all_before(init, from_lsn);
        assert(rs[rs.len() - 1].header.lsn < from_lsn);
    }
}

/// Replay gives no record that is older than asked for.
pub proof fn law_replay_starts_at_lsn(segs: Seq<Segment>, from_lsn: u64, k: int)
    requires
        0 <= k < replay::stream(segs, from_lsn).len(),
    ensures
        replay::stream(segs, from_lsn)[k].header.lsn >= from_lsn,
    decreases segs.len(),
{
    if segs.len() > 0 {
        let head = replay::kept(segs[0], from_lsn);
        if k < head.len() {
            lemma_selected(recovery::log_records(segs[0].data@), from_lsn, k);
        } else {
            law_replay_starts_at_lsn(segs.skip(1), from_lsn, k - head.len());
        }
    }
}

proof fn lemma_selected(rs: Seq<RecordView>, from_lsn: u64, k: int)
    requires
        0 <= k < replay::not_before(rs, from_lsn).len(),
    ensures
        replay::not_before(rs, from_lsn)[k].header.lsn >= from_lsn,
    decreases rs.len(),
{
    if rs.len() > 0 {
        let init = replay::not_before(rs.drop_last(), from_lsn);
        if k < init.len() {
            lemma_selected(rs.drop_last(), from_lsn, k);
        }
    }
}

/// Whether numbers go up.
pub open spec fn numbers_go_up(rs: Seq<RecordView>) -> bool {
    forall|i: int, j: int| 0 <= i < j < rs.len() ==> rs[i].header.lsn < rs[j].header.lsn
}

/// Whether each segment's records start at its first number and go up from there.
pub open spec fn segments_go_up(segs: Seq<Segment>) -> bool {
    forall|i: int|
        0 <= i < segs.len() ==> numbers_go_up(
            recovery::log_records((#[trigger] segs[i]).data@),
        ) && forall|k: int|
            0 <= k < recovery::log_records(segs[i].data@).len() ==> (
            #[trigger] recovery::log_records(segs[i].data@)[k]).header.lsn
                >= segs[i].first_lsn
}

/// Replay of segments that were written one after the other gives the records
/// in the order of their numbers.
pub proof fn law_replay_is_in_order(segs: Seq<Segment>, from_lsn: u64)
    requires
        segments_in_order(segs),
        segments_go_up(segs),
        forall|i: int, j: int|
            0 <= i < j < segs.len() ==> segs[i].first_lsn <= segs[j].first_lsn,
    ensures
        numbers_go_up(replay::stream(segs, from_lsn)),
    decreases segs.len(),
{
    if segs.len() > 0 {
        let t = segs.skip(1);
        let rs = recovery::log_records(segs[0].data@);
        let head = replay::kept(segs[0], from_lsn);
        let tail = replay::stream(t, from_lsn);
        assert(numbers_go_up(rs));
        lemma_selection_goes_up(rs, from_lsn);
        if replay::failure(segs[0]) is None {
            assert forall|i: int, k: int|
                0 <= i && i + 1 < t.len() && 0 <= k < recovery::log_records(t[i].data@).len() implies (
            #[trigger] recovery::log_records(t[i].data@)[k]).header.lsn
                < t[i + 1].first_lsn by {
                assert(t[i] == segs[i + 1]);
                assert(t[i + 1] == segs[i + 2]);
                assert(recovery::log_records(segs[i + 1].data@)[k].header.lsn
                    < segs[i + 2].first_lsn);
            }
            assert(segments_go_up(t)) by {
                assert forall|i: int| 0 <= i < t.len() implies numbers_go_up(
                    recovery::log_records((#[trigger] t[i]).data@),
                ) && forall|k: int|
                    0 <= k < recovery::log_records(t[i].data@).len() ==> (
                    #[trigger] recovery::log_records(t[i].data@)[k]).header.lsn
                        >= t[i].first_lsn by {
                    assert(t[i] == segs[i + 1]);
                }
            }
            law_replay_is_in_order(t, from_lsn);
            assert forall|i: int, j: int|
                0 <= i < j < (head + tail).len() implies (head + tail)[i].header.lsn < (head
                + tail)[j].header.lsn by {
                if i < head.len() && j >= head.len() {
                    lemma_selected_from(rs, from_lsn, i);
                    let k = choose|k: int| 0 <= k < rs.len() && rs[k] == head[i];
                    assert(t.len() > 0);
                    assert(recovery::log_records(segs[0].data@)[k].header.lsn
                        < segs[1].first_lsn);
                    lemma_stream_at_or_above(t, from_lsn, j - head.len());
                }
            }
        }
    }
}

/// Selection keeps the order.
proof fn lemma_selection_goes_up(rs: Seq<RecordView>, from_lsn: u64)
    requires
        numbers_go_up(rs),
    ensures
        numbers_go_up(replay::not_before(rs, from_lsn)),
    decreases rs.len(),
{
    if rs.len() > 0 {
        let init = replay::not_before(rs.drop_last(), from_lsn);
        lemma_selection_goes_up(rs.drop_last(), from_lsn);
        assert forall|i: int| 0 <= i < init.len() implies (#[trigger] init[i]).header.lsn
            < rs.last().header.lsn by {
            lemma_selected_from(rs.drop_last(), from_lsn, i);
            let k = choose|k: int|
                0 <= k < rs.drop_last().len() && rs.drop_last()[k] == init[i];
            assert(rs[k].header.lsn < rs[rs.len() - 1].header.lsn);
        }
    }
}

/// What is selected was there.
proof fn lemma_selected_from(rs: Seq<RecordView>, from_lsn: u64, i: int)
    requires
        0 <= i < replay::not_before(rs, from_lsn).len(),
    ensures
        exists|k: int| 0 <= k < rs.len() && rs[k] == replay::not_before(rs, from_lsn)[i],
    decreases rs.len(),
{
    if rs.len() > 0 {
        let init = replay::not_before(rs.drop_last(), from_lsn);
        if i < init.len() {
            lemma_selected_from(rs.drop_last(), from_lsn, i);
            let k = choose|k: int|
                0 <= k < rs.drop_last().len() && rs.drop_last()[k] == init[i];
            assert(rs[k] == replay::not_before(rs, from_lsn)[i]);
        } else {
            assert(rs[rs.len() - 1] == replay::not_before(rs, from_lsn)[i]);
        }
    }
}

/// No record of a run comes before the run's first number.
proof fn lemma_stream_at_or_above(segs: Seq<Segment>, from_lsn: u64, k: int)
    requires
        0 <= k < replay::stream(segs, from_lsn).len(),
        segments_go_up(segs),
        forall|i: int, j: int|
            0 <= i < j < segs.len() ==> segs[i].first_lsn <= segs[j].first_lsn,
    ensures
        replay::stream(segs, from_lsn)[k].header.lsn >= segs[0].first_lsn,
    decreases segs.len(),
{
    let rs = recovery::log_records(segs[0].data@);
    let head = replay::kept(segs[0], from_lsn);
    if k < head.len() {
        lemma_selected_from(rs, from_lsn, k);
        let m = choose|m: int| 0 <= m < rs.len() && rs[m] == head[k];
        assert(recovery::log_records(segs[0].data@)[m].header.lsn >= segs[0].first_lsn);
    } else {
        let t = segs.skip(1);
        assert(segments_go_up(t)) by {
            assert forall|i: int| 0 <= i < t.len() implies numbers_go_up(
                recovery::log_records((#[trigger] t[i]).data@),
            ) && forall|k: int|
                0 <= k < recovery::log_records(t[i].data@).len() ==> (
                #[trigger] recovery::log_records(t[i].data@)[k]).header.lsn
                    >= t[i].first_lsn by {
                assert(t[i] == segs[i + 1]);
            }
        }
        lemma_stream_at_or_above(t, from_lsn, k - head.len());
        assert(t[0] == segs[1]);
    }
}

/// What is selected by number is every record that is not older than asked for,
/// in order.
pub proof fn law_selection_keeps_every_later_record(rs: Seq<RecordView>, from_lsn: u64)
    ensures
        replay::not_before(rs, from_lsn) == rs.filter(
            |r: RecordView| r.header.lsn >= from_lsn,
        ),
    decreases rs.len(),
{
    reveal(Seq::filter);
    if rs.len() > 0 {
        law_selection_keeps_every_later_record(rs.drop_last(), from_lsn);
    }
}

/// A record that is not older than asked for is selected.
proof fn lemma_selection_contains(rs: Seq<RecordView>, from_lsn: u64, k: int)
    requires
        0 <= k < rs.len(),
        rs[k].header.lsn >= from_lsn,
    ensures
        replay::not_before(rs, from_lsn).contains(rs[k]),
    decreases rs.len(),
{
    let init = rs.drop_last();
    let sel = replay::not_before(rs, from_lsn);
    if k < init.len() {
        lemma_selection_contains(init, from_lsn, k);
        let before = replay::not_before(init, from_lsn);
        assert(init[k] == rs[k]);
        let i = before.index_of(rs[k]);
        assert(sel[i] == rs[k]);
    } else {
        assert(sel[sel.len() - 1] == rs[k]);
    }
}

/// Replay gives every record that is not older than asked for, of every segment
/// in front of which none ends with an error.
pub proof fn law_replay_gives_every_later_record(
    segs: Seq<Segment>,
    from_lsn: u64,
    i: int,
    k: int,
)
    requires
        0 <= i < segs.len(),
        forall|j: int| 0 <= j < i ==> recovery::log_failure((#[trigger] segs[j]).data@) is None,
        0 <= k < recovery::log_records(segs[i].data@).len(),
        recovery::log_records(segs[i].data@)[k].header.lsn >= from_lsn,
    ensures
        replay::stream(segs, from_lsn).contains(recovery::log_records(segs[i].data@)[k]),
    decreases segs.len(),
{
    let rs = recovery::log_records(segs[i].data@);
    let all = replay::stream(segs, from_lsn);
    let head = replay::kept(segs[0], from_lsn);
    if i == 0 {
        lemma_selection_contains(rs, from_lsn, k);
        let n = head.index_of(rs[k]);
        assert(all[n] == rs[k]);
    } else {
        let t = segs.skip(1);
        assert(recovery::log_failure(segs[0].data@) is None);
        assert(t[i - 1] == segs[i]);
        assert forall|j: int| 0 <= j < i - 1 implies recovery::log_failure(
            (#[trigger] t[j]).data@,
        ) is None by {
            assert(t[j] == segs[j + 1]);
        }
        law_replay_gives_every_later_record(t, from_lsn, i - 1, k);
        let tail = replay::stream(t, from_lsn);
        let n = tail.index_of(rs[k]);
        assert(all[head.len() + n] == rs[k]);
    }
}

/// Replay ends with an error exactly if one of the segments does, and it is the
/// error of the first that does.
pub proof fn law_replay_reports_the_first_error(segs: Seq<Segment>, i: int)
    requires
        0 <= i <= segs.len(),
        forall|j: int| 0 <= j < i ==> recovery::log_failure((#[trigger] segs[j]).data@) is None,
        i < segs.len() ==> recovery::log_failure(segs[i].data@) is Some,
    ensures
        i < segs.len() ==> replay::stream_failure(segs) == recovery::log_failure(segs[i].data@),
        i == segs.len() ==> replay::stream_failure(segs) is None,
    decreases i,
{
    if i > 0 {
        let t = segs.skip(1);
        assert(recovery::log_failure(segs[0].data@) is None);
        assert forall|j: int| 0 <= j < i - 1 implies recovery::log_failure(
            (#[trigger] t[j]).data@,
        ) is None by {
            assert(t[j] == segs[j + 1]);
        }
        if i < segs.len() {
            assert(t[i - 1] == segs[i]);
        }
        law_replay_reports_the_first_error(t, i - 1);
    }
}

/// Segments are passed over exactly as long as the next one starts no later than
/// asked for; the last one never is.
pub proof fn law_passed_over_segments_end_in_time(segs: Seq<Segment>, from_lsn: u64)
    requires
        segs.len() > 0,
    ensures
        ({
            let n = replay::live_start(segs, from_lsn);
            &&& 0 <= n < segs.len()
            &&& replay::live(segs, from_lsn) == segs.skip(n)
            &&& forall|i: int|
                1 <= i <= n ==> (#[trigger] segs[i]).first_lsn <= from_lsn
            &&& n + 1 < segs.len() ==> segs[n + 1].first_lsn > from_lsn
        }),
{
    replay::lemma_live_start(segs, from_lsn);
    let n = replay::live_start(segs, from_lsn);
    assert forall|i: int| 1 <= i <= n implies (#[trigger] segs[i]).first_lsn <= from_lsn by {
        assert(segs[(i - 1) + 1].first_lsn <= from_lsn);
    }
}

/// A limit ends a replay once it has that many records, and at least one.
pub proof fn law_limit_counts_records(segs: Seq<Segment>, from_lsn: u64, max: usize)
    ensures
        replay::limit_reached(segs, from_lsn, max) <==> replay::stream(segs, from_lsn).len() > 0
            && replay::stream(segs, from_lsn).len() >= max,
{
}

/// A replay with a limit gives the first records of the one without, as many as
/// the limit where there are that many, and says whether the limit ended it.
pub proof fn law_limited_replay_is_a_prefix(
    segs: Seq<Segment>,
    from_lsn: u64,
    max: usize,
    r: Result<(Vec<WalRecord>, bool), WalError>,
)
    requires
        replay::replayed_up_to(segs, from_lsn, max, r),
    ensures
        ({
            let all = replay::stream(segs, from_lsn);
            &&& all.len() > 0 && all.len() >= max ==> (r matches Ok(p) && p.1 && p.0@.len() == max
                && mmap_reader::records_view(p.0@) == all.take(max as int))
            &&& all.len() < max && replay::stream_failure(segs) is None ==> (r matches Ok(p)
                && !p.1 && mmap_reader::records_view(p.0@) == all)
            &&& all.len() < max ==> (replay::stream_failure(segs) matches Some(e) ==> r == Err::<
                (Vec<WalRecord>, bool),
                WalError,
            >(e))
        }),
{
    let all = replay::stream(segs, from_lsn);
    if all.len() > 0 && all.len() >= max {
        let p = r->Ok_0;
        assert(mmap_reader::records_view(p.0@).len() == p.0@.len());
    }
}

/// A replay succeeds exactly if no segment ends with an error, and then gives
/// every record that is not older than asked for, and none that is.
pub proof fn law_replay_is_complete(
    segs: Seq<Segment>,
    from_lsn: u64,
    r: Result<Vec<WalRecord>, WalError>,
    i: int,
    k: int,
)
    requires
        replay::replayed(segs, from_lsn, r),
        0 <= i < segs.len(),
        0 <= k < recovery::log_records(segs[i].data@).len(),
    ensures
        r is Ok <==> forall|j: int|
            0 <= j < segs.len() ==> recovery::log_failure((#[trigger] segs[j]).data@) is None,
        r matches Ok(v) ==> {
            let x = recovery::log_records(segs[i].data@)[k];
            &&& x.header.lsn >= from_lsn ==> mmap_reader::records_view(v@).contains(x)
            &&& forall|n: int|
                0 <= n < v@.len() ==> (#[trigger] v@[n]).header.lsn >= from_lsn
        },
{
    if forall|j: int|
        0 <= j < segs.len() ==> recovery::log_failure((#[trigger] segs[j]).data@) is None {
        law_replay_reports_the_first_error(segs, segs.len() as int);
    } else {
        let bad = choose|j: int|
            0 <= j < segs.len() && recovery::log_failure((#[trigger] segs[j]).data@) is Some;
        lemma_first_error(segs, bad);
    }
    if r is Ok {
        let v = r->Ok_0;
        if recovery::log_records(segs[i].data@)[k].header.lsn >= from_lsn {
            law_replay_gives_every_later_record(segs, from_lsn, i, k);
        }
        assert forall|n: int| 0 <= n < v@.len() implies (#[trigger] v@[n]).header.lsn
            >= from_lsn by {
            let all = mmap_reader::records_view(v@);
            assert(all[n] == v@[n]@);
            law_replay_starts_at_lsn(segs, from_lsn, n);
        }
    }
}

/// A segment that ends with an error is not passed over in silence.
proof fn lemma_first_error(segs: Seq<Segment>, bad: int)
    requires
        0 <= bad < segs.len(),
        recovery::log_failure(segs[bad].data@) is Some,
    ensures
        replay::stream_failure(segs) is Some,
    decreases segs.len(),
{
    if recovery::log_failure(segs[0].data@) is None {
        assert(segs.skip(1)[bad - 1] == segs[bad]);
        lemma_first_error(segs.skip(1), bad - 1);
    }
}

} // verus!
