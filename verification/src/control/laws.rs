//! What can be relied on between a committed entry and the proposer that waits
//! for it.

use vstd::prelude::*;

use crate::control::apply_loop;
use crate::control::apply_loop::{ApplyAction, ApplyEvent, ApplyRun, ApplyStage};
use crate::control::calvin;
use crate::control::calvin::CalvinApplied;
use crate::control::distributed_applier;
use crate::control::distributed_applier::{ApplyStep, DistributedApplier};
use crate::control::error::ControlError;
use crate::control::frames;
use crate::control::propose_tracker;
use crate::control::propose_tracker::{ProposeResult, TrackerSlot};
use crate::control::replicated;
use crate::control::replicated::{ReplicatedView, WriteView};
use crate::control::watermark;
use crate::raft::message;
use crate::raft::message::EntryView;
use crate::time::{Duration, Instant};
use crate::wal::le;
use crate::wal::record::WalRecord;
use crate::wal::record_laws;

verus! {

/// Every committed entry that carries data is queued, in the order of the log,
/// and nothing else is.
pub proof fn law_every_write_is_queued(es: Seq<EntryView>)
    ensures
        distributed_applier::real_entries(es) == es.filter(|e: EntryView| e.data.len() > 0),
        forall|i: int|
            0 <= i < es.len() && (#[trigger] es[i]).data.len() > 0
                ==> distributed_applier::real_entries(es).contains(es[i]),
        forall|k: int|
            0 <= k < distributed_applier::real_entries(es).len() ==> es.contains(
                #[trigger] distributed_applier::real_entries(es)[k],
            ) && distributed_applier::real_entries(es)[k].data.len() > 0,
    decreases es.len(),
{
    let kept = distributed_applier::real_entries(es);
    let carries = |e: EntryView| e.data.len() > 0;
    reveal(Seq::filter);
    if es.len() > 0 {
        let before = es.drop_last();
        law_every_write_is_queued(before);
        let kept_before = distributed_applier::real_entries(before);
        assert(before.filter(carries) == kept_before);
        assert forall|i: int| 0 <= i < es.len() && (#[trigger] es[i]).data.len()
            > 0 implies kept.contains(es[i]) by {
            if i < before.len() {
                assert(before[i] == es[i]);
                let k = choose|k: int| 0 <= k < kept_before.len() && kept_before[k] == es[i];
                assert(kept[k] == es[i]);
            } else {
                assert(kept.last() == es[i]);
            }
        }
        assert forall|k: int| 0 <= k < kept.len() implies es.contains(#[trigger] kept[k])
            && kept[k].data.len() > 0 by {
            if k < kept_before.len() {
                assert(kept[k] == kept_before[k]);
                let i = choose|i: int| 0 <= i < before.len() && before[i] == kept_before[k];
                assert(es[i] == kept[k]);
            } else {
                assert(kept[k] == es[es.len() - 1]);
            }
        }
    }
}

/// Two batches of committed entries that follow each other queue what one batch
/// of both would.
pub proof fn law_batches_add_up(a: Seq<EntryView>, b: Seq<EntryView>)
    ensures
        distributed_applier::real_entries(a + b) == distributed_applier::real_entries(a)
            + distributed_applier::real_entries(b),
    decreases b.len(),
{
    if b.len() == 0 {
        assert(a + b =~= a);
    } else {
        law_batches_add_up(a, b.drop_last());
        assert((a + b).drop_last() =~= a + b.drop_last());
        assert(distributed_applier::real_entries(a + b)
            =~= distributed_applier::real_entries(a) + distributed_applier::real_entries(b));
    }
}

/// What an empty entry does to the place of one proposal, where no other entry
/// of the batch has its index: a proposer that waits there leaves it and is
/// told to propose again; where nobody waits, word of it is kept. The places of
/// entries that carry data are left alone.
pub proof fn law_overwritten_proposers_are_told<W>(
    t: Map<u128, TrackerSlot<W>>,
    group_id: u64,
    es: Seq<EntryView>,
    i: int,
)
    requires
        0 <= i < es.len(),
        forall|j: int| 0 <= j < es.len() && j != i ==> (#[trigger] es[j]).index != es[i].index,
    ensures
        ({
            let k = propose_tracker::slot_key(group_id, es[i].index);
            let after = distributed_applier::noops_tracked(t, group_id, es);
            let told = distributed_applier::noops_delivered(t, group_id, es);
            let word = Err::<Vec<u8>, ControlError>(
                (ControlError::RetryableLeaderChange { group_id, log_index: es[i].index }),
            );
            if es[i].data.len() > 0 {
                &&& after.contains_key(k) == t.contains_key(k)
                &&& t.contains_key(k) ==> after[k] == t[k]
            } else if t.contains_key(k) && t[k] is Waiting {
                &&& !after.contains_key(k)
                &&& told.contains((t[k]->waiter, word))
            } else {
                &&& after.contains_key(k)
                &&& after[k] == (TrackerSlot::<W>::Completed { result: word, applied_key: 0 })
            }
        }),
    decreases es.len(),
{
    let before = es.drop_last();
    let k = propose_tracker::slot_key(group_id, es[i].index);
    let told = distributed_applier::noops_delivered(t, group_id, es);
    let told_before = distributed_applier::noops_delivered(t, group_id, before);
    let word = Err::<Vec<u8>, ControlError>(
        (ControlError::RetryableLeaderChange { group_id, log_index: es[i].index }),
    );
    if i < before.len() {
        assert forall|j: int| 0 <= j < before.len() && j != i implies (#[trigger] before[j]).index
            != before[i].index by {
            assert(before[j] == es[j]);
        }
        law_overwritten_proposers_are_told(t, group_id, before, i);
        assert(es.last() == es[es.len() - 1]);
        propose_tracker::law_slots_are_distinct(
            group_id,
            es[i].index,
            group_id,
            es.last().index,
        );
        if es[i].data.len() == 0 && t.contains_key(k) && t[k] is Waiting {
            let p = (t[k]->waiter, word);
            let n = choose|n: int| 0 <= n < told_before.len() && told_before[n] == p;
            assert(told[n] == p);
        }
    } else {
        assert(before =~= es.take(i));
        assert forall|j: int| 0 <= j < before.len() implies (#[trigger] before[j]).index
            != es[i].index by {
            assert(before[j] == es[j]);
        }
        lemma_other_places_are_left_alone(t, group_id, before, es[i].index);
        if es[i].data.len() == 0 && t.contains_key(k) && t[k] is Waiting {
            assert(told.last() == (t[k]->waiter, word));
            assert(told[told.len() - 1] == (t[k]->waiter, word));
        }
    }
}

/// Entries at other indices leave a proposal's place alone.
proof fn lemma_other_places_are_left_alone<W>(
    t: Map<u128, TrackerSlot<W>>,
    group_id: u64,
    es: Seq<EntryView>,
    index: u64,
)
    requires
        forall|j: int| 0 <= j < es.len() ==> (#[trigger] es[j]).index != index,
    ensures
        ({
            let k = propose_tracker::slot_key(group_id, index);
            let after = distributed_applier::noops_tracked(t, group_id, es);
            &&& after.contains_key(k) == t.contains_key(k)
            &&& t.contains_key(k) ==> after[k] == t[k]
        }),
    decreases es.len(),
{
    if es.len() > 0 {
        let before = es.drop_last();
        assert forall|j: int| 0 <= j < before.len() implies (#[trigger] before[j]).index
            != index by {
            assert(before[j] == es[j]);
        }
        lemma_other_places_are_left_alone(t, group_id, before, index);
        assert(es.last() == es[es.len() - 1]);
        propose_tracker::law_slots_are_distinct(group_id, index, group_id, es.last().index);
    }
}

/// Nobody is told anything but whoever waited for the index of an empty entry,
/// and what they are told is to propose again.
pub proof fn law_only_overwritten_proposers_are_told<W>(
    t: Map<u128, TrackerSlot<W>>,
    group_id: u64,
    es: Seq<EntryView>,
    n: int,
)
    requires
        0 <= n < distributed_applier::noops_delivered(t, group_id, es).len(),
    ensures
        exists|i: int|
            0 <= i < es.len() && (#[trigger] es[i]).data.len() == 0
                && distributed_applier::noops_delivered(t, group_id, es)[n].1 == Err::<
                Vec<u8>,
                ControlError,
            >((ControlError::RetryableLeaderChange { group_id, log_index: es[i].index })),
    decreases es.len(),
{
    let told = distributed_applier::noops_delivered(t, group_id, es);
    if es.len() > 0 {
        let before = es.drop_last();
        let told_before = distributed_applier::noops_delivered(t, group_id, before);
        if n < told_before.len() {
            law_only_overwritten_proposers_are_told(t, group_id, before, n);
            let i = choose|i: int|
                0 <= i < before.len() && (#[trigger] before[i]).data.len() == 0 && told_before[n].1
                    == Err::<Vec<u8>, ControlError>(
                    (ControlError::RetryableLeaderChange {
                        group_id,
                        log_index: before[i].index,
                    }),
                );
            assert(es[i] == before[i]);
            assert(told[n] == told_before[n]);
        } else {
            let e = es[es.len() - 1];
            assert(e == es.last());
            assert(e.data.len() == 0);
        }
    }
}

/// No more are told than there are empty entries: nobody is told twice.
pub proof fn law_told_once_per_empty_entry<W>(
    t: Map<u128, TrackerSlot<W>>,
    group_id: u64,
    es: Seq<EntryView>,
)
    ensures
        distributed_applier::noops_delivered(t, group_id, es).len() <= es.filter(
            |e: EntryView| e.data.len() == 0,
        ).len(),
    decreases es.len(),
{
    reveal(Seq::filter);
    if es.len() > 0 {
        law_told_once_per_empty_entry(t, group_id, es.drop_last());
    }
}

/// After a batch the group counts as applied at least as far as each of its
/// empty entries, no further than before or than one of them, and the other
/// groups stand where they stood.
pub proof fn law_empty_entries_raise_the_mark(
    m: Map<u64, u64>,
    group_id: u64,
    es: Seq<EntryView>,
    other: u64,
)
    requires
        other != group_id,
    ensures
        ({
            let after = distributed_applier::noops_marked(Some(m), group_id, es)->0;
            &&& distributed_applier::noops_marked(Some(m), group_id, es) is Some
            &&& distributed_applier::noops_marked(None, group_id, es) is None
            &&& watermark::mark_of(after, other) == watermark::mark_of(m, other)
            &&& watermark::mark_of(after, group_id) >= watermark::mark_of(m, group_id)
            &&& forall|i: int|
                0 <= i < es.len() && (#[trigger] es[i]).data.len() == 0 ==> watermark::mark_of(
                    after,
                    group_id,
                ) >= es[i].index
            &&& watermark::mark_of(after, group_id) == watermark::mark_of(m, group_id)
                || exists|i: int|
                0 <= i < es.len() && (#[trigger] es[i]).data.len() == 0 && watermark::mark_of(
                    after,
                    group_id,
                ) == es[i].index
        }),
    decreases es.len(),
{
    if es.len() > 0 {
        let before = es.drop_last();
        law_empty_entries_raise_the_mark(m, group_id, before, other);
        let mid = distributed_applier::noops_marked(Some(m), group_id, before)->0;
        let after = distributed_applier::noops_marked(Some(m), group_id, es)->0;
        let last = es[es.len() - 1];
        assert(last == es.last());
        assert forall|i: int| 0 <= i < es.len() && (#[trigger] es[i]).data.len()
            == 0 implies watermark::mark_of(after, group_id) >= es[i].index by {
            if i < before.len() {
                assert(before[i] == es[i]);
            }
        }
        if watermark::mark_of(after, group_id) == watermark::mark_of(mid, group_id)
            && watermark::mark_of(mid, group_id) != watermark::mark_of(m, group_id) {
            let i = choose|i: int|
                0 <= i < before.len() && (#[trigger] before[i]).data.len() == 0
                    && watermark::mark_of(mid, group_id) == before[i].index;
            assert(es[i] == before[i]);
        }
    }
}

/// The mark of a group is the highest index that it was applied to: it takes
/// the new index where that is higher, and stays where it is not. No other
/// group's mark moves.
pub proof fn law_mark_is_the_highest(m: Map<u64, u64>, group: u64, index: u64, other: u64)
    requires
        other != group,
    ensures
        index >= watermark::mark_of(m, group) ==> watermark::mark_of(
            watermark::bumped(m, group, index),
            group,
        ) == index,
        index <= watermark::mark_of(m, group) ==> watermark::mark_of(
            watermark::bumped(m, group, index),
            group,
        ) == watermark::mark_of(m, group),
        watermark::mark_of(watermark::bumped(m, group, index), other) == watermark::mark_of(
            m,
            other,
        ),
        watermark::mark_of(Map::empty(), group) == 0,
{
}

/// A proposer that waits gets the very result that its entry brought, and is
/// gone from the tracker: where the keys agree, and where either side has none.
/// Where both have one and they differ, it is told to propose again.
pub proof fn law_waiting_proposer_gets_its_result<W>(
    t: Map<u128, TrackerSlot<W>>,
    group_id: u64,
    log_index: u64,
    expected_key: u64,
    applied_key: u64,
    waiter: W,
    result: ProposeResult,
)
    requires
        ({
            let k = propose_tracker::slot_key(group_id, log_index);
            t.contains_key(k) && t[k] == (TrackerSlot::<W>::Waiting { waiter, expected_key })
        }),
    ensures
        ({
            let k = propose_tracker::slot_key(group_id, log_index);
            let told = propose_tracker::delivery(t, group_id, log_index, applied_key, result);
            &&& !propose_tracker::after_complete(
                t,
                group_id,
                log_index,
                applied_key,
                result,
            ).contains_key(k)
            &&& applied_key == 0 || expected_key == 0 || applied_key == expected_key ==> told
                == Some((waiter, result))
            &&& applied_key != 0 && expected_key != 0 && applied_key != expected_key ==> told
                == Some(
                (
                    waiter,
                    Err::<Vec<u8>, ControlError>(
                        (ControlError::RetryableLeaderChange { group_id, log_index }),
                    ),
                ),
            )
        }),
{
}

/// A proposer that comes after its entry was applied gets the result at once,
/// on the same terms, and leaves nothing behind.
pub proof fn law_late_proposer_gets_its_result<W>(
    t: Map<u128, TrackerSlot<W>>,
    group_id: u64,
    log_index: u64,
    expected_key: u64,
    applied_key: u64,
    waiter: W,
    result: ProposeResult,
)
    requires
        ({
            let k = propose_tracker::slot_key(group_id, log_index);
            t.contains_key(k) && t[k] == (TrackerSlot::<W>::Completed { result, applied_key })
        }),
    ensures
        ({
            let k = propose_tracker::slot_key(group_id, log_index);
            let told = propose_tracker::pickup(t, group_id, log_index, expected_key, waiter);
            &&& !propose_tracker::after_register(
                t,
                group_id,
                log_index,
                expected_key,
                waiter,
            ).contains_key(k)
            &&& applied_key == 0 || expected_key == 0 || applied_key == expected_key ==> told
                == Some((waiter, result))
            &&& applied_key != 0 && expected_key != 0 && applied_key != expected_key ==> told
                == Some(
                (
                    waiter,
                    Err::<Vec<u8>, ControlError>(
                        (ControlError::RetryableLeaderChange { group_id, log_index }),
                    ),
                ),
            )
        }),
{
}

/// Whoever comes first is kept as it came: a proposer with its key until the
/// result comes, a result with its key until the proposer comes. The later of
/// two of the same side takes the place of the earlier.
pub proof fn law_first_side_is_kept<W>(
    t: Map<u128, TrackerSlot<W>>,
    group_id: u64,
    log_index: u64,
    key: u64,
    waiter: W,
    result: ProposeResult,
)
    ensures
        ({
            let k = propose_tracker::slot_key(group_id, log_index);
            let asked = propose_tracker::after_register(t, group_id, log_index, key, waiter);
            let done = propose_tracker::after_complete(t, group_id, log_index, key, result);
            &&& !t.contains_key(k) || t[k] is Waiting ==> asked.contains_key(k) && asked[k] == (
            TrackerSlot::<W>::Waiting { waiter, expected_key: key })
                && propose_tracker::pickup(t, group_id, log_index, key, waiter) is None
            &&& !t.contains_key(k) || t[k] is Completed ==> done.contains_key(k) && done[k] == (
            TrackerSlot::<W>::Completed { result, applied_key: key })
                && propose_tracker::delivery(t, group_id, log_index, key, result) is None
        }),
{
}

/// The apply loop tells an array operation and an array schema from the other
/// writes by what was proposed, and settles an entry under the key that it was
/// proposed with.
pub proof fn law_proposed_entry_is_recognised(w: ReplicatedView, term: u64, index: u64)
    requires
        replicated::well_clocked(w.write),
        forall|i: int|
            0 <= i < replicated::fields(w.write).len() ==> (#[trigger] replicated::fields(
                w.write,
            )[i]).len() <= u64::MAX,
    ensures
        ({
            let e = EntryView { term, index, data: replicated::entry_bytes(w) };
            &&& apply_loop::entry_key(e) == w.idempotency_key
            &&& apply_loop::is_array_op(e) == w.write is ArrayOp
            &&& apply_loop::is_array_schema(e) == w.write is ArraySchema
            &&& e.data.len() > 0
        }),
{
    replicated::law_entry_round_trip(w);
    let b = replicated::entry_bytes(w);
    if b.len() == 0 {
        assert(replicated::parsed_entry(b) is None);
    }
}

/// The proposer of an applied write gets the data plane's payload as it came
/// where the write succeeded, and an error in every other case; an entry of
/// another format is settled with nothing.
pub proof fn law_verdict_follows_the_answer(
    stage: ApplyStage,
    ev: ApplyEvent,
    told: ProposeResult,
)
    requires
        apply_loop::verdict(stage, ev, told),
    ensures
        apply_loop::settles(stage, ev),
        ev matches ApplyEvent::Responded { failed, payload, .. } ==> !failed ==> told == Ok::<
            Vec<u8>,
            ControlError,
        >(payload),
        ev matches ApplyEvent::Responded { failed, .. } ==> failed ==> told is Err,
        ev is DecodeFailed || ev is DispatchFailed || ev is Closed || ev is TimedOut
            ==> told is Err,
        ev is NotReplicated ==> (told matches Ok(p) && p@.len() == 0),
        told matches Err(e) ==> e is Internal,
{
}

/// The text of a failure that came from outside reaches the proposer.
pub proof fn law_failure_text_reaches_the_proposer(
    stage: ApplyStage,
    ev: ApplyEvent,
    told: ProposeResult,
)
    requires
        apply_loop::verdict(stage, ev, told),
    ensures
        ev matches ApplyEvent::DecodeFailed { detail } ==> (told matches Err(e)
            && detail@.is_suffix_of(e->detail@)),
        ev matches ApplyEvent::DispatchFailed { detail } ==> (told matches Err(e)
            && detail@.is_suffix_of(e->detail@)),
        ev matches ApplyEvent::Responded { failed, error_code, .. } ==> failed && error_code
            is Some ==> (told matches Err(e) && e->detail@ == error_code->0@),
{
    match ev {
        ApplyEvent::DecodeFailed { detail } => {
            let s = told->Err_0->detail@;
            assert(s.skip(s.len() - detail@.len()) =~= detail@);
            assert(detail@ =~= s.subrange((s.len() - detail@.len()) as int, s.len() as int));
        },
        ApplyEvent::DispatchFailed { detail } => {
            let s = told->Err_0->detail@;
            assert(detail@ =~= s.subrange((s.len() - detail@.len()) as int, s.len() as int));
        },
        _ => {},
    }
}

/// Whatever ends an entry in its stage settles it: a stage never waits for
/// more once its own outcome is in.
pub proof fn law_every_outcome_settles(
    detail: String,
    failed: bool,
    code: Option<String>,
    payload: Vec<u8>,
)
    ensures
        apply_loop::settles(ApplyStage::Decoding, ApplyEvent::NotReplicated),
        apply_loop::settles(ApplyStage::Decoding, ApplyEvent::DecodeFailed { detail }),
        apply_loop::settles(ApplyStage::Dispatching, ApplyEvent::DispatchFailed { detail }),
        apply_loop::settles(
            ApplyStage::Awaiting,
            ApplyEvent::Responded { failed, error_code: code, payload },
        ),
        apply_loop::settles(ApplyStage::Awaiting, ApplyEvent::Closed),
        apply_loop::settles(ApplyStage::Awaiting, ApplyEvent::TimedOut),
{
}

/// A shard's own record of an applied epoch counts, whatever else the log holds:
/// the shard has got at least that far. A log that holds no such record says that
/// nothing was applied.
pub proof fn law_applied_epoch_counts(
    records: Seq<WalRecord>,
    vshard_id: u32,
    epoch: u64,
    i: int,
    a: CalvinApplied,
)
    requires
        calvin::is_last_applied(records, vshard_id, epoch),
        0 <= i < records.len(),
    ensures
        records[i]@.header.record_type == 4 && records[i]@.header.vshard_id == vshard_id
            && records[i]@.payload == calvin::applied_bytes(a) ==> a.epoch <= epoch,
        (forall|j: int|
            0 <= j < records.len() ==> (#[trigger] records[j]@).header.vshard_id != vshard_id)
            ==> epoch == u64::MAX,
        (forall|j: int|
            0 <= j < records.len() ==> (#[trigger] records[j]@).header.record_type < 4) ==> epoch
            == u64::MAX,
{
    calvin::law_applied_round_trip(a);
    assert(4u32 & !0x8000_0000u32 == 4) by (bit_vector);
    assert forall|t: u32| t < 4 implies #[trigger] (t & !0x8000_0000u32) != 4 by {
        assert(t < 4 ==> t & !0x8000_0000u32 != 4) by (bit_vector);
    }
    if records[i]@.header.record_type == 4 && records[i]@.header.vshard_id == vshard_id
        && records[i]@.payload == calvin::applied_bytes(a) {
        assert(calvin::is_applied_by(records[i]@, vshard_id));
    }
}

/// The apply loop takes the entries of a batch one after the other: it leaves an
/// entry when the entry is settled, and only then, and settles it under the
/// entry's own index and key. The batch itself stays as it is.
pub proof fn law_entries_are_settled_in_turn(
    from: ApplyRun,
    ev: ApplyEvent,
    now: Instant,
    to: ApplyRun,
    act: ApplyAction,
)
    requires
        from.wf(),
        ApplyRun::advanced(from, ev, now, to, act),
    ensures
        to.batch == from.batch,
        to.pos == from.pos || to.pos == from.pos + 1,
        to.pos == from.pos + 1 <==> act is Complete || act is ApplyArrayOp
            || act is ApplyArraySchema,
        to.pos == from.pos + 1 ==> to.stage == ApplyStage::Fresh,
        act matches ApplyAction::Complete { index, .. } ==> index
            == from.batch.entries@[from.pos as int].index,
        act matches ApplyAction::ApplyArrayOp { index, .. } ==> index
            == from.batch.entries@[from.pos as int].index,
        act matches ApplyAction::ApplyArraySchema { index, .. } ==> index
            == from.batch.entries@[from.pos as int].index,
        act is Done <==> from.pos == from.batch.entries@.len(),
        act is Ignore ==> to == from,
{
}

/// An entry that carries a plan goes through decoding, handing over and waiting,
/// and the plan has half a minute from when it is handed over.
pub proof fn law_plan_is_decoded_handed_over_and_awaited(
    from: ApplyRun,
    ev: ApplyEvent,
    now: Instant,
    to: ApplyRun,
    act: ApplyAction,
)
    requires
        from.wf(),
        from.pos < from.batch.entries@.len(),
        ApplyRun::advanced(from, ev, now, to, act),
    ensures
        from.stage == ApplyStage::Fresh && ev is Begin && !(act is ApplyArrayOp) && !(
        act is ApplyArraySchema) ==> act == (ApplyAction::Decode { pos: from.pos }) && to.stage
            == ApplyStage::Decoding,
        from.stage == ApplyStage::Decoding && ev is Decoded ==> to.stage
            == ApplyStage::Dispatching && (act matches ApplyAction::Dispatch { deadline } && (
        now.nanos + 30_000_000_000 <= u64::MAX ==> deadline.nanos == now.nanos + 30_000_000_000)),
        from.stage == ApplyStage::Dispatching && ev is Dispatched ==> to.stage
            == ApplyStage::Awaiting && act == (ApplyAction::Await {
            timeout: Duration { nanos: 30_000_000_000 },
        }),
        from.stage == ApplyStage::Awaiting && (ev is Responded || ev is Closed || ev is TimedOut)
            ==> act is Complete,
        from.stage == ApplyStage::Decoding && (ev is NotReplicated || ev is DecodeFailed)
            ==> act is Complete,
        from.stage == ApplyStage::Dispatching && ev is DispatchFailed ==> act is Complete,
        act matches ApplyAction::Complete { result, .. } ==> {
            &&& ev matches ApplyEvent::Responded { failed, payload, .. } ==> !failed ==> result
                == Ok::<Vec<u8>, ControlError>(payload)
            &&& ev matches ApplyEvent::Responded { failed, .. } ==> failed ==> result is Err
            &&& ev is DecodeFailed || ev is DispatchFailed || ev is Closed || ev is TimedOut
                ==> result is Err
            &&& ev is NotReplicated ==> (result matches Ok(p) && p@.len() == 0)
        },
        act is ApplyArrayOp || act is ApplyArraySchema ==> from.stage == ApplyStage::Fresh
            && ev is Begin,
{
}

/// An array operation and an array schema that were proposed reach the outside
/// as they were proposed, under the key that they were proposed with.
pub proof fn law_array_writes_arrive_as_proposed(
    from: ApplyRun,
    now: Instant,
    to: ApplyRun,
    act: ApplyAction,
    w: ReplicatedView,
)
    requires
        from.wf(),
        from.pos < from.batch.entries@.len(),
        from.stage == ApplyStage::Fresh,
        ApplyRun::advanced(from, ApplyEvent::Begin, now, to, act),
        replicated::well_clocked(w.write),
        forall|i: int|
            0 <= i < replicated::fields(w.write).len() ==> (#[trigger] replicated::fields(
                w.write,
            )[i]).len() <= u64::MAX,
        from.batch.entries@[from.pos as int].data@ == replicated::entry_bytes(w),
    ensures
        w.write matches WriteView::ArrayOp { array: a, op_bytes: b, .. } ==> (act matches
            ApplyAction::ApplyArrayOp { key, array, op_bytes, .. } && key == w.idempotency_key
            && array@ == a && op_bytes@ == b),
        w.write matches WriteView::ArraySchema {
            array: a,
            snapshot_payload: s,
            schema_hlc_bytes: h,
        } ==> (act matches ApplyAction::ApplyArraySchema {
            key,
            array,
            snapshot_payload,
            schema_hlc_bytes,
            ..
        } && key == w.idempotency_key && array@ == a && snapshot_payload@ == s
            && schema_hlc_bytes@ == h),
        !(w.write is ArrayOp) && !(w.write is ArraySchema) ==> act is Decode,
{
    replicated::law_entry_round_trip(w);
}

/// Reading a shard's records stops at the first of them that does not have the
/// twelve bytes that say an epoch, and at no other.
pub proof fn law_first_bad_record_is_named(records: Seq<WalRecord>, vshard_id: u32, i: int)
    requires
        0 <= i <= records.len(),
        forall|j: int|
            0 <= j < i && calvin::is_applied_by(#[trigger] records[j]@, vshard_id)
                ==> records[j]@.payload.len() == 12,
        i < records.len() ==> calvin::is_applied_by(records[i]@, vshard_id)
            && records[i]@.payload.len() != 12,
    ensures
        calvin::first_malformed(records, vshard_id) == i,
    decreases i,
{
    if i > 0 {
        let rest = records.skip(1);
        assert(calvin::is_applied_by(records[0]@, vshard_id) ==> records[0]@.payload.len() == 12);
        assert forall|j: int|
            0 <= j < i - 1 && calvin::is_applied_by(#[trigger] rest[j]@, vshard_id) implies
            rest[j]@.payload.len() == 12 by {
            assert(rest[j] == records[j + 1]);
        }
        if i < records.len() {
            assert(rest[i - 1] == records[i]);
        }
        law_first_bad_record_is_named(rest, vshard_id, i - 1);
    }
}

/// A record is one of a shard's applied epochs exactly if its type, without the
/// mark of encryption, is that of such records and it carries the shard's
/// number.
pub proof fn law_applied_records_are_told_by_type_and_shard(r: WalRecord, vshard_id: u32)
    ensures
        calvin::is_applied_by(r@, vshard_id) <==> (r.header.record_type == 4
            || r.header.record_type == 0x8000_0004) && r.header.vshard_id == vshard_id,
{
    let t = r.header.record_type;
    assert(t & !0x8000_0000u32 == 4 <==> t == 4 || t == 0x8000_0004u32) by (bit_vector);
}

/// What comes apart into byte strings is what those strung together give: bytes
/// that are cut off, or that follow the last string, do not come apart.
pub proof fn law_only_whole_frames_come_apart(b: Seq<u8>)
    ensures
        frames::split(b) matches Some(fs) ==> frames::joined(fs) == b,
    decreases b.len(),
{
    if b.len() == 0 {
        assert(frames::joined(Seq::empty()) =~= b);
    } else if frames::split(b) is Some {
        let fs = frames::split(b)->0;
        let head = b.subrange(0, 8);
        let n = le::from64(head);
        let rest = b.skip(8 + n);
        law_only_whole_frames_come_apart(rest);
        record_laws::law_bytes_are_those_of_their_number(head);
        let f = b.subrange(8, 8 + n);
        assert(fs[0] == f);
        assert(fs.skip(1) =~= frames::split(rest)->0);
        assert(f.len() as u64 == n);
        assert(frames::joined(fs) =~= head + f + rest);
        assert(head + f + rest =~= b);
    }
}

/// Committed entries of a group are queued for that group, every one that
/// carries data and in the order of the log, and the last index is that of the
/// last entry. There is nothing to queue exactly if no entry carries data.
pub proof fn law_committed_entries_are_queued<W>(
    from: DistributedApplier<W>,
    group_id: u64,
    es: Seq<EntryView>,
    to: DistributedApplier<W>,
    step: ApplyStep<W>,
)
    requires
        DistributedApplier::handed_over(from, group_id, es, to, step),
    ensures
        step.batch is None <==> forall|i: int|
            0 <= i < es.len() ==> (#[trigger] es[i]).data.len() == 0,
        step.batch matches Some(b) ==> b.group_id == group_id && message::entries_view(b.entries@)
            == es.filter(|e: EntryView| e.data.len() > 0),
        forall|i: int|
            0 <= i < es.len() && (#[trigger] es[i]).data.len() > 0 ==> (step.batch matches Some(b)
                && message::entries_view(b.entries@).contains(es[i])),
        es.len() > 0 ==> step.last_index == es[es.len() - 1].index,
        es.len() == 0 ==> step.last_index == 0,
{
    law_every_write_is_queued(es);
    let kept = distributed_applier::real_entries(es);
    if kept.len() > 0 {
        assert(es.contains(kept[0]) && kept[0].data.len() > 0);
        let i = es.index_of(kept[0]);
        assert(es[i].data.len() > 0);
    }
}

/// A group counts as applied up to its last entry once the batch was taken, or
/// where there was none; a batch that was not taken comes again, and nothing
/// counts.
pub proof fn law_untaken_batch_comes_again<W>(step: ApplyStep<W>, queued: bool)
    ensures
        queued ==> step.counts_to(queued) == step.last_index,
        step.batch is None ==> step.counts_to(queued) == step.last_index,
        step.batch is Some && !queued ==> step.counts_to(queued) == 0,
{
}

/// Without empty entries nobody is told anything, and tracker and marks stay as
/// they are.
pub proof fn law_writes_leave_the_tracker_alone<W>(
    from: DistributedApplier<W>,
    group_id: u64,
    es: Seq<EntryView>,
    to: DistributedApplier<W>,
    step: ApplyStep<W>,
)
    requires
        DistributedApplier::handed_over(from, group_id, es, to, step),
        forall|i: int| 0 <= i < es.len() ==> (#[trigger] es[i]).data.len() > 0,
    ensures
        to.tracker@ == from.tracker@,
        step.deliveries@.len() == 0,
        propose_tracker::marks(to.tracker.group_watchers) == propose_tracker::marks(
            from.tracker.group_watchers,
        ),
        step.batch matches Some(b) ==> message::entries_view(b.entries@) == es,
        es.len() > 0 ==> step.batch is Some,
{
    lemma_no_empty_entries(
        from.tracker@,
        propose_tracker::marks(from.tracker.group_watchers),
        group_id,
        es,
    );
}

/// What entries that all carry data do.
proof fn lemma_no_empty_entries<W>(
    t: Map<u128, TrackerSlot<W>>,
    m: Option<Map<u64, u64>>,
    group_id: u64,
    es: Seq<EntryView>,
)
    requires
        forall|i: int| 0 <= i < es.len() ==> (#[trigger] es[i]).data.len() > 0,
    ensures
        distributed_applier::noops_tracked(t, group_id, es) == t,
        distributed_applier::noops_delivered(t, group_id, es).len() == 0,
        distributed_applier::noops_marked(m, group_id, es) == m,
        distributed_applier::real_entries(es) == es,
    decreases es.len(),
{
    if es.len() > 0 {
        let before = es.drop_last();
        assert forall|i: int| 0 <= i < before.len() implies (#[trigger] before[i]).data.len()
            > 0 by {
            assert(before[i] == es[i]);
        }
        lemma_no_empty_entries(t, m, group_id, before);
        assert(es[es.len() - 1].data.len() > 0);
        assert(before.push(es.last()) =~= es);
    } else {
        assert(distributed_applier::real_entries(es) =~= es);
    }
}

} // verus!
