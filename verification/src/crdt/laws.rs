//! What a write, a restore and a compaction leave behind, said in terms of the
//! calls into the document library and their outcomes.

use vstd::prelude::*;

use crate::crdt::error;
use crate::crdt::error::CrdtError;
use crate::crdt::history;
use crate::crdt::history::CrdtState;
use crate::crdt::loro_doc;
use crate::crdt::loro_doc::{RowFound, Version};

verus! {

/// Whether every one of the fields was put into the map with success, one after
/// the other and each once, on the way from the first of `docs` to the last.
pub open spec fn every_field_put(
    docs: Seq<loro::LoroDoc>,
    map: loro::LoroMap,
    fields: Seq<(String, loro::LoroValue)>,
) -> bool {
    &&& docs.len() == fields.len() + 1
    &&& forall|k: int|
        0 <= k < fields.len() ==> loro_doc::insert_outcome(
            docs[k],
            map,
            (#[trigger] fields[k]).0@,
            fields[k].1,
            docs[k + 1],
            Ok(()),
        )
}

/// Whether a write got hold of a row's map in a collection, which left the
/// document like `with_row`.
pub open spec fn row_opened(
    before: loro::LoroDoc,
    collection: Seq<char>,
    row_id: Seq<char>,
    coll: loro::LoroMap,
    with_row: loro::LoroDoc,
    map: loro::LoroMap,
) -> bool {
    loro_doc::collection_outcome(before, collection, Some(coll)) && loro_doc::container_outcome(
        before,
        coll,
        row_id,
        with_row,
        Ok(map),
    )
}

/// Whether the document came to be as it is by opening the row and putting every
/// one of the fields into its map.
pub open spec fn all_written(
    before: loro::LoroDoc,
    collection: Seq<char>,
    row_id: Seq<char>,
    fields: Seq<(String, loro::LoroValue)>,
    after: loro::LoroDoc,
) -> bool {
    exists|coll: loro::LoroMap, map: loro::LoroMap, docs: Seq<loro::LoroDoc>|
        #![trigger row_opened(before, collection, row_id, coll, docs[0], map)]
        row_opened(before, collection, row_id, coll, docs[0], map) && every_field_put(
            docs,
            map,
            fields,
        ) && docs.last() == after
}

/// A write that succeeds has put every one of the given fields into the row's
/// map, as many as there are, and nothing else stands between the document
/// before and the one that is left.
pub proof fn law_write_puts_every_field(
    before: loro::LoroDoc,
    collection: Seq<char>,
    row_id: Seq<char>,
    fields: Seq<(String, loro::LoroValue)>,
    after: loro::LoroDoc,
)
    requires
        history::upsert_outcome(before, collection, row_id, fields, after, Ok(())),
    ensures
        all_written(before, collection, row_id, fields, after),
{
    let c = choose|c: Option<loro::LoroMap>| #[trigger]
        loro_doc::collection_outcome(before, collection, c) && match c {
            None => false,
            Some(m) => history::row_written(before, m, row_id, fields, after, Ok(())),
        };
    let coll = c->0;
    assert(history::row_written(before, coll, row_id, fields, after, Ok(())));
    let (with_row, m) = choose|
        with_row: loro::LoroDoc,
        m: Result<loro::LoroMap, loro::LoroError>,
    | #[trigger]
        loro_doc::container_outcome(before, coll, row_id, with_row, m) && match m {
            Err(e) => false,
            Ok(x) => history::written(with_row, x, fields, after, Ok(())),
        };
    let map = m->Ok_0;
    assert(history::written(with_row, map, fields, after, Ok(())));
    let docs = choose|docs: Seq<loro::LoroDoc>| #[trigger]
        history::puts(docs, map, fields, Ok(())) && docs[0] == with_row && docs.last() == after;
    assert(every_field_put(docs, map, fields));
    assert(row_opened(before, collection, row_id, coll, docs[0], map));
}

/// For each of the given fields there is, in a write that succeeds, a successful
/// put of that very key and value into the row's map.
pub proof fn law_each_field_is_put(
    before: loro::LoroDoc,
    collection: Seq<char>,
    row_id: Seq<char>,
    fields: Seq<(String, loro::LoroValue)>,
    after: loro::LoroDoc,
    k: int,
)
    requires
        history::upsert_outcome(before, collection, row_id, fields, after, Ok(())),
        0 <= k < fields.len(),
    ensures
        exists|map: loro::LoroMap, from: loro::LoroDoc, to: loro::LoroDoc| #[trigger]
            loro_doc::insert_outcome(from, map, fields[k].0@, fields[k].1, to, Ok(())),
{
    law_write_puts_every_field(before, collection, row_id, fields, after);
    let (coll, map, docs) = choose|
        coll: loro::LoroMap,
        map: loro::LoroMap,
        docs: Seq<loro::LoroDoc>,
    |
        #![trigger row_opened(before, collection, row_id, coll, docs[0], map)]
        row_opened(before, collection, row_id, coll, docs[0], map) && every_field_put(
            docs,
            map,
            fields,
        ) && docs.last() == after;
    assert(loro_doc::insert_outcome(
        docs[k],
        map,
        fields[k].0@,
        fields[k].1,
        docs[k + 1],
        Ok(()),
    ));
}

/// A write to a collection that the document cannot hold is refused by the
/// collection's name and leaves the document as it is. Any other refusal is one
/// of the library's.
pub proof fn law_refused_write_says_why(
    before: loro::LoroDoc,
    collection: Seq<char>,
    row_id: Seq<char>,
    fields: Seq<(String, loro::LoroValue)>,
    after: loro::LoroDoc,
    e: CrdtError,
)
    requires
        history::upsert_outcome(before, collection, row_id, fields, after, Err(e)),
    ensures
        e is UnknownCollection || e is Loro,
        e matches CrdtError::UnknownCollection(s) ==> s@ == collection && after == before
            && loro_doc::collection_outcome(before, collection, None),
{
    let c = choose|c: Option<loro::LoroMap>| #[trigger]
        loro_doc::collection_outcome(before, collection, c) && match c {
            None => e matches CrdtError::UnknownCollection(s) && s@ == collection && after
                == before,
            Some(m) => history::row_written(before, m, row_id, fields, after, Err(e)),
        };
    if c is Some {
        assert(history::row_written(before, c->0, row_id, fields, after, Err(e)));
        let (with_row, m) = choose|
            with_row: loro::LoroDoc,
            m: Result<loro::LoroMap, loro::LoroError>,
        | #[trigger]
            loro_doc::container_outcome(before, c->0, row_id, with_row, m) && match m {
                Err(x) => e == history::loro_failed(x),
                Ok(x) => history::written(with_row, x, fields, after, Err(e)),
            };
        if m is Ok {
            assert(history::written(with_row, m->Ok_0, fields, after, Err(e)));
            let docs = choose|docs: Seq<loro::LoroDoc>| #[trigger]
                history::puts(docs, m->Ok_0, fields, Err(e)) && docs[0] == with_row && docs.last()
                    == after;
            assert(e is Loro);
        }
    }
}

/// Whether a list of fields holds exactly the entries of a map.
pub open spec fn same_fields(
    fields: Seq<(String, loro::LoroValue)>,
    entries: Map<Seq<char>, loro::LoroValue>,
) -> bool {
    &&& forall|i: int|
        0 <= i < fields.len() ==> entries.contains_key((#[trigger] fields[i]).0@)
            && entries[fields[i].0@] == fields[i].1
    &&& forall|k: Seq<char>| #[trigger]
        entries.contains_key(k) ==> exists|i: int|
            0 <= i < fields.len() && (#[trigger] fields[i]).0@ == k
}

/// A restore that succeeds has read the row at the version, found a map there,
/// and written every entry of that map to the row: the row's map was given each
/// key that the row had then, with the value that it had then.
pub proof fn law_restore_writes_every_entry(
    before: loro::LoroDoc,
    collection: Seq<char>,
    row_id: Seq<char>,
    version: Version,
    after: loro::LoroDoc,
    bytes: Vec<u8>,
)
    requires
        history::restore_outcome(before, collection, row_id, version, after, Ok(bytes)),
    ensures
        exists|then: loro::LoroValue, fields: Vec<(String, loro::LoroValue)>|
            #![trigger
                history::read_outcome(before, collection, row_id, version, Ok(Some(then))),
                fields@
            ]
            history::read_outcome(before, collection, row_id, version, Ok(Some(then)))
                && loro_doc::value_entries(then) is Some && same_fields(
                fields@,
                loro_doc::value_entries(then)->0,
            ) && all_written(before, collection, row_id, fields@, after),
{
    let h = choose|h: Result<Option<loro::LoroValue>, CrdtError>| #[trigger]
        history::read_outcome(before, collection, row_id, version, h) && match h {
            Err(e) => false,
            Ok(historical) => restored(before, collection, row_id, historical, after, bytes),
        };
    let historical = h->Ok_0;
    assert(restored(before, collection, row_id, historical, after, bytes));
    let f = choose|f: Result<Vec<(String, loro::LoroValue)>, CrdtError>| #[trigger]
        history::restorable(historical, f) && match f {
            Err(e) => false,
            Ok(fields) => restored_with(before, collection, row_id, fields@, after, bytes),
        };
    let fields = f->Ok_0;
    assert(restored_with(before, collection, row_id, fields@, after, bytes));
    let u = choose|u: Result<(), CrdtError>| #[trigger]
        history::upsert_outcome(before, collection, row_id, fields@, after, u) && match u {
            Err(e) => false,
            Ok(_) => handed_out(before, after, bytes),
        };
    assert(u->Ok_0 == ());
    assert(u == Ok::<(), CrdtError>(()));
    law_write_puts_every_field(before, collection, row_id, fields@, after);
    let then = historical->0;
    assert(h == Ok::<Option<loro::LoroValue>, CrdtError>(Some(then)));
    let entries = loro_doc::value_entries(then)->0;
    assert(same_fields(fields@, entries));
    assert(history::read_outcome(before, collection, row_id, version, Ok(Some(then))));
}

/// What a restore has done once the row was read.
spec fn restored(
    before: loro::LoroDoc,
    collection: Seq<char>,
    row_id: Seq<char>,
    historical: Option<loro::LoroValue>,
    after: loro::LoroDoc,
    bytes: Vec<u8>,
) -> bool {
    exists|f: Result<Vec<(String, loro::LoroValue)>, CrdtError>| #[trigger]
        history::restorable(historical, f) && match f {
            Err(e) => false,
            Ok(fields) => restored_with(before, collection, row_id, fields@, after, bytes),
        }
}

/// What a restore has done once it knows the fields.
spec fn restored_with(
    before: loro::LoroDoc,
    collection: Seq<char>,
    row_id: Seq<char>,
    fields: Seq<(String, loro::LoroValue)>,
    after: loro::LoroDoc,
    bytes: Vec<u8>,
) -> bool {
    exists|u: Result<(), CrdtError>| #[trigger]
        history::upsert_outcome(before, collection, row_id, fields, after, u) && match u {
            Err(e) => false,
            Ok(_) => handed_out(before, after, bytes),
        }
}

/// Whether the bytes are what the document exports since the version that it
/// had before.
pub open spec fn handed_out(before: loro::LoroDoc, after: loro::LoroDoc, bytes: Vec<u8>) -> bool {
    exists|reached: Version, b: Result<Vec<u8>, String>| #[trigger]
        loro_doc::version_outcome(before, reached) && #[trigger] loro_doc::updates_outcome(
            after,
            reached,
            b,
        ) && b == Ok::<Vec<u8>, String>(bytes)
}

/// The operations that a restore hands out are those that the document has
/// gained since before it: an export of the document that is left, since the
/// version that the document had.
pub proof fn law_restore_hands_out_what_it_wrote(
    before: loro::LoroDoc,
    collection: Seq<char>,
    row_id: Seq<char>,
    version: Version,
    after: loro::LoroDoc,
    bytes: Vec<u8>,
)
    requires
        history::restore_outcome(before, collection, row_id, version, after, Ok(bytes)),
    ensures
        handed_out(before, after, bytes),
{
    let h = choose|h: Result<Option<loro::LoroValue>, CrdtError>| #[trigger]
        history::read_outcome(before, collection, row_id, version, h) && match h {
            Err(e) => false,
            Ok(historical) => restored(before, collection, row_id, historical, after, bytes),
        };
    assert(restored(before, collection, row_id, h->Ok_0, after, bytes));
    let f = choose|f: Result<Vec<(String, loro::LoroValue)>, CrdtError>| #[trigger]
        history::restorable(h->Ok_0, f) && match f {
            Err(e) => false,
            Ok(fields) => restored_with(before, collection, row_id, fields@, after, bytes),
        };
    assert(restored_with(before, collection, row_id, f->Ok_0@, after, bytes));
}

/// What can be restored of a row that was not there, or was no map, is nothing,
/// and what can be restored of a map is all of it.
pub proof fn law_all_of_a_map_is_restorable(
    historical: Option<loro::LoroValue>,
    r: Result<Vec<(String, loro::LoroValue)>, CrdtError>,
)
    requires
        history::restorable(historical, r),
    ensures
        r is Ok <==> historical is Some && loro_doc::value_entries(historical->0) is Some,
        r matches Ok(fields) ==> same_fields(
            fields@,
            loro_doc::value_entries(historical->0)->0,
        ),
        r matches Err(e) ==> e is Loro,
{
    if r is Ok {
        let fields = r->Ok_0@;
        let entries = loro_doc::value_entries(historical->0)->0;
        assert forall|k: Seq<char>| #[trigger] entries.contains_key(k) implies exists|i: int|
            0 <= i < fields.len() && (#[trigger] fields[i]).0@ == k by {
            let i = choose|i: int| 0 <= i < fields.len() && fields[i].0@ == k;
            assert(fields[i].0@ == k);
        }
    }
}

/// A row reads as the value that stands in its place, whichever kind it is, and
/// as nothing where nothing stands there.
pub proof fn law_row_reads_as_its_value(
    found: Option<RowFound>,
    v: Option<loro::LoroValue>,
    x: loro::LoroValue,
)
    requires
        history::reads_as(found, v),
    ensures
        found is None <==> v is None,
        found == Some(RowFound::MapRow(x)) || found == Some(RowFound::ListRow(x)) || found == Some(
            RowFound::Plain(x),
        ) ==> v == Some(x),
        found == Some(RowFound::Other) ==> v is Some && loro_doc::is_null_value(v->0),
{
}

/// A reading comes from the document forked at the very version that was asked
/// for, and not from the document as it is.
pub proof fn law_reading_is_of_the_version(
    doc: loro::LoroDoc,
    collection: Seq<char>,
    row_id: Seq<char>,
    version: Version,
    v: Option<loro::LoroValue>,
)
    requires
        history::read_outcome(doc, collection, row_id, version, Ok(v)),
    ensures
        exists|frontiers: loro::Frontiers, forked: loro::LoroDoc|
            loro_doc::frontiers_outcome(doc, version, Ok(frontiers)) && #[trigger]
            loro_doc::fork_outcome(doc, frontiers, Ok(forked)) && #[trigger] history::row_read(
                forked,
                collection,
                row_id,
                v,
            ),
{
    let f = choose|f: Result<loro::Frontiers, loro::LoroError>| #[trigger]
        loro_doc::frontiers_outcome(doc, version, f) && match f {
            Err(e) => false,
            Ok(frontiers) => read_from(doc, collection, row_id, frontiers, v),
        };
    let frontiers = f->Ok_0;
    assert(read_from(doc, collection, row_id, frontiers, v));
    let d = choose|d: Result<loro::LoroDoc, loro::LoroError>| #[trigger]
        loro_doc::fork_outcome(doc, frontiers, d) && match d {
            Err(e) => false,
            Ok(forked) => history::row_read(forked, collection, row_id, v),
        };
    assert(loro_doc::fork_outcome(doc, frontiers, Ok(d->Ok_0)));
    assert(history::row_read(d->Ok_0, collection, row_id, v));
}

/// Whether a reading comes from the document forked at these frontiers.
spec fn read_from(
    doc: loro::LoroDoc,
    collection: Seq<char>,
    row_id: Seq<char>,
    frontiers: loro::Frontiers,
    v: Option<loro::LoroValue>,
) -> bool {
    exists|d: Result<loro::LoroDoc, loro::LoroError>| #[trigger]
        loro_doc::fork_outcome(doc, frontiers, d) && match d {
            Err(e) => false,
            Ok(forked) => history::row_read(forked, collection, row_id, v),
        }
}

/// Bytes are handed on as they came; a refusal is handed on with what was being
/// done in front.
pub proof fn law_bytes_are_handed_on(
    outcome: Result<Vec<u8>, String>,
    doing: Seq<char>,
    r: Result<Vec<u8>, CrdtError>,
)
    requires
        history::bytes_handed_on(outcome, doing, r),
    ensures
        outcome is Ok <==> r is Ok,
        outcome is Ok ==> r->Ok_0 == outcome->Ok_0,
        outcome is Err ==> (r->Err_0 matches CrdtError::Loro(s) && doing.is_prefix_of(s@)
            && outcome->Err_0@.is_suffix_of(s@)),
{
    if outcome is Err {
        let d = outcome->Err_0@;
        let s = doing + d;
        assert(doing =~= s.subrange(0, doing.len() as int));
        assert(d =~= s.subrange((s.len() - d.len()) as int, s.len() as int));
    }
}

/// A compaction that fails leaves everything as it was; one that succeeds keeps
/// the peer.
pub proof fn law_failed_compaction_changes_nothing(
    from: CrdtState,
    to: CrdtState,
    version: Version,
    r: Result<(), CrdtError>,
)
    requires
        history::compact_outcome(from, to, version, r),
    ensures
        r is Err ==> to == from,
        to.peer_id == from.peer_id,
        r is Ok ==> from.peer_id != u64::MAX,
{
    let f = choose|f: Result<loro::Frontiers, loro::LoroError>| #[trigger]
        loro_doc::frontiers_outcome(from.doc, version, f) && match f {
            Err(e) => r is Err && to == from,
            Ok(frontiers) => compacted(from, to, frontiers, r),
        };
    if f is Ok {
        assert(compacted(from, to, f->Ok_0, r));
        let s = choose|s: Result<Vec<u8>, String>| #[trigger]
            loro_doc::snapshot_outcome(from.doc, f->Ok_0, s) && match s {
                Err(d) => r is Err && to == from,
                Ok(snapshot) => refilled_from(from, to, snapshot@, r),
            };
        if s is Ok {
            assert(refilled_from(from, to, s->Ok_0@, r));
            let n = choose|n: loro::LoroDoc| #[trigger]
                loro_doc::made_empty(n) && history::refilled(from, to, n, s->Ok_0@, r);
            assert(history::refilled(from, to, n, s->Ok_0@, r));
        }
    }
}

/// What a compaction has done once it knows the frontiers.
spec fn compacted(
    from: CrdtState,
    to: CrdtState,
    frontiers: loro::Frontiers,
    r: Result<(), CrdtError>,
) -> bool {
    exists|s: Result<Vec<u8>, String>| #[trigger]
        loro_doc::snapshot_outcome(from.doc, frontiers, s) && match s {
            Err(d) => r is Err && to == from,
            Ok(snapshot) => refilled_from(from, to, snapshot@, r),
        }
}

/// What a compaction has done once it has the snapshot.
spec fn refilled_from(
    from: CrdtState,
    to: CrdtState,
    snapshot: Seq<u8>,
    r: Result<(), CrdtError>,
) -> bool {
    exists|n: loro::LoroDoc| #[trigger]
        loro_doc::made_empty(n) && history::refilled(from, to, n, snapshot, r)
}

/// A document that has taken the place of the compacted one is an empty one that
/// got the old one's peer and took in a snapshot of the old one at the version.
pub proof fn law_compacted_document_holds_the_snapshot(
    from: CrdtState,
    to: CrdtState,
    version: Version,
)
    requires
        history::compact_outcome(from, to, version, Ok(())),
    ensures
        exists|
            frontiers: loro::Frontiers,
            snapshot: Vec<u8>,
            n: loro::LoroDoc,
            own: loro::LoroDoc,
        |
            loro_doc::frontiers_outcome(from.doc, version, Ok(frontiers)) && #[trigger]
            loro_doc::snapshot_outcome(from.doc, frontiers, Ok(snapshot))
                && loro_doc::made_empty(n) && #[trigger] loro_doc::peer_outcome(
                n,
                from.peer_id,
                own,
                Ok(()),
            ) && loro_doc::import_outcome(own, snapshot@, to.doc, Ok(())),
{
    let f = choose|f: Result<loro::Frontiers, loro::LoroError>| #[trigger]
        loro_doc::frontiers_outcome(from.doc, version, f) && match f {
            Err(e) => false,
            Ok(frontiers) => compacted(from, to, frontiers, Ok(())),
        };
    assert(compacted(from, to, f->Ok_0, Ok(())));
    let s = choose|s: Result<Vec<u8>, String>| #[trigger]
        loro_doc::snapshot_outcome(from.doc, f->Ok_0, s) && match s {
            Err(d) => false,
            Ok(snapshot) => refilled_from(from, to, snapshot@, Ok(())),
        };
    let snapshot = s->Ok_0;
    assert(refilled_from(from, to, snapshot@, Ok(())));
    let n = choose|n: loro::LoroDoc| #[trigger]
        loro_doc::made_empty(n) && history::refilled(from, to, n, snapshot@, Ok(()));
    assert(history::refilled(from, to, n, snapshot@, Ok(())));
    let (own, p) = choose|own: loro::LoroDoc, p: Result<(), loro::LoroError>| #[trigger]
        loro_doc::peer_outcome(n, from.peer_id, own, p) && match p {
            Err(e) => false,
            Ok(_) => taken_in(own, snapshot@, to),
        };
    assert(p->Ok_0 == ());
    assert(p == Ok::<(), loro::LoroError>(()));
    assert(taken_in(own, snapshot@, to));
    let (filled, i) = choose|filled: loro::LoroDoc, i: Result<(), loro::LoroError>| #[trigger]
        loro_doc::import_outcome(own, snapshot@, filled, i) && match i {
            Err(e) => false,
            Ok(_) => to.doc == filled,
        };
    assert(i->Ok_0 == ());
    assert(i == Ok::<(), loro::LoroError>(()));
    assert(loro_doc::snapshot_outcome(from.doc, f->Ok_0, Ok(snapshot)));
    assert(loro_doc::peer_outcome(n, from.peer_id, own, Ok(())));
}

/// Whether a document took in the snapshot and is the one that is then held.
spec fn taken_in(own: loro::LoroDoc, snapshot: Seq<u8>, to: CrdtState) -> bool {
    exists|filled: loro::LoroDoc, i: Result<(), loro::LoroError>| #[trigger]
        loro_doc::import_outcome(own, snapshot, filled, i) && match i {
            Err(e) => false,
            Ok(_) => to.doc == filled,
        }
}

/// Whether the fields before the `i`-th were put one after the other, and the
/// `i`-th was refused.
pub open spec fn put_until(
    docs: Seq<loro::LoroDoc>,
    map: loro::LoroMap,
    fields: Seq<(String, loro::LoroValue)>,
    i: int,
    e: loro::LoroError,
) -> bool {
    &&& 0 <= i < fields.len()
    &&& docs.len() == i + 2
    &&& forall|k: int|
        0 <= k < i ==> loro_doc::insert_outcome(
            docs[k],
            map,
            (#[trigger] fields[k]).0@,
            fields[k].1,
            docs[k + 1],
            Ok(()),
        )
    &&& loro_doc::insert_outcome(docs[i], map, fields[i].0@, fields[i].1, docs[i + 1], Err(e))
}

/// Putting fields that ends with an error has put every field before the one
/// that was refused, stopped there, and hands that refusal on.
pub proof fn law_refused_field_ends_the_write(
    before: loro::LoroDoc,
    map: loro::LoroMap,
    fields: Seq<(String, loro::LoroValue)>,
    after: loro::LoroDoc,
    x: CrdtError,
)
    requires
        history::written(before, map, fields, after, Err(x)),
    ensures
        exists|docs: Seq<loro::LoroDoc>, i: int, e: loro::LoroError| #[trigger]
            put_until(docs, map, fields, i, e) && docs[0] == before && docs.last() == after && x
                == CrdtError::Loro(error::loro_error_text(e)),
{
    let docs = choose|docs: Seq<loro::LoroDoc>| #[trigger]
        history::puts(docs, map, fields, Err(x)) && docs[0] == before && docs.last() == after;
    let i = docs.len() - 2;
    let e = choose|e: loro::LoroError| #[trigger]
        loro_doc::insert_outcome(
            docs[i],
            map,
            fields[i].0@,
            fields[i].1,
            docs[i + 1],
            Err(e),
        ) && x == history::loro_failed(e);
    assert(put_until(docs, map, fields, i, e));
}

} // verus!
