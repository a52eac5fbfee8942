//! A document's history: reading old versions, compacting, restoring.

use vstd::prelude::*;

use crate::crdt::error::{self, CrdtError};
use crate::crdt::loro_doc::{self, RowFound, Version};

verus! {

/// A document and the peer that writes to it here.
pub struct CrdtState {
    pub doc: loro::LoroDoc,
    pub peer_id: u64,
}

/// The error that stands for one of the document library.
pub open spec fn loro_failed(e: loro::LoroError) -> CrdtError {
    CrdtError::Loro(error::loro_error_text(e))
}

/// Whether this is the library's refusal `detail`, with what was being done in
/// front.
pub open spec fn failed_while(e: CrdtError, doing: Seq<char>, detail: Seq<char>) -> bool {
    e matches CrdtError::Loro(s) && s@ == doing + detail
}

/// The library's refusal, with what was being done in front.
fn failure(doing: &str, detail: String) -> (r: CrdtError)
    ensures
        failed_while(r, doing@, detail@),
{
    let mut s = doing.to_owned();
    s.append(detail.as_str());
    CrdtError::Loro(s)
}

/// What the bytes that a call gave become for the caller.
pub open spec fn bytes_handed_on(
    outcome: Result<Vec<u8>, String>,
    doing: Seq<char>,
    r: Result<Vec<u8>, CrdtError>,
) -> bool {
    match outcome {
        Ok(b) => r == Ok::<Vec<u8>, CrdtError>(b),
        Err(d) => r matches Err(e) && failed_while(e, doing, d@),
    }
}

/// Hands bytes on, or says what was being done when they could not be had.
pub fn exported(outcome: Result<Vec<u8>, String>, doing: &str) -> (r: Result<Vec<u8>, CrdtError>)
    ensures
        bytes_handed_on(outcome, doing@, r),
{
    match outcome {
        Ok(b) => Ok(b),
        Err(d) => Err(failure(doing, d)),
    }
}

/// What a row reads as: the value in its place. A container that is neither a
/// map nor a list reads as null.
pub open spec fn reads_as(found: Option<RowFound>, v: Option<loro::LoroValue>) -> bool {
    match found {
        None => v is None,
        Some(RowFound::MapRow(x)) => v == Some(x),
        Some(RowFound::ListRow(x)) => v == Some(x),
        Some(RowFound::Plain(x)) => v == Some(x),
        Some(RowFound::Other) => v matches Some(n) && loro_doc::is_null_value(n),
    }
}

/// What a row reads as.
pub fn row_value(found: Option<RowFound>) -> (r: Option<loro::LoroValue>)
    ensures
        reads_as(found, r),
{
    match found {
        None => None,
        Some(RowFound::MapRow(x)) => Some(x),
        Some(RowFound::ListRow(x)) => Some(x),
        Some(RowFound::Plain(x)) => Some(x),
        Some(RowFound::Other) => Some(loro_doc::null_value()),
    }
}

/// What can be restored of a row: its fields, if it was there and was a map.
pub open spec fn restorable(
    historical: Option<loro::LoroValue>,
    r: Result<Vec<(String, loro::LoroValue)>, CrdtError>,
) -> bool {
    match historical {
        None => r matches Err(e) && failed_while(
            e,
            "document did not exist at target version"@,
            Seq::empty(),
        ),
        Some(v) => match loro_doc::value_entries(v) {
            None => r matches Err(e) && failed_while(
                e,
                "historical state is not a map"@,
                Seq::empty(),
            ),
            Some(entries) => r matches Ok(fields) && loro_doc::lists_entries(fields@, entries),
        },
    }
}

/// What can be restored of a row.
pub fn fields_to_restore(historical: Option<loro::LoroValue>) -> (r: Result<
    Vec<(String, loro::LoroValue)>,
    CrdtError,
>)
    ensures
        restorable(historical, r),
{
    match historical {
        None => {
            let s = "document did not exist at target version".to_owned();
            assert(s@ =~= "document did not exist at target version"@ + Seq::<char>::empty());
            Err(CrdtError::Loro(s))
        },
        Some(v) => match loro_doc::map_fields(&v) {
            None => {
                let s = "historical state is not a map".to_owned();
                assert(s@ =~= "historical state is not a map"@ + Seq::<char>::empty());
                Err(CrdtError::Loro(s))
            },
            Some(fields) => Ok(fields),
        },
    }
}

/// What reading a row can come to: nothing is found in a collection that the
/// document cannot hold.
pub open spec fn row_read(
    doc: loro::LoroDoc,
    collection: Seq<char>,
    row_id: Seq<char>,
    v: Option<loro::LoroValue>,
) -> bool {
    exists|c: Option<loro::LoroMap>| #[trigger]
        loro_doc::collection_outcome(doc, collection, c) && match c {
            None => v is None,
            Some(m) => exists|found: Option<RowFound>| #[trigger]
                loro_doc::row_outcome(m, row_id, found) && reads_as(found, v),
        }
}

/// What reading a row at a version can come to.
pub open spec fn read_outcome(
    doc: loro::LoroDoc,
    collection: Seq<char>,
    row_id: Seq<char>,
    version: Version,
    r: Result<Option<loro::LoroValue>, CrdtError>,
) -> bool {
    exists|f: Result<loro::Frontiers, loro::LoroError>| #[trigger]
        loro_doc::frontiers_outcome(doc, version, f) && match f {
            Err(e) => r == Err::<Option<loro::LoroValue>, CrdtError>(loro_failed(e)),
            Ok(frontiers) => exists|d: Result<loro::LoroDoc, loro::LoroError>| #[trigger]
                loro_doc::fork_outcome(doc, frontiers, d) && match d {
                    Err(e) => r == Err::<Option<loro::LoroValue>, CrdtError>(loro_failed(e)),
                    Ok(forked) => r matches Ok(v) && row_read(forked, collection, row_id, v),
                },
        }
}

/// That the first `n` fields were put into a row's map one after the other, and
/// left the document first like `docs[1]`, then like `docs[2]`, and so on.
pub open spec fn put_in_turn(
    docs: Seq<loro::LoroDoc>,
    map: loro::LoroMap,
    fields: Seq<(String, loro::LoroValue)>,
    n: int,
) -> bool {
    forall|k: int|
        0 <= k < n ==> loro_doc::insert_outcome(
            docs[k],
            map,
            (#[trigger] fields[k]).0@,
            fields[k].1,
            docs[k + 1],
            Ok(()),
        )
}

/// What putting fields into a row's map can come to: they are put one after the
/// other, up to the first that is refused. The document is left like the last of
/// `docs`.
pub open spec fn puts(
    docs: Seq<loro::LoroDoc>,
    map: loro::LoroMap,
    fields: Seq<(String, loro::LoroValue)>,
    r: Result<(), CrdtError>,
) -> bool {
    match r {
        Ok(_) => docs.len() == fields.len() + 1 && put_in_turn(
            docs,
            map,
            fields,
            fields.len() as int,
        ),
        Err(x) => {
            let i = docs.len() - 2;
            &&& 0 <= i < fields.len()
            &&& put_in_turn(docs, map, fields, i)
            &&& exists|e: loro::LoroError| #[trigger]
                loro_doc::insert_outcome(
                    docs[i],
                    map,
                    fields[i].0@,
                    fields[i].1,
                    docs[i + 1],
                    Err(e),
                ) && x == loro_failed(e)
        },
    }
}

/// What putting fields into a row's map can come to, and the document that is
/// left.
pub open spec fn written(
    before: loro::LoroDoc,
    map: loro::LoroMap,
    fields: Seq<(String, loro::LoroValue)>,
    after: loro::LoroDoc,
    r: Result<(), CrdtError>,
) -> bool {
    exists|docs: Seq<loro::LoroDoc>| #[trigger]
        puts(docs, map, fields, r) && docs[0] == before && docs.last() == after
}

/// What writing fields to a row of a collection can come to, and the document
/// that is left.
pub open spec fn row_written(
    before: loro::LoroDoc,
    collection: loro::LoroMap,
    row_id: Seq<char>,
    fields: Seq<(String, loro::LoroValue)>,
    after: loro::LoroDoc,
    r: Result<(), CrdtError>,
) -> bool {
    exists|with_row: loro::LoroDoc, c: Result<loro::LoroMap, loro::LoroError>| #[trigger]
        loro_doc::container_outcome(before, collection, row_id, with_row, c) && match c {
            Err(e) => r == Err::<(), CrdtError>(loro_failed(e)) && after == with_row,
            Ok(m) => written(with_row, m, fields, after, r),
        }
}

/// What writing fields to a row can come to, and the document that is left.
pub open spec fn upsert_outcome(
    before: loro::LoroDoc,
    collection: Seq<char>,
    row_id: Seq<char>,
    fields: Seq<(String, loro::LoroValue)>,
    after: loro::LoroDoc,
    r: Result<(), CrdtError>,
) -> bool {
    exists|c: Option<loro::LoroMap>| #[trigger]
        loro_doc::collection_outcome(before, collection, c) && match c {
            None => (r matches Err(x) && (x matches CrdtError::UnknownCollection(s) && s@
                == collection)) && after == before,
            Some(m) => row_written(before, m, row_id, fields, after, r),
        }
}

/// What a restore can come to, and the document that is left: the operations
/// handed out are those since the version before the row was written.
pub open spec fn restore_outcome(
    before: loro::LoroDoc,
    collection: Seq<char>,
    row_id: Seq<char>,
    version: Version,
    after: loro::LoroDoc,
    r: Result<Vec<u8>, CrdtError>,
) -> bool {
    exists|h: Result<Option<loro::LoroValue>, CrdtError>| #[trigger]
        read_outcome(before, collection, row_id, version, h) && match h {
            Err(e) => r == Err::<Vec<u8>, CrdtError>(e) && after == before,
            Ok(historical) => exists|f: Result<Vec<(String, loro::LoroValue)>, CrdtError>|
                #[trigger]
                restorable(historical, f) && match f {
                    Err(e) => r == Err::<Vec<u8>, CrdtError>(e) && after == before,
                    Ok(fields) => exists|u: Result<(), CrdtError>| #[trigger]
                        upsert_outcome(before, collection, row_id, fields@, after, u) && match u {
                            Err(e) => r == Err::<Vec<u8>, CrdtError>(e),
                            Ok(_) => exists|
                                reached: Version,
                                b: Result<Vec<u8>, String>,
                            | #[trigger]
                                loro_doc::version_outcome(before, reached) && #[trigger]
                                loro_doc::updates_outcome(after, reached, b) && bytes_handed_on(
                                    b,
                                    "restore delta export: "@,
                                    r,
                                ),
                        },
                },
        }
}

/// What a compaction can come to, and the document that is then held.
pub open spec fn compact_outcome(
    from: CrdtState,
    to: CrdtState,
    version: Version,
    r: Result<(), CrdtError>,
) -> bool {
    exists|f: Result<loro::Frontiers, loro::LoroError>| #[trigger]
        loro_doc::frontiers_outcome(from.doc, version, f) && match f {
            Err(e) => r == Err::<(), CrdtError>(loro_failed(e)) && to == from,
            Ok(frontiers) => exists|s: Result<Vec<u8>, String>| #[trigger]
                loro_doc::snapshot_outcome(from.doc, frontiers, s) && match s {
                    Err(d) => r matches Err(e) && failed_while(
                        e,
                        "shallow snapshot export: "@,
                        d@,
                    ) && to == from,
                    Ok(snapshot) => exists|n: loro::LoroDoc| #[trigger]
                        loro_doc::made_empty(n) && refilled(from, to, n, snapshot@, r),
                },
        }
}

/// What filling an empty document with a snapshot can come to: it takes the old
/// one's place only if it got the peer and the snapshot.
pub open spec fn refilled(
    from: CrdtState,
    to: CrdtState,
    n: loro::LoroDoc,
    snapshot: Seq<u8>,
    r: Result<(), CrdtError>,
) -> bool {
    exists|own: loro::LoroDoc, p: Result<(), loro::LoroError>| #[trigger]
        loro_doc::peer_outcome(n, from.peer_id, own, p) && match p {
            Err(e) => (r matches Err(x) && failed_while(
                x,
                "set peer_id on compacted doc: "@,
                error::loro_error_text(e)@,
            )) && to == from && from.peer_id == u64::MAX,
            Ok(_) => from.peer_id != u64::MAX && exists|
                filled: loro::LoroDoc,
                i: Result<(), loro::LoroError>,
            | #[trigger]
                loro_doc::import_outcome(own, snapshot, filled, i) && match i {
                    Err(e) => r matches Err(x) && failed_while(
                        x,
                        "shallow snapshot import: "@,
                        error::loro_error_text(e)@,
                    ) && to == from,
                    Ok(_) => r == Ok::<(), CrdtError>(()) && to == (CrdtState {
                        doc: filled,
                        peer_id: from.peer_id,
                    }),
                },
        }
}

impl CrdtState {
    /// An empty document, written to by a peer. The highest peer is reserved.
    pub fn new(peer_id: u64) -> (r: Result<CrdtState, CrdtError>)
        ensures
            r is Ok <==> peer_id != u64::MAX,
            exists|n: loro::LoroDoc, own: loro::LoroDoc, p: Result<(), loro::LoroError>|
                #[trigger]
                loro_doc::made_empty(n) && #[trigger] loro_doc::peer_outcome(n, peer_id, own, p)
                    && match p {
                    Ok(_) => r == Ok::<CrdtState, CrdtError>((CrdtState { doc: own, peer_id })),
                    Err(e) => r == Err::<CrdtState, CrdtError>(loro_failed(e)),
                },
    {
        let mut doc = loro_doc::empty_doc();
        match loro_doc::set_peer(&mut doc, peer_id) {
            Ok(_) => Ok(CrdtState { doc, peer_id }),
            Err(e) => Err(CrdtError::from(e)),
        }
    }

    /// How much history the document holds.
    pub fn oplog_version_vector(&self) -> (r: Version)
        ensures
            loro_doc::version_outcome(self.doc, r),
    {
        loro_doc::oplog_version(&self.doc)
    }

    /// Reads a row as it was at a version: none if it was not there.
    pub fn read_at_version(
        &self,
        collection: &str,
        row_id: &str,
        version: &Version,
    ) -> (r: Result<Option<loro::LoroValue>, CrdtError>)
        ensures
            read_outcome(self.doc, collection@, row_id@, *version, r),
    {
        let frontiers = match loro_doc::frontiers_at(&self.doc, version) {
            Ok(f) => f,
            Err(e) => {
                return Err(CrdtError::from(e));
            },
        };
        let forked = match loro_doc::fork_at(&self.doc, &frontiers) {
            Ok(d) => d,
            Err(e) => {
                return Err(CrdtError::from(e));
            },
        };
        let r = match loro_doc::collection_map(&forked, collection) {
            Some(m) => row_value(loro_doc::find_row(&m, row_id)),
            None => None,
        };
        assert(row_read(forked, collection@, row_id@, r));
        Ok(r)
    }

    /// The operations since a version.
    pub fn export_updates_since(&self, from_version: &Version) -> (r: Result<
        Vec<u8>,
        CrdtError,
    >)
        ensures
            exists|b: Result<Vec<u8>, String>| #[trigger]
                loro_doc::updates_outcome(self.doc, *from_version, b) && bytes_handed_on(
                    b,
                    "delta export: "@,
                    r,
                ),
    {
        exported(loro_doc::export_updates(&self.doc, from_version), "delta export: ")
    }

    /// Drops the history before a version. The document is replaced only if
    /// nothing failed.
    pub fn compact_at_version(&mut self, version: &Version) -> (r: Result<
        (),
        CrdtError,
    >)
        ensures
            compact_outcome(*old(self), *final(self), *version, r),
    {
        let frontiers = match loro_doc::frontiers_at(&self.doc, version) {
            Ok(f) => f,
            Err(e) => {
                return Err(CrdtError::from(e));
            },
        };
        let snapshot = match exported(
            loro_doc::export_shallow(&self.doc, &frontiers),
            "shallow snapshot export: ",
        ) {
            Ok(s) => s,
            Err(e) => {
                return Err(e);
            },
        };
        let mut new_doc = loro_doc::empty_doc();
        match loro_doc::set_peer(&mut new_doc, self.peer_id) {
            Ok(_) => {},
            Err(e) => {
                return Err(failure("set peer_id on compacted doc: ", error::error_text(&e)));
            },
        }
        match loro_doc::import(&mut new_doc, snapshot.as_slice()) {
            Ok(_) => {},
            Err(e) => {
                return Err(failure("shallow snapshot import: ", error::error_text(&e)));
            },
        }
        self.doc = new_doc;
        Ok(())
    }

    /// Writes fields to a row, which is made if it is not there.
    pub fn upsert(
        &mut self,
        collection: &str,
        row_id: &str,
        fields: &Vec<(String, loro::LoroValue)>,
    ) -> (r: Result<(), CrdtError>)
        ensures
            upsert_outcome(
                old(self).doc,
                collection@,
                row_id@,
                fields@,
                final(self).doc,
                r,
            ),
            final(self).peer_id == old(self).peer_id,
    {
        let coll = match loro_doc::collection_map(&self.doc, collection) {
            None => {
                return Err(CrdtError::UnknownCollection(collection.to_owned()));
            },
            Some(c) => c,
        };
        let map = match loro_doc::row_map(&mut self.doc, &coll, row_id) {
            Err(e) => {
                return Err(CrdtError::from(e));
            },
            Ok(m) => m,
        };
        let ghost with_row = self.doc;
        let ghost mut docs = seq![with_row];
        let mut i: usize = 0;
        while i < fields.len()
            invariant
                i <= fields@.len(),
                docs.len() == i + 1,
                docs[0] == with_row,
                docs.last() == self.doc,
                put_in_turn(docs, map, fields@, i as int),
                loro_doc::collection_outcome(old(self).doc, collection@, Some(coll)),
                loro_doc::container_outcome(old(self).doc, coll, row_id@, with_row, Ok(map)),
                self.peer_id == old(self).peer_id,
            decreases fields@.len() - i,
        {
            let outcome = loro_doc::insert_field(
                &mut self.doc,
                &map,
                &fields[i].0,
                &fields[i].1,
            );
            proof {
                docs = docs.push(self.doc);
            }
            match outcome {
                Ok(done) => {
                    assert(done == ());
                },
                Err(e) => {
                    let ghost refused = e;
                    let r: Result<(), CrdtError> = Err(CrdtError::from(e));
                    assert(loro_doc::insert_outcome(
                        docs[i as int],
                        map,
                        fields@[i as int].0@,
                        fields@[i as int].1,
                        docs[i + 1],
                        Err(refused),
                    ));
                    assert(puts(docs, map, fields@, r) && docs[0] == with_row);
                    assert(written(with_row, map, fields@, self.doc, r));
                    assert(row_written(old(self).doc, coll, row_id@, fields@, self.doc, r));
                    return r;
                },
            }
            i = i + 1;
        }
        assert(puts(docs, map, fields@, Ok(())));
        assert(written(with_row, map, fields@, self.doc, Ok(())));
        assert(row_written(old(self).doc, coll, row_id@, fields@, self.doc, Ok(())));
        Ok(())
    }

    /// Makes a row again what it was at a version, by writing its fields anew,
    /// and gives the operations that did so. History is kept.
    pub fn restore_to_version(
        &mut self,
        collection: &str,
        row_id: &str,
        version: &Version,
    ) -> (r: Result<Vec<u8>, CrdtError>)
        ensures
            restore_outcome(
                old(self).doc,
                collection@,
                row_id@,
                *version,
                final(self).doc,
                r,
            ),
            final(self).peer_id == old(self).peer_id,
    {
        let historical = match self.read_at_version(collection, row_id, version) {
            Ok(h) => h,
            Err(e) => {
                return Err(e);
            },
        };
        let reached = loro_doc::oplog_version(&self.doc);
        let fields = match fields_to_restore(historical) {
            Ok(f) => f,
            Err(e) => {
                return Err(e);
            },
        };
        match self.upsert(collection, row_id, &fields) {
            Ok(_) => {},
            Err(e) => {
                return Err(e);
            },
        }
        exported(loro_doc::export_updates(&self.doc, &reached), "restore delta export: ")
    }
}

} // verus!
