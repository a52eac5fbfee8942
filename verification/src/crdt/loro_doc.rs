//! The calls into the document library.
//!
//! A document commits pending operations when it is read or exported, so nothing
//! here says that two calls on one document agree. Each call has a relation of
//! its own, which holds of the arguments and of what came back. A call that
//! writes takes the document by `&mut`, and its relation holds of the document
//! before and after.

use vstd::prelude::*;

verus! {

/// A document.
#[verifier::external_type_specification]
#[verifier::external_body]
pub struct ExLoroDoc(loro::LoroDoc);

/// A map inside a document.
#[verifier::external_type_specification]
#[verifier::external_body]
pub struct ExLoroMap(loro::LoroMap);

/// A value that a document holds.
#[verifier::external_type_specification]
#[verifier::external_body]
pub struct ExLoroValue(loro::LoroValue);

/// How much of each peer's history a version takes in: a
/// `loro::VersionVector`.
#[verifier::external_body]
pub struct Version {
    vector: loro::VersionVector,
}

/// The last operations of a version.
#[verifier::external_type_specification]
#[verifier::external_body]
pub struct ExFrontiers(loro::Frontiers);

/// What stands in a row's place.
pub enum RowFound {
    /// A map, with its value.
    MapRow(loro::LoroValue),
    /// A list, with its value.
    ListRow(loro::LoroValue),
    /// A plain value.
    Plain(loro::LoroValue),
    /// A container of another kind.
    Other,
}

/// That a document said that this is its version.
pub uninterp spec fn version_outcome(doc: loro::LoroDoc, version: Version) -> bool;

/// Calls `LoroDoc::oplog_vv`. The version may be another at the next call.
#[verifier::external_body]
pub(crate) fn oplog_version(doc: &loro::LoroDoc) -> (r: Version)
    ensures
        version_outcome(*doc, r),
{
    Version { vector: doc.oplog_vv() }
}

/// That a document gave these frontiers for a version.
pub uninterp spec fn frontiers_outcome(
    doc: loro::LoroDoc,
    version: Version,
    outcome: Result<loro::Frontiers, loro::LoroError>,
) -> bool;

/// Calls `LoroDoc::try_vv_to_frontiers`, which reports a version that the
/// document does not know. What comes back depends on the history held.
#[verifier::external_body]
pub(crate) fn frontiers_at(doc: &loro::LoroDoc, version: &Version) -> (r: Result<
    loro::Frontiers,
    loro::LoroError,
>)
    ensures
        frontiers_outcome(*doc, *version, r),
{
    doc.try_vv_to_frontiers(&version.vector)
}

/// That forking a document at these frontiers gave this document.
pub uninterp spec fn fork_outcome(
    doc: loro::LoroDoc,
    frontiers: loro::Frontiers,
    outcome: Result<loro::LoroDoc, loro::LoroError>,
) -> bool;

/// Calls `LoroDoc::fork_at`: a document with the history before the frontiers
/// and a peer of its own, picked at random.
#[verifier::external_body]
pub(crate) fn fork_at(doc: &loro::LoroDoc, frontiers: &loro::Frontiers) -> (r: Result<
    loro::LoroDoc,
    loro::LoroError,
>)
    ensures
        fork_outcome(*doc, *frontiers, r),
{
    doc.fork_at(frontiers)
}

/// That a document was asked for a collection with this outcome.
pub uninterp spec fn collection_outcome(
    doc: loro::LoroDoc,
    collection: Seq<char>,
    outcome: Option<loro::LoroMap>,
) -> bool;

/// Calls `LoroDoc::try_get_map`: the map of a collection; none if the document
/// cannot hold a map of that name.
#[verifier::external_body]
pub(crate) fn collection_map(doc: &loro::LoroDoc, collection: &str) -> (r: Option<loro::LoroMap>)
    ensures
        collection_outcome(*doc, collection@, r),
{
    doc.try_get_map(collection)
}

/// That this was found in a row's place.
pub uninterp spec fn row_outcome(
    map: loro::LoroMap,
    row_id: Seq<char>,
    outcome: Option<RowFound>,
) -> bool;

/// Calls `LoroMap::get`, and `get_value` of a map or a list.
#[verifier::external_body]
pub(crate) fn find_row(map: &loro::LoroMap, row_id: &str) -> (r: Option<RowFound>)
    ensures
        row_outcome(*map, row_id@, r),
{
    match map.get(row_id)? {
        loro::ValueOrContainer::Container(loro::Container::Map(m)) => Some(
            RowFound::MapRow(m.get_value()),
        ),
        loro::ValueOrContainer::Container(loro::Container::List(l)) => Some(
            RowFound::ListRow(l.get_value()),
        ),
        loro::ValueOrContainer::Value(v) => Some(RowFound::Plain(v)),
        loro::ValueOrContainer::Container(_) => Some(RowFound::Other),
    }
}

/// Whether a value is the null value.
pub uninterp spec fn is_null_value(v: loro::LoroValue) -> bool;

/// Makes `LoroValue::Null`.
#[verifier::external_body]
pub(crate) fn null_value() -> (r: loro::LoroValue)
    ensures
        is_null_value(r),
{
    loro::LoroValue::Null
}

/// The entries of a value that is a map; none for any other value.
pub uninterp spec fn value_entries(v: loro::LoroValue) -> Option<Map<Seq<char>, loro::LoroValue>>;

/// Whether a list holds each entry of a map once, in some order.
pub open spec fn lists_entries(
    fields: Seq<(String, loro::LoroValue)>,
    entries: Map<Seq<char>, loro::LoroValue>,
) -> bool {
    &&& forall|i: int|
        0 <= i < fields.len() ==> entries.contains_key((#[trigger] fields[i]).0@)
            && entries[fields[i].0@] == fields[i].1
    &&& forall|k: Seq<char>| #[trigger]
        entries.contains_key(k) ==> exists|i: int| 0 <= i < fields.len() && fields[i].0@ == k
    &&& forall|i: int, j: int|
        0 <= i < j < fields.len() ==> (#[trigger] fields[i]).0@ != (#[trigger] fields[j]).0@
}

/// Takes a `LoroValue` apart: the entries of a map, each once. The order is that
/// of the hash map that holds them.
#[verifier::external_body]
pub(crate) fn map_fields(v: &loro::LoroValue) -> (r: Option<Vec<(String, loro::LoroValue)>>)
    ensures
        match r {
            None => value_entries(*v) is None,
            Some(fields) => value_entries(*v) matches Some(entries) && lists_entries(
                fields@,
                entries,
            ),
        },
{
    match v {
        loro::LoroValue::Map(m) => Some(m.iter().map(|(k, v)| (k.clone(), v.clone())).collect()),
        _ => None,
    }
}

/// That a row's map was asked for with this outcome, which left the document
/// like this.
pub uninterp spec fn container_outcome(
    before: loro::LoroDoc,
    map: loro::LoroMap,
    row_id: Seq<char>,
    after: loro::LoroDoc,
    outcome: Result<loro::LoroMap, loro::LoroError>,
) -> bool;

/// Calls `LoroMap::get_or_create_container` on a collection of the document,
/// which changes through it: the map in a row's place, which is made if nothing
/// stands there.
#[allow(deprecated, unused_variables)]
#[verifier::external_body]
pub(crate) fn row_map(doc: &mut loro::LoroDoc, map: &loro::LoroMap, row_id: &str) -> (r: Result<
    loro::LoroMap,
    loro::LoroError,
>)
    ensures
        container_outcome(*old(doc), *map, row_id@, *final(doc), r),
{
    map.get_or_create_container(row_id, loro::LoroMap::new())
}

/// That putting a value into a map of a document had this outcome, which left
/// the document like this.
pub uninterp spec fn insert_outcome(
    before: loro::LoroDoc,
    map: loro::LoroMap,
    key: Seq<char>,
    value: loro::LoroValue,
    after: loro::LoroDoc,
    outcome: Result<(), loro::LoroError>,
) -> bool;

/// Calls `LoroMap::insert` on a map of the document, which changes through it.
/// What the map then gives back for the key is left open: a byte string that
/// marks a container reads as that container.
#[allow(unused_variables)]
#[verifier::external_body]
pub(crate) fn insert_field(
    doc: &mut loro::LoroDoc,
    map: &loro::LoroMap,
    key: &String,
    value: &loro::LoroValue,
) -> (r: Result<(), loro::LoroError>)
    ensures
        insert_outcome(*old(doc), *map, key@, *value, *final(doc), r),
{
    map.insert(key, value.clone())
}

/// That exporting what came after a version had this outcome.
pub uninterp spec fn updates_outcome(
    doc: loro::LoroDoc,
    version: Version,
    outcome: Result<Vec<u8>, String>,
) -> bool;

/// Calls `LoroDoc::export` with `ExportMode::updates`. The bytes depend on the
/// history held and on how the library lays it out.
#[verifier::external_body]
pub(crate) fn export_updates(doc: &loro::LoroDoc, version: &Version) -> (r: Result<
    Vec<u8>,
    String,
>)
    ensures
        updates_outcome(*doc, *version, r),
{
    doc.export(loro::ExportMode::updates(&version.vector)).map_err(|e| e.to_string())
}

/// That exporting a snapshot without the history before these frontiers had
/// this outcome.
pub uninterp spec fn snapshot_outcome(
    doc: loro::LoroDoc,
    frontiers: loro::Frontiers,
    outcome: Result<Vec<u8>, String>,
) -> bool;

/// Calls `LoroDoc::export` with `ExportMode::shallow_snapshot`.
#[verifier::external_body]
pub(crate) fn export_shallow(doc: &loro::LoroDoc, frontiers: &loro::Frontiers) -> (r: Result<
    Vec<u8>,
    String,
>)
    ensures
        snapshot_outcome(*doc, *frontiers, r),
{
    doc.export(loro::ExportMode::shallow_snapshot(frontiers)).map_err(|e| e.to_string())
}

/// That a document was made empty.
pub uninterp spec fn made_empty(doc: loro::LoroDoc) -> bool;

/// Calls `LoroDoc::new`.
#[verifier::external_body]
pub(crate) fn empty_doc() -> (r: loro::LoroDoc)
    ensures
        made_empty(r),
{
    loro::LoroDoc::new()
}

/// That giving a document a peer had this outcome, which left it like this.
pub uninterp spec fn peer_outcome(
    before: loro::LoroDoc,
    peer_id: u64,
    after: loro::LoroDoc,
    outcome: Result<(), loro::LoroError>,
) -> bool;

/// Calls `LoroDoc::set_peer_id`. A new document takes every peer but the
/// highest, which is reserved.
#[verifier::external_body]
pub(crate) fn set_peer(doc: &mut loro::LoroDoc, peer_id: u64) -> (r: Result<
    (),
    loro::LoroError,
>)
    ensures
        peer_outcome(*old(doc), peer_id, *final(doc), r),
        made_empty(*old(doc)) ==> (r is Ok <==> peer_id != u64::MAX),
{
    doc.set_peer_id(peer_id)
}

/// That importing bytes into a document had this outcome, which left it like
/// this.
pub uninterp spec fn import_outcome(
    before: loro::LoroDoc,
    bytes: Seq<u8>,
    after: loro::LoroDoc,
    outcome: Result<(), loro::LoroError>,
) -> bool;

/// Whether an export gave these bytes.
pub open spec fn is_snapshot(bytes: Seq<u8>) -> bool {
    exists|d: loro::LoroDoc, f: loro::Frontiers, s: Vec<u8>| #[trigger]
        snapshot_outcome(d, f, Ok(s)) && s@ == bytes
}

/// Calls `LoroDoc::import`; what it reports of the imported history is dropped.
/// Only for bytes that an export gave: the library checks a snapshot's checksum,
/// but trips over one that is made up and names a start that its history lacks.
/// A document that was filled with such bytes elsewhere can trip later reads, and
/// nothing here can tell it from another.
#[verifier::external_body]
pub(crate) fn import(doc: &mut loro::LoroDoc, bytes: &[u8]) -> (r: Result<(), loro::LoroError>)
    requires
        is_snapshot(bytes@),
    ensures
        import_outcome(*old(doc), bytes@, *final(doc), r),
{
    doc.import(bytes).map(|_| ())
}

} // verus!
