//! Writes as they travel through the Raft log.

use vstd::prelude::*;

use crate::control::frames;
use crate::ids;
use crate::wal::le;

verus! {

/// Bytes of a clock reading.
pub const HLC_SIZE: usize = 18;

/// A write that is replicated. Vector components are the bit patterns of
/// single-precision numbers.
#[derive(Debug)]
pub enum ReplicatedWrite {
    PointPut { collection: String, document_id: String, value: Vec<u8> },
    PointDelete { collection: String, document_id: String },
    VectorInsert {
        collection: String,
        vector: Vec<u32>,
        dim: u64,
        field_name: String,
        pk_bytes: Option<Vec<u8>>,
    },
    CrdtApply { collection: String, document_id: String, delta: Vec<u8>, peer_id: u64 },
    EdgePut {
        collection: String,
        src_id: String,
        label: String,
        dst_id: String,
        properties: Vec<u8>,
    },
    EdgeDelete { collection: String, src_id: String, label: String, dst_id: String },
    ArrayOp { array: String, op_bytes: Vec<u8>, schema_hlc_bytes: [u8; 18] },
    ArraySchema { array: String, snapshot_payload: Vec<u8>, schema_hlc_bytes: [u8; 18] },
}

/// A write as a value.
pub enum WriteView {
    PointPut { collection: Seq<char>, document_id: Seq<char>, value: Seq<u8> },
    PointDelete { collection: Seq<char>, document_id: Seq<char> },
    VectorInsert {
        collection: Seq<char>,
        vector: Seq<u32>,
        dim: u64,
        field_name: Seq<char>,
        pk_bytes: Option<Seq<u8>>,
    },
    CrdtApply { collection: Seq<char>, document_id: Seq<char>, delta: Seq<u8>, peer_id: u64 },
    EdgePut {
        collection: Seq<char>,
        src_id: Seq<char>,
        label: Seq<char>,
        dst_id: Seq<char>,
        properties: Seq<u8>,
    },
    EdgeDelete { collection: Seq<char>, src_id: Seq<char>, label: Seq<char>, dst_id: Seq<char> },
    ArrayOp { array: Seq<char>, op_bytes: Seq<u8>, schema_hlc_bytes: Seq<u8> },
    ArraySchema { array: Seq<char>, snapshot_payload: Seq<u8>, schema_hlc_bytes: Seq<u8> },
}

/// The view of optional bytes.
pub open spec fn option_view(o: Option<Vec<u8>>) -> Option<Seq<u8>> {
    match o {
        Some(v) => Some(v@),
        None => None,
    }
}

impl View for ReplicatedWrite {
    type V = WriteView;

    open spec fn view(&self) -> WriteView {
        match self {
            ReplicatedWrite::PointPut { collection, document_id, value } => WriteView::PointPut {
                collection: collection@,
                document_id: document_id@,
                value: value@,
            },
            ReplicatedWrite::PointDelete { collection, document_id } => WriteView::PointDelete {
                collection: collection@,
                document_id: document_id@,
            },
            ReplicatedWrite::VectorInsert {
                collection,
                vector,
                dim,
                field_name,
                pk_bytes,
            } => WriteView::VectorInsert {
                collection: collection@,
                vector: vector@,
                dim: *dim,
                field_name: field_name@,
                pk_bytes: option_view(*pk_bytes),
            },
            ReplicatedWrite::CrdtApply {
                collection,
                document_id,
                delta,
                peer_id,
            } => WriteView::CrdtApply {
                collection: collection@,
                document_id: document_id@,
                delta: delta@,
                peer_id: *peer_id,
            },
            ReplicatedWrite::EdgePut {
                collection,
                src_id,
                label,
                dst_id,
                properties,
            } => WriteView::EdgePut {
                collection: collection@,
                src_id: src_id@,
                label: label@,
                dst_id: dst_id@,
                properties: properties@,
            },
            ReplicatedWrite::EdgeDelete {
                collection,
                src_id,
                label,
                dst_id,
            } => WriteView::EdgeDelete {
                collection: collection@,
                src_id: src_id@,
                label: label@,
                dst_id: dst_id@,
            },
            ReplicatedWrite::ArrayOp { array, op_bytes, schema_hlc_bytes } => WriteView::ArrayOp {
                array: array@,
                op_bytes: op_bytes@,
                schema_hlc_bytes: schema_hlc_bytes@,
            },
            ReplicatedWrite::ArraySchema {
                array,
                snapshot_payload,
                schema_hlc_bytes,
            } => WriteView::ArraySchema {
                array: array@,
                snapshot_payload: snapshot_payload@,
                schema_hlc_bytes: schema_hlc_bytes@,
            },
        }
    }
}

/// Text as bytes.
pub open spec fn utf8(s: Seq<char>) -> Seq<u8> {
    vstd::utf8::encode_utf8(s)
}

/// Text from bytes, if they are text.
pub open spec fn text(b: Seq<u8>) -> Option<Seq<char>> {
    if vstd::utf8::valid_utf8(b) {
        Some(vstd::utf8::decode_utf8(b))
    } else {
        None
    }
}

/// Text comes back from its bytes.
proof fn lemma_text(s: Seq<char>)
    ensures
        text(utf8(s)) == Some(s),
{
    vstd::utf8::encode_utf8_valid_utf8(s);
    vstd::utf8::encode_utf8_decode_utf8(s);
}

/// Optional bytes as bytes: nothing, or a mark and the bytes.
pub open spec fn optional(o: Option<Seq<u8>>) -> Seq<u8> {
    match o {
        None => Seq::empty(),
        Some(b) => seq![1u8] + b,
    }
}

/// Optional bytes from bytes.
pub open spec fn unoptional(b: Seq<u8>) -> Option<Seq<u8>> {
    if b.len() == 0 {
        None
    } else {
        Some(b.skip(1))
    }
}

/// Optional bytes come back from their bytes.
proof fn lemma_optional(o: Option<Seq<u8>>)
    ensures
        unoptional(optional(o)) == o,
{
    match o {
        None => {},
        Some(b) => {
            assert(optional(o).skip(1) =~= b);
        },
    }
}

/// The number of a kind of write.
pub open spec fn tag(w: WriteView) -> u8 {
    match w {
        WriteView::PointPut { .. } => 1,
        WriteView::PointDelete { .. } => 2,
        WriteView::VectorInsert { .. } => 3,
        WriteView::CrdtApply { .. } => 4,
        WriteView::EdgePut { .. } => 5,
        WriteView::EdgeDelete { .. } => 6,
        WriteView::ArrayOp { .. } => 7,
        WriteView::ArraySchema { .. } => 8,
    }
}

/// The fields of a write, each as bytes.
pub open spec fn fields(w: WriteView) -> Seq<Seq<u8>> {
    match w {
        WriteView::PointPut { collection, document_id, value } => seq![
            utf8(collection),
            utf8(document_id),
            value,
        ],
        WriteView::PointDelete { collection, document_id } => seq![
            utf8(collection),
            utf8(document_id),
        ],
        WriteView::VectorInsert { collection, vector, dim, field_name, pk_bytes } => seq![
            utf8(collection),
            frames::words(vector),
            le::le64(dim),
            utf8(field_name),
            optional(pk_bytes),
        ],
        WriteView::CrdtApply { collection, document_id, delta, peer_id } => seq![
            utf8(collection),
            utf8(document_id),
            delta,
            le::le64(peer_id),
        ],
        WriteView::EdgePut { collection, src_id, label, dst_id, properties } => seq![
            utf8(collection),
            utf8(src_id),
            utf8(label),
            utf8(dst_id),
            properties,
        ],
        WriteView::EdgeDelete { collection, src_id, label, dst_id } => seq![
            utf8(collection),
            utf8(src_id),
            utf8(label),
            utf8(dst_id),
        ],
        WriteView::ArrayOp { array, op_bytes, schema_hlc_bytes } => seq![
            utf8(array),
            op_bytes,
            schema_hlc_bytes,
        ],
        WriteView::ArraySchema { array, snapshot_payload, schema_hlc_bytes } => seq![
            utf8(array),
            snapshot_payload,
            schema_hlc_bytes,
        ],
    }
}

/// Whether the clock reading of a write, if it has one, has its length.
pub open spec fn well_clocked(w: WriteView) -> bool {
    match w {
        WriteView::ArrayOp { schema_hlc_bytes, .. } => schema_hlc_bytes.len() == HLC_SIZE,
        WriteView::ArraySchema { schema_hlc_bytes, .. } => schema_hlc_bytes.len() == HLC_SIZE,
        _ => true,
    }
}

/// A number from bytes, if there are as many as it takes.
pub open spec fn number(b: Seq<u8>) -> Option<u64> {
    if b.len() == 8 {
        Some(le::from64(b))
    } else {
        None
    }
}

/// The write of a kind with the given fields, if they fit the kind.
pub open spec fn write_of(kind: u8, f: Seq<Seq<u8>>) -> Option<WriteView> {
    if kind == 1 && f.len() == 3 && text(f[0]) is Some && text(f[1]) is Some {
        Some(
            WriteView::PointPut {
                collection: text(f[0])->0,
                document_id: text(f[1])->0,
                value: f[2],
            },
        )
    } else if kind == 2 && f.len() == 2 && text(f[0]) is Some && text(f[1]) is Some {
        Some(WriteView::PointDelete { collection: text(f[0])->0, document_id: text(f[1])->0 })
    } else if kind == 3 && f.len() == 5 && text(f[0]) is Some && frames::unwords(f[1]) is Some
        && number(f[2]) is Some && text(f[3]) is Some {
        Some(
            WriteView::VectorInsert {
                collection: text(f[0])->0,
                vector: frames::unwords(f[1])->0,
                dim: number(f[2])->0,
                field_name: text(f[3])->0,
                pk_bytes: unoptional(f[4]),
            },
        )
    } else if kind == 4 && f.len() == 4 && text(f[0]) is Some && text(f[1]) is Some && number(f[3])
        is Some {
        Some(
            WriteView::CrdtApply {
                collection: text(f[0])->0,
                document_id: text(f[1])->0,
                delta: f[2],
                peer_id: number(f[3])->0,
            },
        )
    } else if kind == 5 && f.len() == 5 && text(f[0]) is Some && text(f[1]) is Some && text(f[2])
        is Some && text(f[3]) is Some {
        Some(
            WriteView::EdgePut {
                collection: text(f[0])->0,
                src_id: text(f[1])->0,
                label: text(f[2])->0,
                dst_id: text(f[3])->0,
                properties: f[4],
            },
        )
    } else if kind == 6 && f.len() == 4 && text(f[0]) is Some && text(f[1]) is Some && text(f[2])
        is Some && text(f[3]) is Some {
        Some(
            WriteView::EdgeDelete {
                collection: text(f[0])->0,
                src_id: text(f[1])->0,
                label: text(f[2])->0,
                dst_id: text(f[3])->0,
            },
        )
    } else if kind == 7 && f.len() == 3 && text(f[0]) is Some && f[2].len() == HLC_SIZE {
        Some(
            WriteView::ArrayOp { array: text(f[0])->0, op_bytes: f[1], schema_hlc_bytes: f[2] },
        )
    } else if kind == 8 && f.len() == 3 && text(f[0]) is Some && f[2].len() == HLC_SIZE {
        Some(
            WriteView::ArraySchema {
                array: text(f[0])->0,
                snapshot_payload: f[1],
                schema_hlc_bytes: f[2],
            },
        )
    } else {
        None
    }
}

/// A write comes back from its kind and fields.
pub proof fn lemma_write_round_trip(w: WriteView)
    requires
        well_clocked(w),
    ensures
        write_of(tag(w), fields(w)) == Some(w),
{
    broadcast use le::group_round_trips;

    match w {
        WriteView::PointPut { collection, document_id, value } => {
            lemma_text(collection);
            lemma_text(document_id);
        },
        WriteView::PointDelete { collection, document_id } => {
            lemma_text(collection);
            lemma_text(document_id);
        },
        WriteView::VectorInsert { collection, vector, dim, field_name, pk_bytes } => {
            lemma_text(collection);
            lemma_text(field_name);
            frames::lemma_words(vector);
            lemma_optional(pk_bytes);
        },
        WriteView::CrdtApply { collection, document_id, delta, peer_id } => {
            lemma_text(collection);
            lemma_text(document_id);
        },
        WriteView::EdgePut { collection, src_id, label, dst_id, properties } => {
            lemma_text(collection);
            lemma_text(src_id);
            lemma_text(label);
            lemma_text(dst_id);
        },
        WriteView::EdgeDelete { collection, src_id, label, dst_id } => {
            lemma_text(collection);
            lemma_text(src_id);
            lemma_text(label);
            lemma_text(dst_id);
        },
        WriteView::ArrayOp { array, op_bytes, schema_hlc_bytes } => {
            lemma_text(array);
        },
        WriteView::ArraySchema { array, snapshot_payload, schema_hlc_bytes } => {
            lemma_text(array);
        },
    }
}

/// A replicated write with where it belongs and who proposed it.
#[derive(Debug)]
pub struct ReplicatedEntry {
    pub tenant_id: u64,
    pub vshard_id: u32,
    /// Tells this proposal from any other; 0 stands for none.
    pub idempotency_key: u64,
    pub write: ReplicatedWrite,
}

/// An entry as a value.
pub struct ReplicatedView {
    pub tenant_id: u64,
    pub vshard_id: u32,
    pub idempotency_key: u64,
    pub write: WriteView,
}

impl View for ReplicatedEntry {
    type V = ReplicatedView;

    open spec fn view(&self) -> ReplicatedView {
        ReplicatedView {
            tenant_id: self.tenant_id,
            vshard_id: self.vshard_id,
            idempotency_key: self.idempotency_key,
            write: self.write@,
        }
    }
}

/// The parts of an entry, each as bytes.
pub open spec fn parts(e: ReplicatedView) -> Seq<Seq<u8>> {
    seq![
        le::le64(e.tenant_id),
        le::le64(e.vshard_id as u64),
        le::le64(e.idempotency_key),
        seq![tag(e.write)],
    ] + fields(e.write)
}

/// An entry as bytes.
pub open spec fn entry_bytes(e: ReplicatedView) -> Seq<u8> {
    frames::joined(parts(e))
}

/// The entry with the given parts, if they make one up.
pub open spec fn entry_of(p: Seq<Seq<u8>>) -> Option<ReplicatedView> {
    if p.len() < 4 || number(p[0]) is None || number(p[1]) is None || number(p[2]) is None
        || p[3].len() != 1 || number(p[1])->0 > u32::MAX {
        None
    } else {
        match write_of(p[3][0], p.skip(4)) {
            Some(w) => Some(
                ReplicatedView {
                    tenant_id: number(p[0])->0,
                    vshard_id: number(p[1])->0 as u32,
                    idempotency_key: number(p[2])->0,
                    write: w,
                },
            ),
            None => None,
        }
    }
}

/// The entry that bytes spell, if they spell one.
pub open spec fn parsed_entry(b: Seq<u8>) -> Option<ReplicatedView> {
    match frames::split(b) {
        Some(p) => entry_of(p),
        None => None,
    }
}

/// What is proposed is what is applied: an entry comes back from its bytes.
pub proof fn law_entry_round_trip(e: ReplicatedView)
    requires
        well_clocked(e.write),
        forall|i: int| 0 <= i < fields(e.write).len() ==> (#[trigger] fields(e.write)[i]).len()
            <= u64::MAX,
    ensures
        parsed_entry(entry_bytes(e)) == Some(e),
{
    broadcast use le::group_round_trips;

    let p = parts(e);
    assert forall|i: int| 0 <= i < p.len() implies (#[trigger] p[i]).len() <= u64::MAX by {
        if i >= 4 {
            assert(p[i] == fields(e.write)[i - 4]);
        }
    }
    frames::law_frames_round_trip(p);
    lemma_write_round_trip(e.write);
    assert(p.skip(4) =~= fields(e.write));
}

/// Text as bytes.
fn text_to_bytes(s: &String) -> (r: Vec<u8>)
    ensures
        r@ == utf8(s@),
{
    let b = s.as_str().as_bytes();
    let mut v: Vec<u8> = Vec::new();
    v.extend_from_slice(b);
    assert(v@ =~= b@);
    v
}

/// Text from bytes, by `std::string::String::from_utf8`: bytes that are valid
/// UTF-8 give the text that they encode, others give nothing.
#[verifier::external_body]
fn bytes_to_text(b: Vec<u8>) -> (r: Option<String>)
    ensures
        match text(b@) {
            Some(t) => r matches Some(s) && s@ == t,
            None => r is None,
        },
{
    String::from_utf8(b).ok()
}

/// Copies bytes.
fn copy_bytes(b: &Vec<u8>) -> (r: Vec<u8>)
    ensures
        r@ == b@,
{
    let mut v: Vec<u8> = Vec::new();
    v.extend_from_slice(b.as_slice());
    assert(v@ =~= b@);
    v
}

/// Text from bytes, if they are text.
fn read_text(b: &Vec<u8>) -> (r: Option<String>)
    ensures
        match text(b@) {
            Some(t) => r matches Some(s) && s@ == t,
            None => r is None,
        },
{
    bytes_to_text(copy_bytes(b))
}

/// A number from bytes, if there are as many as it takes.
fn read_number(b: &Vec<u8>) -> (r: Option<u64>)
    ensures
        r == number(b@),
{
    if b.len() == 8 {
        assert(b@.subrange(0, 8) =~= b@);
        Some(le::u64_at(b.as_slice(), 0))
    } else {
        None
    }
}

/// A clock reading as bytes.
fn clock_to_bytes(c: &[u8; 18]) -> (r: Vec<u8>)
    ensures
        r@ == c@,
{
    let mut v: Vec<u8> = Vec::new();
    v.extend_from_slice(c.as_slice());
    assert(v@ =~= c@);
    v
}

/// A clock reading from bytes, if there are as many as it takes.
fn read_clock(b: &Vec<u8>) -> (r: Option<[u8; 18]>)
    ensures
        r is Some <==> b@.len() == HLC_SIZE,
        r matches Some(c) ==> c@ == b@,
{
    if b.len() != HLC_SIZE {
        return None;
    }
    let c: [u8; 18] = [
        b[0],
        b[1],
        b[2],
        b[3],
        b[4],
        b[5],
        b[6],
        b[7],
        b[8],
        b[9],
        b[10],
        b[11],
        b[12],
        b[13],
        b[14],
        b[15],
        b[16],
        b[17],
    ];
    assert(c@ =~= b@);
    Some(c)
}

/// Optional bytes as bytes.
fn optional_to_bytes(o: &Option<Vec<u8>>) -> (r: Vec<u8>)
    ensures
        r@ == optional(option_view(*o)),
{
    match o {
        None => {
            let v: Vec<u8> = Vec::new();
            assert(v@ =~= Seq::empty());
            v
        },
        Some(b) => {
            let mut v: Vec<u8> = Vec::new();
            v.push(1);
            v.extend_from_slice(b.as_slice());
            assert(v@ =~= seq![1u8] + b@);
            v
        },
    }
}

/// Optional bytes from bytes.
fn read_optional(b: &Vec<u8>) -> (r: Option<Vec<u8>>)
    ensures
        option_view(r) == unoptional(b@),
{
    if b.len() == 0 {
        None
    } else {
        let rest = vstd::slice::slice_subrange(b.as_slice(), 1, b.len());
        let mut v: Vec<u8> = Vec::new();
        v.extend_from_slice(rest);
        assert(v@ =~= b@.skip(1));
        Some(v)
    }
}

impl ReplicatedWrite {
    /// The number of the kind of write.
    fn kind(&self) -> (r: u8)
        ensures
            r == tag(self@),
    {
        match self {
            ReplicatedWrite::PointPut { .. } => 1,
            ReplicatedWrite::PointDelete { .. } => 2,
            ReplicatedWrite::VectorInsert { .. } => 3,
            ReplicatedWrite::CrdtApply { .. } => 4,
            ReplicatedWrite::EdgePut { .. } => 5,
            ReplicatedWrite::EdgeDelete { .. } => 6,
            ReplicatedWrite::ArrayOp { .. } => 7,
            ReplicatedWrite::ArraySchema { .. } => 8,
        }
    }

    /// Appends the fields, each as bytes.
    fn push_fields(&self, out: &mut Vec<Vec<u8>>)
        ensures
            frames::frames_view(final(out)@) == frames::frames_view(old(out)@) + fields(self@),
    {
        match self {
            ReplicatedWrite::PointPut { collection, document_id, value } => {
                out.push(text_to_bytes(collection));
                out.push(text_to_bytes(document_id));
                out.push(copy_bytes(value));
            },
            ReplicatedWrite::PointDelete { collection, document_id } => {
                out.push(text_to_bytes(collection));
                out.push(text_to_bytes(document_id));
            },
            ReplicatedWrite::VectorInsert {
                collection,
                vector,
                dim,
                field_name,
                pk_bytes,
            } => {
                out.push(text_to_bytes(collection));
                out.push(frames::words_to_bytes(vector));
                out.push(le::u64_to_le(*dim));
                out.push(text_to_bytes(field_name));
                out.push(optional_to_bytes(pk_bytes));
            },
            ReplicatedWrite::CrdtApply { collection, document_id, delta, peer_id } => {
                out.push(text_to_bytes(collection));
                out.push(text_to_bytes(document_id));
                out.push(copy_bytes(delta));
                out.push(le::u64_to_le(*peer_id));
            },
            ReplicatedWrite::EdgePut { collection, src_id, label, dst_id, properties } => {
                out.push(text_to_bytes(collection));
                out.push(text_to_bytes(src_id));
                out.push(text_to_bytes(label));
                out.push(text_to_bytes(dst_id));
                out.push(copy_bytes(properties));
            },
            ReplicatedWrite::EdgeDelete { collection, src_id, label, dst_id } => {
                out.push(text_to_bytes(collection));
                out.push(text_to_bytes(src_id));
                out.push(text_to_bytes(label));
                out.push(text_to_bytes(dst_id));
            },
            ReplicatedWrite::ArrayOp { array, op_bytes, schema_hlc_bytes } => {
                out.push(text_to_bytes(array));
                out.push(copy_bytes(op_bytes));
                out.push(clock_to_bytes(schema_hlc_bytes));
            },
            ReplicatedWrite::ArraySchema { array, snapshot_payload, schema_hlc_bytes } => {
                out.push(text_to_bytes(array));
                out.push(copy_bytes(snapshot_payload));
                out.push(clock_to_bytes(schema_hlc_bytes));
            },
        }
        assert(frames::frames_view(out@) =~= frames::frames_view(old(out)@) + fields(self@));
    }

    /// The write of a kind with the given fields, from the fourth part on.
    fn from_parts(kind: u8, p: &Vec<Vec<u8>>) -> (r: Option<ReplicatedWrite>)
        requires
            p@.len() >= 4,
        ensures
            match write_of(kind, frames::frames_view(p@).skip(4)) {
                Some(w) => r matches Some(got) && got@ == w,
                None => r is None,
            },
    {
        let n: usize = p.len() - 4;
        let ghost f = frames::frames_view(p@).skip(4);
        assert(forall|i: int| 0 <= i < f.len() ==> f[i] == p@[i + 4]@);
        if kind == 1 && n == 3 {
            let collection = match read_text(&p[4]) {
                Some(t) => t,
                None => return None,
            };
            let document_id = match read_text(&p[5]) {
                Some(t) => t,
                None => return None,
            };
            Some(ReplicatedWrite::PointPut { collection, document_id, value: copy_bytes(&p[6]) })
        } else if kind == 2 && n == 2 {
            let collection = match read_text(&p[4]) {
                Some(t) => t,
                None => return None,
            };
            let document_id = match read_text(&p[5]) {
                Some(t) => t,
                None => return None,
            };
            Some(ReplicatedWrite::PointDelete { collection, document_id })
        } else if kind == 3 && n == 5 {
            let collection = match read_text(&p[4]) {
                Some(t) => t,
                None => return None,
            };
            let vector = match frames::bytes_to_words(&p[5]) {
                Some(v) => v,
                None => return None,
            };
            let dim: u64 = match read_number(&p[6]) {
                Some(d) => d,
                None => return None,
            };
            let field_name = match read_text(&p[7]) {
                Some(t) => t,
                None => return None,
            };
            Some(
                ReplicatedWrite::VectorInsert {
                    collection,
                    vector,
                    dim,
                    field_name,
                    pk_bytes: read_optional(&p[8]),
                },
            )
        } else if kind == 4 && n == 4 {
            let collection = match read_text(&p[4]) {
                Some(t) => t,
                None => return None,
            };
            let document_id = match read_text(&p[5]) {
                Some(t) => t,
                None => return None,
            };
            let peer_id: u64 = match read_number(&p[7]) {
                Some(d) => d,
                None => return None,
            };
            Some(
                ReplicatedWrite::CrdtApply {
                    collection,
                    document_id,
                    delta: copy_bytes(&p[6]),
                    peer_id,
                },
            )
        } else if (kind == 5 && n == 5) || (kind == 6 && n == 4) {
            let collection = match read_text(&p[4]) {
                Some(t) => t,
                None => return None,
            };
            let src_id = match read_text(&p[5]) {
                Some(t) => t,
                None => return None,
            };
            let label = match read_text(&p[6]) {
                Some(t) => t,
                None => return None,
            };
            let dst_id = match read_text(&p[7]) {
                Some(t) => t,
                None => return None,
            };
            if kind == 5 {
                Some(
                    ReplicatedWrite::EdgePut {
                        collection,
                        src_id,
                        label,
                        dst_id,
                        properties: copy_bytes(&p[8]),
                    },
                )
            } else {
                Some(ReplicatedWrite::EdgeDelete { collection, src_id, label, dst_id })
            }
        } else if (kind == 7 || kind == 8) && n == 3 {
            let array = match read_text(&p[4]) {
                Some(t) => t,
                None => return None,
            };
            let schema_hlc_bytes = match read_clock(&p[6]) {
                Some(c) => c,
                None => return None,
            };
            if kind == 7 {
                Some(
                    ReplicatedWrite::ArrayOp {
                        array,
                        op_bytes: copy_bytes(&p[5]),
                        schema_hlc_bytes,
                    },
                )
            } else {
                Some(
                    ReplicatedWrite::ArraySchema {
                        array,
                        snapshot_payload: copy_bytes(&p[5]),
                        schema_hlc_bytes,
                    },
                )
            }
        } else {
            None
        }
    }
}

impl ReplicatedEntry {
    /// An entry under a fresh key, which is not 0.
    pub fn new(tenant_id: u64, vshard_id: u32, write: ReplicatedWrite) -> (r: ReplicatedEntry)
        ensures
            r.tenant_id == tenant_id,
            r.vshard_id == vshard_id,
            r.write == write,
            r.idempotency_key != 0,
    {
        let key: u64 = ids::key_of_id(ids::new_id());
        ReplicatedEntry::with_key(tenant_id, vshard_id, key, write)
    }

    /// An entry under a given key.
    pub fn with_key(
        tenant_id: u64,
        vshard_id: u32,
        idempotency_key: u64,
        write: ReplicatedWrite,
    ) -> (r: ReplicatedEntry)
        ensures
            r.tenant_id == tenant_id,
            r.vshard_id == vshard_id,
            r.idempotency_key == idempotency_key,
            r.write == write,
    {
        ReplicatedEntry { tenant_id, vshard_id, idempotency_key, write }
    }

    /// The entry as bytes.
    pub fn to_bytes(&self) -> (r: Vec<u8>)
        ensures
            r@ == entry_bytes(self@),
            parsed_entry(r@) == Some(self@),
    {
        let mut p: Vec<Vec<u8>> = Vec::new();
        p.push(le::u64_to_le(self.tenant_id));
        p.push(le::u64_to_le(self.vshard_id as u64));
        p.push(le::u64_to_le(self.idempotency_key));
        let mut kind: Vec<u8> = Vec::new();
        kind.push(self.write.kind());
        assert(kind@ =~= seq![tag(self@.write)]);
        p.push(kind);
        assert(frames::frames_view(p@) =~= parts(self@).take(4));
        self.write.push_fields(&mut p);
        proof {
            let v = frames::frames_view(p@);
            assert(v =~= parts(self@));
            assert forall|i: int| 0 <= i < fields(self@.write).len() implies (
            #[trigger] fields(self@.write)[i]).len() <= u64::MAX by {
                assert(v[i + 4] == fields(self@.write)[i]);
                assert(p@[i + 4].len() <= usize::MAX);
            }
            law_entry_round_trip(self@);
        }
        frames::join_frames(&p)
    }

    /// The entry that bytes spell, if they spell one.
    pub fn from_bytes(b: &[u8]) -> (r: Option<ReplicatedEntry>)
        ensures
            match parsed_entry(b@) {
                Some(e) => r matches Some(got) && got@ == e,
                None => r is None,
            },
    {
        let p = match frames::split_frames(b) {
            Some(p) => p,
            None => return None,
        };
        if p.len() < 4 {
            return None;
        }
        let ghost v = frames::frames_view(p@);
        assert(forall|i: int| 0 <= i < v.len() ==> v[i] == p@[i]@);
        let tenant_id: u64 = match read_number(&p[0]) {
            Some(d) => d,
            None => return None,
        };
        let vshard: u64 = match read_number(&p[1]) {
            Some(d) => d,
            None => return None,
        };
        let idempotency_key: u64 = match read_number(&p[2]) {
            Some(d) => d,
            None => return None,
        };
        if p[3].len() != 1 || vshard > u32::MAX as u64 {
            return None;
        }
        match ReplicatedWrite::from_parts(p[3][0], &p) {
            Some(write) => Some(
                ReplicatedEntry { tenant_id, vshard_id: vshard as u32, idempotency_key, write },
            ),
            None => None,
        }
    }
}

} // verus!
