//! Numbers as little-endian bytes.

use vstd::prelude::*;

verus! {

/// The two bytes of a number, the low one first.
#[verifier::opaque]
pub open spec fn le16(x: u16) -> Seq<u8> {
    seq![(x % 256) as u8, (x / 256) as u8]
}

/// The number that two bytes spell.
#[verifier::opaque]
pub open spec fn from16(s: Seq<u8>) -> u16 {
    (s[0] + 256 * s[1]) as u16
}

/// The four bytes of a number, the low one first.
#[verifier::opaque]
pub open spec fn le32(x: u32) -> Seq<u8> {
    seq![
        (x % 256) as u8,
        (x / 256 % 256) as u8,
        (x / 65_536 % 256) as u8,
        (x / 16_777_216) as u8,
    ]
}

/// The number that four bytes spell.
#[verifier::opaque]
pub open spec fn from32(s: Seq<u8>) -> u32 {
    (s[0] + 256 * s[1] + 65_536 * s[2] + 16_777_216 * s[3]) as u32
}

/// The eight bytes of a number, the low one first.
#[verifier::opaque]
pub open spec fn le64(x: u64) -> Seq<u8> {
    le32((x % 0x1_0000_0000) as u32) + le32((x / 0x1_0000_0000) as u32)
}

/// The number that eight bytes spell.
#[verifier::opaque]
pub open spec fn from64(s: Seq<u8>) -> u64 {
    (from32(s.subrange(0, 4)) + 0x1_0000_0000 * from32(s.subrange(4, 8))) as u64
}

/// Two bytes spell the number that they came from.
pub broadcast proof fn lemma_round_trip16(x: u16)
    ensures
        (#[trigger] le16(x)).len() == 2,
        from16(le16(x)) == x,
{
    reveal(le16);
    reveal(from16);
}

/// Four bytes spell the number that they came from.
pub broadcast proof fn lemma_round_trip32(x: u32)
    ensures
        (#[trigger] le32(x)).len() == 4,
        from32(le32(x)) == x,
{
    reveal(le32);
    reveal(from32);
}

/// Eight bytes spell the number that they came from.
pub broadcast proof fn lemma_round_trip64(x: u64)
    ensures
        (#[trigger] le64(x)).len() == 8,
        from64(le64(x)) == x,
{
    reveal(le64);
    reveal(from64);
    let lo = (x % 0x1_0000_0000) as u32;
    let hi = (x / 0x1_0000_0000) as u32;
    lemma_round_trip32(lo);
    lemma_round_trip32(hi);
    assert(le64(x).subrange(0, 4) =~= le32(lo));
    assert(le64(x).subrange(4, 8) =~= le32(hi));
}

/// Four zero bytes spell zero.
pub proof fn lemma_zeros32(s: Seq<u8>)
    requires
        s.len() == 4,
        forall|k: int| 0 <= k < 4 ==> s[k] == 0,
    ensures
        from32(s) == 0,
{
    reveal(from32);
}

/// Round trips of all widths.
pub broadcast group group_round_trips {
    lemma_round_trip16,
    lemma_round_trip32,
    lemma_round_trip64,
}

/// The bytes of a two-byte number.
pub fn u16_to_le(x: u16) -> (r: Vec<u8>)
    ensures
        r@ == le16(x),
{
    reveal(le16);
    let mut v: Vec<u8> = Vec::new();
    v.push((x % 256) as u8);
    v.push((x / 256) as u8);
    assert(v@ =~= le16(x));
    v
}

/// The bytes of a four-byte number.
pub fn u32_to_le(x: u32) -> (r: Vec<u8>)
    ensures
        r@ == le32(x),
{
    reveal(le32);
    let mut v: Vec<u8> = Vec::new();
    v.push((x % 256) as u8);
    v.push((x / 256 % 256) as u8);
    v.push((x / 65_536 % 256) as u8);
    v.push((x / 16_777_216) as u8);
    assert(v@ =~= le32(x));
    v
}

/// The bytes of an eight-byte number.
pub fn u64_to_le(x: u64) -> (r: Vec<u8>)
    ensures
        r@ == le64(x),
{
    reveal(le64);
    broadcast use lemma_round_trip32;

    let mut v = u32_to_le((x % 0x1_0000_0000) as u32);
    v.append(&mut u32_to_le((x / 0x1_0000_0000) as u32));
    v
}

/// The two-byte number at `at`.
pub fn u16_at(s: &[u8], at: usize) -> (r: u16)
    requires
        at + 2 <= s@.len(),
    ensures
        r == from16(s@.subrange(at as int, at + 2)),
{
    reveal(from16);
    s[at] as u16 + 256 * (s[at + 1] as u16)
}

/// The four-byte number at `at`.
pub fn u32_at(s: &[u8], at: usize) -> (r: u32)
    requires
        at + 4 <= s@.len(),
    ensures
        r == from32(s@.subrange(at as int, at + 4)),
{
    reveal(from32);
    s[at] as u32 + 256 * (s[at + 1] as u32) + 65_536 * (s[at + 2] as u32) + 16_777_216 * (
    s[at + 3] as u32)
}

/// The eight-byte number at `at`.
pub fn u64_at(s: &[u8], at: usize) -> (r: u64)
    requires
        at + 8 <= s@.len(),
    ensures
        r == from64(s@.subrange(at as int, at + 8)),
{
    reveal(from64);
    let ghost w = s@.subrange(at as int, at + 8);
    assert(w.subrange(0, 4) =~= s@.subrange(at as int, at + 4));
    assert(w.subrange(4, 8) =~= s@.subrange(at + 4, at + 8));
    let n: usize = s.len();
    assert(at + 8 <= n);
    let lo: u32 = u32_at(s, at);
    let hi: u32 = u32_at(s, at + 4);
    lo as u64 + 0x1_0000_0000 * (hi as u64)
}

} // verus!
