//! What the bytes of numbers, records and checksums can be relied on for.

use vstd::prelude::*;

use crate::wal::align;
use crate::wal::crc32c;
use crate::wal::le;
use crate::wal::preamble;
use crate::wal::preamble::SegmentPreamble;
use crate::wal::record;
use crate::wal::record::{RecordHeader, RecordType, RecordView};

verus! {

/// A two-byte number is stored low byte first, and is what its bytes add up to.
pub proof fn law_low_byte_first_of_two(x: u16)
    ensures
        le::le16(x).len() == 2,
        le::le16(x)[0] + 0x100 * le::le16(x)[1] == x,
        le::from16(le::le16(x)) == x,
{
    le::lemma_round_trip16(x);
    reveal(le::le16);
}

/// A four-byte number is stored low byte first, and is what its bytes add up to.
pub proof fn law_low_byte_first_of_four(x: u32)
    ensures
        le::le32(x).len() == 4,
        le::le32(x)[0] + 0x100 * le::le32(x)[1] + 0x1_0000 * le::le32(x)[2] + 0x100_0000
            * le::le32(x)[3] == x,
        le::from32(le::le32(x)) == x,
{
    le::lemma_round_trip32(x);
    reveal(le::le32);
}

/// An eight-byte number is stored low byte first, and is what its bytes add up to.
pub proof fn law_low_byte_first_of_eight(x: u64)
    ensures
        ({
            let b = le::le64(x);
            &&& b.len() == 8
            &&& b[0] + 0x100 * b[1] + 0x1_0000 * b[2] + 0x100_0000 * b[3] + 0x1_0000_0000 * (b[4]
                + 0x100 * b[5] + 0x1_0000 * b[6] + 0x100_0000 * b[7]) == x
            &&& le::from64(b) == x
        }),
{
    le::lemma_round_trip64(x);
    let lo = (x % 0x1_0000_0000) as u32;
    let hi = (x / 0x1_0000_0000) as u32;
    law_low_byte_first_of_four(lo);
    law_low_byte_first_of_four(hi);
    let p = le::le32(lo);
    let q = le::le32(hi);
    let b = le::le64(x);
    assert(b == p + q) by {
        reveal(le::le64);
    }
    assert(b[0] == p[0] && b[1] == p[1] && b[2] == p[2] && b[3] == p[3]);
    assert(b[4] == q[0] && b[5] == q[1] && b[6] == q[2] && b[7] == q[3]);
}

/// Where the fields of a header stand in its 46 bytes.
pub proof fn law_header_layout(h: RecordHeader)
    ensures
        ({
            let b = record::header_bytes(h);
            &&& b.len() == 46
            &&& b.subrange(0, 4) == le::le32(h.magic)
            &&& b.subrange(4, 6) == le::le16(h.format_version)
            &&& b.subrange(6, 10) == le::le32(h.record_type)
            &&& b.subrange(10, 18) == le::le64(h.lsn)
            &&& b.subrange(18, 26) == le::le64(h.tenant_id)
            &&& b.subrange(26, 30) == le::le32(h.vshard_id)
            &&& b.subrange(30, 34) == le::le32(h.payload_len)
            &&& b.subrange(34, 42) == le::le64(h.database_id)
            &&& b.subrange(42, 46) == le::le32(h.crc32c)
        }),
{
    broadcast use le::group_round_trips;

    let b = record::header_bytes(h);
    assert(b.subrange(0, 4) =~= le::le32(h.magic));
    assert(b.subrange(4, 6) =~= le::le16(h.format_version));
    assert(b.subrange(6, 10) =~= le::le32(h.record_type));
    assert(b.subrange(10, 18) =~= le::le64(h.lsn));
    assert(b.subrange(18, 26) =~= le::le64(h.tenant_id));
    assert(b.subrange(26, 30) =~= le::le32(h.vshard_id));
    assert(b.subrange(30, 34) =~= le::le32(h.payload_len));
    assert(b.subrange(34, 42) =~= le::le64(h.database_id));
    assert(b.subrange(42, 46) =~= le::le32(h.crc32c));
}

/// A preamble takes 16 bytes: the characters `WALP`, the first version, the one
/// cipher, the epoch, and four that are not used.
pub proof fn law_preamble_layout(p: SegmentPreamble, rest: Seq<u8>)
    ensures
        preamble::preamble_bytes(p).len() == 16,
        preamble::preamble_bytes(p).subrange(0, 4) == le::le32(0x504C_4157),
        preamble::preamble_bytes(p).subrange(4, 6) == le::le16(1),
        preamble::preamble_bytes(p).subrange(6, 8) == le::le16(1),
        preamble::preamble_bytes(p).subrange(8, 12) == le::le32(p.epoch),
        preamble::preamble_bytes(p).subrange(12, 16) == le::le32(0),
        preamble::starts_with_preamble(preamble::preamble_bytes(p) + rest),
        preamble::records_start(preamble::preamble_bytes(p) + rest) == 16,
        forall|data: Seq<u8>| data.len() < 16 ==> #[trigger] preamble::records_start(data) == 0,
{
    broadcast use le::group_round_trips;

    let b = preamble::preamble_bytes(p);
    assert(b.subrange(0, 4) =~= le::le32(0x504C_4157));
    assert(b.subrange(4, 6) =~= le::le16(1));
    assert(b.subrange(6, 8) =~= le::le16(1));
    assert(b.subrange(8, 12) =~= le::le32(p.epoch));
    assert(b.subrange(12, 16) =~= le::le32(0));
    assert((b + rest).subrange(0, 4) =~= le::le32(preamble::PREAMBLE_MAGIC));
}

/// The checksum covers every field but itself, and the payload: two records for
/// which it is taken over the same bytes, and whose payloads are of the length
/// that they say, differ in nothing else.
pub proof fn law_checksum_covers_everything(a: RecordView, b: RecordView)
    requires
        record::checked_bytes(a.header) + a.payload == record::checked_bytes(b.header)
            + b.payload,
    ensures
        a.payload == b.payload,
        a.header == (RecordHeader { crc32c: a.header.crc32c, ..b.header }),
        a.expected_crc() == b.expected_crc(),
{
    broadcast use le::group_round_trips;

    let x = record::checked_bytes(a.header);
    let y = record::checked_bytes(b.header);
    record::lemma_header_len(a.header);
    record::lemma_header_len(b.header);
    assert(x =~= (x + a.payload).take(42));
    assert(y =~= (y + b.payload).take(42));
    assert(a.payload =~= (x + a.payload).skip(42));
    assert(b.payload =~= (y + b.payload).skip(42));
    let t = Seq::<u8>::empty();
    let ha = RecordHeader { crc32c: 0, ..a.header };
    let hb = RecordHeader { crc32c: 0, ..b.header };
    assert(record::header_bytes(ha) + t =~= x + le::le32(0));
    assert(record::header_bytes(hb) + t =~= y + le::le32(0));
    record::lemma_header_round_trip(ha, t);
    record::lemma_header_round_trip(hb, t);
}

/// A record that is made carries what it is made of, is intact, and says how
/// long its payload is.
pub proof fn law_fresh_record_carries_its_parts(
    record_type: u32,
    lsn: u64,
    tenant_id: u64,
    vshard_id: u32,
    database_id: u64,
    payload: Seq<u8>,
)
    requires
        payload.len() <= u32::MAX,
    ensures
        ({
            let r = RecordView::fresh(
                record_type,
                lsn,
                tenant_id,
                vshard_id,
                database_id,
                payload,
            );
            &&& r.header.record_type == record_type
            &&& r.header.lsn == lsn
            &&& r.header.tenant_id == tenant_id
            &&& r.header.vshard_id == vshard_id
            &&& r.header.database_id == database_id
            &&& r.header.payload_len == payload.len()
            &&& r.payload == payload
            &&& r.header.crc32c == crc32c::checksum(
                record::header_bytes(r.header).take(42) + payload,
            )
            &&& r.intact()
            &&& r.header.readable()
        }),
{
    let r = RecordView::fresh(record_type, lsn, tenant_id, vshard_id, database_id, payload);
    record::lemma_header_len(r.header);
    let h = RecordHeader { crc32c: 0, ..r.header };
    assert(record::checked_bytes(h) == record::checked_bytes(r.header));
}

/// The types from 0 to 4 are known, each under its own number, and no others.
pub proof fn law_types_have_their_numbers(raw: u32, a: RecordType, b: RecordType)
    ensures
        record::known_type(raw) <==> exists|t: RecordType| record::raw_of(t) == raw,
        record::raw_of(a) == record::raw_of(b) ==> a == b,
        record::raw_of(RecordType::Noop) == 0,
        record::raw_of(RecordType::Put) == 1,
        record::raw_of(RecordType::Delete) == 2,
        record::raw_of(RecordType::Checkpoint) == 3,
        record::raw_of(RecordType::CalvinApplied) == 4,
{
    if raw == 0 {
        assert(record::raw_of(RecordType::Noop) == raw);
    }
    if raw == 1 {
        assert(record::raw_of(RecordType::Put) == raw);
    }
    if raw == 2 {
        assert(record::raw_of(RecordType::Delete) == raw);
    }
    if raw == 3 {
        assert(record::raw_of(RecordType::Checkpoint) == raw);
    }
    if raw == 4 {
        assert(record::raw_of(RecordType::CalvinApplied) == raw);
    }
}

/// The register of a checksum after one more bit went in: the bit meets the
/// lowest one of the register, and where they differ the generator is taken off.
pub open spec fn bit_in(reg: u32, bit: u32) -> u32 {
    if (reg ^ bit) & 1 == 1 {
        (reg >> 1) ^ 0x82F6_3B78
    } else {
        reg >> 1
    }
}

/// The checksum is that of Castagnoli: the bits of the bytes go in one after the
/// other, the lowest of each byte first, into a register of ones, and the
/// register is complemented at the end.
pub proof fn law_checksum_takes_bits_in_turn(s: Seq<u8>, b: u8)
    ensures
        ({
            let x = b as u32;
            let r1 = bit_in(crc32c::register(s), x);
            let r2 = bit_in(r1, x >> 1);
            let r3 = bit_in(r2, x >> 2);
            let r4 = bit_in(r3, x >> 3);
            let r5 = bit_in(r4, x >> 4);
            let r6 = bit_in(r5, x >> 5);
            let r7 = bit_in(r6, x >> 6);
            let r8 = bit_in(r7, x >> 7);
            crc32c::register(s.push(b)) == r8
        }),
        crc32c::register(Seq::empty()) == 0xFFFF_FFFF,
        crc32c::checksum(s) == !crc32c::register(s),
{
    let x = b as u32;
    let reg = crc32c::register(s);
    assert(s.push(b).drop_last() =~= s);
    lemma_byte_in(reg, x);
    assert(reg ^ 0xFFFF_FFFFu32 == !reg) by (bit_vector);
}

/// Taking a byte in at once is taking its bits in one after the other.
proof fn lemma_byte_in(reg: u32, x: u32)
    requires
        x < 256,
    ensures
        ({
            let r1 = bit_in(reg, x);
            let r2 = bit_in(r1, x >> 1);
            let r3 = bit_in(r2, x >> 2);
            let r4 = bit_in(r3, x >> 3);
            let r5 = bit_in(r4, x >> 4);
            let r6 = bit_in(r5, x >> 5);
            let r7 = bit_in(r6, x >> 6);
            let r8 = bit_in(r7, x >> 7);
            crc32c::shift_bits(reg ^ x, 8) == r8
        }),
{
    reveal_with_fuel(crc32c::shift_bits, 9);
    let r0 = reg;
    let r1 = bit_in(r0, x);
    let r2 = bit_in(r1, x >> 1);
    let r3 = bit_in(r2, x >> 2);
    let r4 = bit_in(r3, x >> 3);
    let r5 = bit_in(r4, x >> 4);
    let r6 = bit_in(r5, x >> 5);
    let r7 = bit_in(r6, x >> 6);
    lemma_bit_in(r0, x, 0);
    lemma_bit_in(r1, x, 1);
    lemma_bit_in(r2, x, 2);
    lemma_bit_in(r3, x, 3);
    lemma_bit_in(r4, x, 4);
    lemma_bit_in(r5, x, 5);
    lemma_bit_in(r6, x, 6);
    lemma_bit_in(r7, x, 7);
    assert(x >> 0 == x) by (bit_vector);
    assert(x < 256u32 ==> x >> 8 == 0) by (bit_vector);
    let r8 = bit_in(r7, x >> 7);
    assert(r8 ^ 0 == r8) by (bit_vector);
}

/// One shift of a register that bits were put on top of is one bit taken in,
/// with the bits that are left still on top.
proof fn lemma_bit_in(reg: u32, x: u32, k: u32)
    requires
        k < 8,
        x < 256,
    ensures
        crc32c::shift_bit(reg ^ (x >> k)) == bit_in(reg, x >> k) ^ (x >> ((k + 1) as u32)),
{
    let y = x >> k;
    let z = x >> ((k + 1) as u32);
    assert(k < 8u32 && x < 256u32 ==> x >> ((k + 1) as u32) == (x >> k) >> 1u32) by (bit_vector);
    assert(z == y >> 1u32);
    assert(((reg ^ y) >> 1u32) == (reg >> 1u32) ^ (y >> 1u32)) by (bit_vector);
    let p = 0x82F6_3B78u32;
    let a = reg >> 1u32;
    assert((a ^ z) ^ p == (a ^ p) ^ z) by (bit_vector);
}

/// Changing one byte changes the checksum, wherever it stands.
pub proof fn law_one_changed_byte_is_noticed(s: Seq<u8>, i: int, b: u8)
    requires
        0 <= i < s.len(),
        b != s[i],
    ensures
        crc32c::checksum(s.update(i, b)) != crc32c::checksum(s),
{
    lemma_changed_register(s, i, b);
    let a = crc32c::register(s);
    let c = crc32c::register(s.update(i, b));
    assert(a != c ==> a ^ 0xFFFF_FFFFu32 != c ^ 0xFFFF_FFFFu32) by (bit_vector);
}

/// Changing one byte changes the register.
proof fn lemma_changed_register(s: Seq<u8>, i: int, b: u8)
    requires
        0 <= i < s.len(),
        b != s[i],
    ensures
        crc32c::register(s.update(i, b)) != crc32c::register(s),
    decreases s.len(),
{
    let t = s.update(i, b);
    let x = s.last() as u32;
    if i == s.len() - 1 {
        assert(t.drop_last() =~= s.drop_last());
        let reg = crc32c::register(s.drop_last());
        let y = b as u32;
        assert(x != y ==> reg ^ x != reg ^ y) by (bit_vector);
        lemma_shift_is_injective(reg ^ x, reg ^ y, 8);
    } else {
        assert(t.drop_last() =~= s.drop_last().update(i, b));
        lemma_changed_register(s.drop_last(), i, b);
        let p = crc32c::register(s.drop_last());
        let q = crc32c::register(t.drop_last());
        assert(p != q ==> p ^ x != q ^ x) by (bit_vector);
        lemma_shift_is_injective(p ^ x, q ^ x, 8);
    }
}

/// Shifting keeps different registers different.
proof fn lemma_shift_is_injective(a: u32, b: u32, n: nat)
    requires
        a != b,
    ensures
        crc32c::shift_bits(a, n) != crc32c::shift_bits(b, n),
    decreases n,
{
    if n > 0 {
        lemma_shift_is_injective(a, b, (n - 1) as nat);
        let x = crc32c::shift_bits(a, (n - 1) as nat);
        let y = crc32c::shift_bits(b, (n - 1) as nat);
        assert(x != y ==> (if x & 1 == 1 {
            (x >> 1) ^ 0x82F6_3B78u32
        } else {
            x >> 1
        }) != (if y & 1 == 1 {
            (y >> 1) ^ 0x82F6_3B78u32
        } else {
            y >> 1
        })) by (bit_vector);
    }
}

/// Rounding up gives the smallest whole number of blocks that holds the value.
pub proof fn law_rounding_up_gives_whole_blocks(value: int, block: int)
    requires
        block > 0,
        value >= 0,
    ensures
        align::rounded_up(value, block) % block == 0,
        value <= align::rounded_up(value, block) < value + block,
{
    align::lemma_rounded_up(value, block);
}

/// Filling up keeps what is there and adds zeros only.
pub proof fn law_padding_adds_zeros(s: Seq<u8>, n: int)
    requires
        n >= s.len(),
    ensures
        align::padded(s, n).len() == n,
        align::padded(s, n).take(s.len() as int) == s,
        forall|i: int| s.len() <= i < n ==> #[trigger] align::padded(s, n)[i] == 0,
{
    assert(align::padded(s, n).take(s.len() as int) =~= s);
}

/// A reader takes a header for one of its own exactly if it starts with the
/// characters `WALR` and is of the first version.
pub proof fn law_readable_header_has_magic_and_version(h: RecordHeader)
    ensures
        h.readable() <==> h.magic == 0x524C_4157 && h.format_version == 1,
        record::header_bytes(h).len() == 46,
        record::MAX_WAL_PAYLOAD_SIZE == 64 * 1024 * 1024,
        record::ENCRYPTED_FLAG == 0x8000_0000,
        record::REQUIRED_FLAG == 0x8000,
{
    record::lemma_header_len(h);
}

/// One is a power of two, and so is exactly every even number whose half is; no
/// other odd number is.
pub proof fn law_powers_of_two(a: usize)
    requires
        a > 0,
    ensures
        a % 2 == 1 ==> (align::is_power_of_two(a) <==> a == 1),
        a % 2 == 0 ==> (align::is_power_of_two(a) <==> align::is_power_of_two((a / 2) as usize)),
        !align::is_power_of_two(0),
{
    let h = (a / 2) as usize;
    assert(a > 0 && a % 2 == 1 ==> ((a & (a - 1) as usize) == 0 <==> a == 1)) by (bit_vector);
    assert(a > 0 && a % 2 == 0 && h == a / 2 ==> ((a & (a - 1) as usize) == 0 <==> (h & (h
        - 1) as usize) == 0)) by (bit_vector);
}

/// Numbers are told by their bytes: eight bytes are those of the number that
/// they spell.
pub proof fn law_bytes_are_those_of_their_number(s: Seq<u8>)
    requires
        s.len() == 8,
    ensures
        le::le64(le::from64(s)) == s,
{
    let lo = s.subrange(0, 4);
    let hi = s.subrange(4, 8);
    lemma_four_bytes(lo);
    lemma_four_bytes(hi);
    reveal(le::from64);
    reveal(le::le64);
    let a = le::from32(lo);
    let b = le::from32(hi);
    assert(le::from64(s) == a + 0x1_0000_0000 * b);
    assert(le::from64(s) % 0x1_0000_0000 == a);
    assert(le::from64(s) / 0x1_0000_0000 == b);
    assert(le::le64(le::from64(s)) =~= lo + hi);
    assert(lo + hi =~= s);
}

/// Four bytes are those of the number that they spell.
proof fn lemma_four_bytes(s: Seq<u8>)
    requires
        s.len() == 4,
    ensures
        le::le32(le::from32(s)) == s,
{
    reveal(le::from32);
    reveal(le::le32);
    let x = le::from32(s);
    assert(x == s[0] + 256 * s[1] + 65_536 * s[2] + 16_777_216 * s[3]);
    assert(x % 256 == s[0]);
    assert(x / 256 == s[1] + 256 * s[2] + 65_536 * s[3]);
    assert(x / 65_536 == s[2] + 256 * s[3]);
    assert(x / 16_777_216 == s[3]);
    assert(le::le32(x) =~= s);
}

} // verus!
