//! The CRC-32C checksum (Castagnoli), bit by bit.

use vstd::prelude::*;

verus! {

/// The generator polynomial, bits reversed.
pub const POLYNOMIAL: u32 = 0x82F6_3B78;

/// Shifts one bit out of the register.
pub open spec fn shift_bit(crc: u32) -> u32 {
    if crc & 1 == 1 {
        (crc >> 1) ^ POLYNOMIAL
    } else {
        crc >> 1
    }
}

/// Shifts `n` bits out of the register.
pub open spec fn shift_bits(crc: u32, n: nat) -> u32
    decreases n,
{
    if n == 0 {
        crc
    } else {
        shift_bit(shift_bits(crc, (n - 1) as nat))
    }
}

/// The register after all bytes of `s` went in.
pub open spec fn register(s: Seq<u8>) -> u32
    decreases s.len(),
{
    if s.len() == 0 {
        0xFFFF_FFFF
    } else {
        shift_bits(register(s.drop_last()) ^ (s.last() as u32), 8)
    }
}

/// The checksum of `s`.
pub open spec fn checksum(s: Seq<u8>) -> u32 {
    register(s) ^ 0xFFFF_FFFF
}

/// Puts the bytes of `data` into a register that holds `before`.
fn feed(reg: u32, data: &[u8], Ghost(before): Ghost<Seq<u8>>) -> (r: u32)
    requires
        reg == register(before),
    ensures
        r == register(before + data@),
{
    let mut crc: u32 = reg;
    let mut i: usize = 0;
    assert(before + data@.take(0) =~= before);
    while i < data.len()
        invariant
            i <= data@.len(),
            crc == register(before + data@.take(i as int)),
        decreases data@.len() - i,
    {
        let ghost s = before + data@.take(i + 1);
        proof {
            assert(s.drop_last() =~= before + data@.take(i as int));
            assert(s.last() == data@[i as int]);
        }
        let start: u32 = crc ^ (data[i] as u32);
        let mut c: u32 = start;
        let mut k: u32 = 0;
        while k < 8
            invariant
                k <= 8,
                c == shift_bits(start, k as nat),
            decreases 8 - k,
        {
            c = if c & 1 == 1 {
                (c >> 1) ^ POLYNOMIAL
            } else {
                c >> 1
            };
            k = k + 1;
        }
        crc = c;
        i = i + 1;
    }
    assert(data@.take(i as int) =~= data@);
    crc
}

/// The checksum of `head` followed by `tail`.
pub fn checksum_of(head: &[u8], tail: &[u8]) -> (r: u32)
    ensures
        r == checksum(head@ + tail@),
{
    let a: u32 = feed(0xFFFF_FFFF, head, Ghost(Seq::empty()));
    assert(Seq::<u8>::empty() + head@ =~= head@);
    let b: u32 = feed(a, tail, Ghost(head@));
    b ^ 0xFFFF_FFFF
}

} // verus!
