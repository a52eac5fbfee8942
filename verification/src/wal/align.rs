//! Block alignment of offsets and buffers.

use vstd::prelude::*;

use crate::wal::error::WalError;

verus! {

/// Block size that direct I/O asks for.
pub const DEFAULT_ALIGNMENT: usize = 4096;

/// The smallest multiple of `align` that is not below `value`.
pub open spec fn rounded_up(value: int, align: int) -> int {
    (value + align - 1) / align * align
}

/// Whether `value` is a multiple of `align`.
pub fn is_aligned(value: usize, align: usize) -> (r: bool)
    requires
        align > 0,
    ensures
        r == (value as int % align as int == 0),
{
    value % align == 0
}

/// What `rounded_up` promises.
pub proof fn lemma_rounded_up(value: int, align: int)
    requires
        align > 0,
        value >= 0,
    ensures
        rounded_up(value, align) % align == 0,
        value <= rounded_up(value, align) < value + align,
        rounded_up(value, align) == if value % align == 0 {
            value
        } else {
            value + (align - value % align)
        },
{
    let q = value / align;
    let m = value % align;
    vstd::arithmetic::div_mod::lemma_fundamental_div_mod(value, align);
    if m == 0 {
        assert((value + align - 1) / align == q) by (nonlinear_arith)
            requires
                value == align * q,
                align > 0,
        ;
    } else {
        assert((value + align - 1) / align == q + 1) by (nonlinear_arith)
            requires
                value == align * q + m,
                0 < m < align,
        ;
    }
    let n = (value + align - 1) / align;
    assert(n * align == align * n) by (nonlinear_arith);
    assert((q + 1) * align == align * q + align) by (nonlinear_arith);
    assert(q * align == align * q) by (nonlinear_arith);
    vstd::arithmetic::div_mod::lemma_mod_multiples_basic(n, align);
}

/// Rounds `value` up to a multiple of `align`.
pub fn round_up(value: usize, align: usize) -> (r: usize)
    requires
        align > 0,
        rounded_up(value as int, align as int) <= usize::MAX,
    ensures
        r == rounded_up(value as int, align as int),
{
    proof {
        lemma_rounded_up(value as int, align as int);
    }
    let m: usize = value % align;
    if m == 0 {
        value
    } else {
        value + (align - m)
    }
}

/// A byte buffer of fixed capacity whose content can be written out in whole blocks.
pub struct AlignedBuf {
    data: Vec<u8>,
    capacity: usize,
    alignment: usize,
}

impl View for AlignedBuf {
    type V = Seq<u8>;

    closed spec fn view(&self) -> Seq<u8> {
        self.data@
    }
}

/// Whether `a` is a power of two.
pub open spec fn is_power_of_two(a: usize) -> bool {
    a != 0 && a & (a - 1) as usize == 0
}

impl AlignedBuf {
    /// How many bytes fit.
    pub closed spec fn spec_capacity(&self) -> int {
        self.capacity as int
    }

    /// The block size.
    pub closed spec fn spec_alignment(&self) -> int {
        self.alignment as int
    }

    /// The content fits, and the capacity is a whole number of blocks.
    pub closed spec fn wf(&self) -> bool {
        &&& self.data@.len() <= self.capacity
        &&& self.alignment > 0
        &&& self.capacity as int % self.alignment as int == 0
    }

    /// An empty buffer of at least `size` bytes, rounded up to whole blocks.
    pub fn new(size: usize, alignment: usize) -> (r: Result<AlignedBuf, WalError>)
        requires
            alignment > 0 ==> rounded_up(size as int, alignment as int) <= usize::MAX,
        ensures
            r is Ok <==> is_power_of_two(alignment),
            r matches Ok(b) ==> b.wf() && b@ == Seq::<u8>::empty() && b.spec_alignment()
                == alignment && b.spec_capacity() == rounded_up(size as int, alignment as int),
            r matches Err(e) ==> e == (WalError::InvalidAlignment { alignment }),
    {
        if alignment == 0 || alignment & (alignment - 1) != 0 {
            return Err(WalError::InvalidAlignment { alignment });
        }
        proof {
            lemma_rounded_up(size as int, alignment as int);
        }
        Ok(AlignedBuf { data: Vec::new(), capacity: round_up(size, alignment), alignment })
    }

    /// Bytes held.
    pub fn len(&self) -> (r: usize)
        ensures
            r == self@.len(),
    {
        self.data.len()
    }

    /// Whether nothing is held.
    pub fn is_empty(&self) -> (r: bool)
        ensures
            r == (self@.len() == 0),
    {
        self.data.len() == 0
    }

    /// How many bytes fit in all.
    pub fn capacity(&self) -> (r: usize)
        ensures
            r == self.spec_capacity(),
    {
        self.capacity
    }

    /// How many more bytes fit.
    pub fn remaining(&self) -> (r: usize)
        requires
            self.wf(),
        ensures
            r == self.spec_capacity() - self@.len(),
    {
        self.capacity - self.data.len()
    }

    /// Appends `bytes`, as far as they fit; returns how many did.
    pub fn write(&mut self, bytes: &[u8]) -> (r: usize)
        requires
            old(self).wf(),
        ensures
            final(self).wf(),
            final(self).spec_capacity() == old(self).spec_capacity(),
            final(self).spec_alignment() == old(self).spec_alignment(),
            r == if bytes@.len() <= old(self).spec_capacity() - old(self)@.len() {
                bytes@.len() as int
            } else {
                old(self).spec_capacity() - old(self)@.len()
            },
            final(self)@ == old(self)@ + bytes@.take(r as int),
    {
        let room: usize = self.capacity - self.data.len();
        let n: usize = if bytes.len() <= room {
            bytes.len()
        } else {
            room
        };
        let part = vstd::slice::slice_subrange(bytes, 0, n);
        self.data.extend_from_slice(part);
        assert(self.data@ =~= old(self).data@ + bytes@.take(n as int));
        n
    }

    /// Drops all but the last `n` bytes.
    pub fn keep_last(&mut self, n: usize)
        requires
            old(self).wf(),
            n <= old(self)@.len(),
        ensures
            final(self).wf(),
            final(self)@ == old(self)@.skip(old(self)@.len() - n),
            final(self).spec_capacity() == old(self).spec_capacity(),
            final(self).spec_alignment() == old(self).spec_alignment(),
    {
        let len: usize = self.data.len();
        let mut rest: Vec<u8> = Vec::new();
        rest.extend_from_slice(
            vstd::slice::slice_subrange(self.data.as_slice(), len - n, len),
        );
        assert(rest@ =~= self.data@.skip(len - n));
        self.data = rest;
    }

    /// The content.
    pub fn as_slice(&self) -> (r: &[u8])
        ensures
            r@ == self@,
    {
        self.data.as_slice()
    }

    /// The content, filled up with zeros to whole blocks.
    pub fn as_aligned_slice(&self) -> (r: Vec<u8>)
        requires
            self.wf(),
        ensures
            r@ == padded(self@, rounded_up(self@.len() as int, self.spec_alignment())),
    {
        let ghost want = rounded_up(self@.len() as int, self.alignment as int);
        proof {
            lemma_rounded_up(self@.len() as int, self.alignment as int);
            lemma_rounded_up_least(self@.len() as int, self.alignment as int, self.capacity as int);
        }
        let end: usize = round_up(self.data.len(), self.alignment);
        zero_filled(self.data.as_slice(), end)
    }
}

/// Whole blocks come out whole: rounding up works on what is left over.
pub proof fn lemma_rounded_up_rest(value: int, align: int)
    requires
        align > 0,
        value >= 0,
    ensures
        0 <= value % align <= value,
        value % align < align,
        (value - value % align) % align == 0,
        rounded_up(value, align) == value - value % align + rounded_up(value % align, align),
{
    vstd::arithmetic::div_mod::lemma_fundamental_div_mod(value, align);
    vstd::arithmetic::div_mod::lemma_mod_bound(value, align);
    vstd::arithmetic::div_mod::lemma_mod_decreases(value as nat, align as nat);
    vstd::arithmetic::div_mod::lemma_small_mod((value % align) as nat, align as nat);
    vstd::arithmetic::div_mod::lemma_mod_multiples_basic(value / align, align);
    assert(value / align * align == align * (value / align)) by (nonlinear_arith);
    lemma_rounded_up(value, align);
    lemma_rounded_up(value % align, align);
}

/// No multiple of `align` from `value` on is below `rounded_up`.
pub proof fn lemma_rounded_up_least(value: int, align: int, m: int)
    requires
        align > 0,
        0 <= value <= m,
        m % align == 0,
    ensures
        rounded_up(value, align) <= m,
{
    lemma_rounded_up(value, align);
    let r = rounded_up(value, align);
    vstd::arithmetic::div_mod::lemma_fundamental_div_mod(m, align);
    vstd::arithmetic::div_mod::lemma_fundamental_div_mod(r, align);
    if r > m {
        let a = r / align;
        let b = m / align;
        assert(a > b) by (nonlinear_arith)
            requires
                align * a > align * b,
                align > 0,
        ;
        assert(align * a >= align * b + align) by (nonlinear_arith)
            requires
                a >= b + 1,
                align > 0,
        ;
    }
}

/// `s` followed by zeros up to a length of `n`.
pub open spec fn padded(s: Seq<u8>, n: int) -> Seq<u8> {
    s + Seq::new((n - s.len()) as nat, |i: int| 0u8)
}

/// Copies `s` and fills it up with zeros to a length of `n`.
pub fn zero_filled(s: &[u8], n: usize) -> (r: Vec<u8>)
    requires
        s@.len() <= n,
    ensures
        r@ == padded(s@, n as int),
        r@.len() == n,
{
    let mut r: Vec<u8> = Vec::new();
    r.extend_from_slice(s);
    assert(r@ =~= s@);
    while r.len() < n
        invariant
            s@.len() <= r@.len() <= n,
            r@ =~= padded(s@, r@.len() as int),
        decreases n - r@.len(),
    {
        r.push(0);
    }
    r
}

} // verus!
