//! Byte strings strung together, each behind its length.

use vstd::prelude::*;

use crate::wal::le;

verus! {

/// One byte string with its length in front.
pub open spec fn framed(f: Seq<u8>) -> Seq<u8> {
    le::le64(f.len() as u64) + f
}

/// Byte strings strung together.
pub open spec fn joined(fs: Seq<Seq<u8>>) -> Seq<u8>
    decreases fs.len(),
{
    if fs.len() == 0 {
        Seq::empty()
    } else {
        framed(fs[0]) + joined(fs.skip(1))
    }
}

/// The byte strings in `b`, if it is made up of such.
pub open spec fn split(b: Seq<u8>) -> Option<Seq<Seq<u8>>>
    decreases b.len(),
{
    if b.len() == 0 {
        Some(Seq::empty())
    } else if b.len() < 8 || le::from64(b.subrange(0, 8)) > b.len() - 8 {
        None
    } else {
        let n = le::from64(b.subrange(0, 8));
        match split(b.skip(8 + n)) {
            Some(rest) => Some(seq![b.subrange(8, 8 + n)] + rest),
            None => None,
        }
    }
}

/// What was strung together comes apart again.
pub proof fn law_frames_round_trip(fs: Seq<Seq<u8>>)
    requires
        forall|i: int| 0 <= i < fs.len() ==> (#[trigger] fs[i]).len() <= u64::MAX,
    ensures
        split(joined(fs)) == Some(fs),
    decreases fs.len(),
{
    broadcast use le::group_round_trips;

    if fs.len() == 0 {
        assert(joined(fs).len() == 0);
        assert(fs =~= Seq::empty());
    } else {
        let f = fs[0];
        let t = fs.skip(1);
        let b = joined(fs);
        assert forall|i: int| 0 <= i < t.len() implies (#[trigger] t[i]).len() <= u64::MAX by {
            assert(t[i] == fs[i + 1]);
        }
        law_frames_round_trip(t);
        assert(b.subrange(0, 8) =~= le::le64(f.len() as u64));
        assert(b.subrange(8, (8 + f.len()) as int) =~= f);
        assert(b.skip((8 + f.len()) as int) =~= joined(t));
        assert(seq![f] + t =~= fs);
    }
}

/// Views of byte strings.
pub open spec fn frames_view(v: Seq<Vec<u8>>) -> Seq<Seq<u8>> {
    Seq::new(v.len(), |i: int| v[i]@)
}

/// Strings byte strings together.
pub fn join_frames(v: &Vec<Vec<u8>>) -> (r: Vec<u8>)
    ensures
        r@ == joined(frames_view(v@)),
{
    let mut out: Vec<u8> = Vec::new();
    let ghost fs = frames_view(v@);
    let mut i: usize = 0;
    assert(fs.skip(0) =~= fs);
    while i < v.len()
        invariant
            i <= v@.len(),
            fs == frames_view(v@),
            joined(fs) =~= out@ + joined(fs.skip(i as int)),
        decreases v@.len() - i,
    {
        proof {
            let t = fs.skip(i as int);
            assert(t[0] == v@[i as int]@);
            assert(t.skip(1) =~= fs.skip(i + 1));
        }
        out.append(&mut le::u64_to_le(v[i].len() as u64));
        out.extend_from_slice(v[i].as_slice());
        i = i + 1;
    }
    out
}

/// Takes byte strings apart.
pub fn split_frames(b: &[u8]) -> (r: Option<Vec<Vec<u8>>>)
    ensures
        match split(b@) {
            Some(fs) => r matches Some(v) && frames_view(v@) == fs,
            None => r is None,
        },
{
    let mut out: Vec<Vec<u8>> = Vec::new();
    let mut at: usize = 0;
    let len: usize = b.len();
    proof {
        assert(b@.skip(0) =~= b@);
        assert(frames_view(out@) =~= Seq::empty());
    }
    while at < len
        invariant
            at <= len == b@.len(),
            split(b@) is None <==> split(b@.skip(at as int)) is None,
            split(b@.skip(at as int)) matches Some(rest) ==> split(b@) == Some(
                frames_view(out@) + rest,
            ),
        decreases len - at,
    {
        let ghost t = b@.skip(at as int);
        if len - at < 8 {
            return None;
        }
        let n: u64 = le::u64_at(b, at);
        assert(b@.subrange(at as int, at + 8) =~= t.subrange(0, 8));
        if n > (len - at - 8) as u64 {
            return None;
        }
        let from: usize = at + 8;
        let to: usize = from + n as usize;
        let part = vstd::slice::slice_subrange(b, from, to);
        let mut f: Vec<u8> = Vec::new();
        f.extend_from_slice(part);
        proof {
            assert(f@ =~= t.subrange(8, 8 + n));
            assert(t.skip(8 + n) =~= b@.skip(to as int));
            let before = out@;
            assert(frames_view(before.push(f)) =~= frames_view(before).push(f@));
            match split(t.skip(8 + n)) {
                Some(rest) => {
                    assert(frames_view(before) + (seq![f@] + rest) =~= frames_view(before.push(f))
                        + rest);
                },
                None => {},
            }
        }
        out.push(f);
        at = to;
    }
    proof {
        assert(b@.skip(at as int) =~= Seq::empty());
        assert(frames_view(out@) + Seq::<Seq<u8>>::empty() =~= frames_view(out@));
    }
    Some(out)
}

/// Four-byte numbers as bytes.
pub open spec fn words(s: Seq<u32>) -> Seq<u8>
    decreases s.len(),
{
    if s.len() == 0 {
        Seq::empty()
    } else {
        words(s.drop_last()) + le::le32(s.last())
    }
}

/// The four-byte numbers that bytes spell.
pub open spec fn unwords(b: Seq<u8>) -> Option<Seq<u32>> {
    if b.len() % 4 != 0 {
        None
    } else {
        Some(Seq::new(b.len() / 4, |i: int| le::from32(b.subrange(4 * i, 4 * i + 4))))
    }
}

/// Numbers come back from their bytes.
pub proof fn lemma_words(s: Seq<u32>)
    ensures
        words(s).len() == 4 * s.len(),
        unwords(words(s)) == Some(s),
    decreases s.len(),
{
    broadcast use le::group_round_trips;

    if s.len() > 0 {
        let init = s.drop_last();
        lemma_words(init);
        let b = words(s);
        let n = init.len() as int;
        assert(b.len() == 4 * s.len());
        assert forall|i: int| 0 <= i < s.len() implies le::from32(b.subrange(4 * i, 4 * i + 4))
            == #[trigger] s[i] by {
            if i < n {
                assert(b.subrange(4 * i, 4 * i + 4) =~= words(init).subrange(4 * i, 4 * i + 4));
                assert(unwords(words(init))->0[i] == init[i]);
            } else {
                assert(b.subrange(4 * i, 4 * i + 4) =~= le::le32(s.last()));
            }
        }
        assert(unwords(b)->0 =~= s);
    } else {
        assert(unwords(words(s))->0 =~= s);
    }
}

/// The bytes of four-byte numbers.
pub fn words_to_bytes(s: &Vec<u32>) -> (r: Vec<u8>)
    ensures
        r@ == words(s@),
{
    let mut out: Vec<u8> = Vec::new();
    let mut i: usize = 0;
    assert(s@.take(0) =~= Seq::empty());
    while i < s.len()
        invariant
            i <= s@.len(),
            out@ == words(s@.take(i as int)),
        decreases s@.len() - i,
    {
        assert(s@.take(i + 1).drop_last() =~= s@.take(i as int));
        out.append(&mut le::u32_to_le(s[i]));
        i = i + 1;
    }
    assert(s@.take(i as int) =~= s@);
    out
}

/// The four-byte numbers that bytes spell.
pub fn bytes_to_words(b: &Vec<u8>) -> (r: Option<Vec<u32>>)
    ensures
        match unwords(b@) {
            Some(s) => r matches Some(v) && v@ == s,
            None => r is None,
        },
{
    if b.len() % 4 != 0 {
        return None;
    }
    let mut out: Vec<u32> = Vec::new();
    let mut i: usize = 0;
    let len: usize = b.len();
    let n: usize = len / 4;
    while i < n
        invariant
            i <= n,
            4 * n == len == b@.len(),
            out@.len() == i,
            forall|k: int|
                0 <= k < i ==> #[trigger] out@[k] == le::from32(b@.subrange(4 * k, 4 * k + 4)),
        decreases n - i,
    {
        out.push(le::u32_at(b.as_slice(), 4 * i));
        i = i + 1;
    }
    assert(out@ =~= unwords(b@)->0);
    Some(out)
}

} // verus!
