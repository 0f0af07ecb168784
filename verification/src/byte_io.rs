//! Little-endian field writers over byte buffers, and the splice view they are
//! specified with.

use vstd::prelude::*;
use vstd::bytes::{
    lemma_auto_spec_u32_to_from_le_bytes, lemma_auto_spec_u64_to_from_le_bytes, spec_u32_to_le_bytes,
    spec_u64_to_le_bytes, u32_to_le_bytes, u64_to_le_bytes,
};

verus! {

/// `s` with the bytes `b` written over it starting at `at`.
pub open spec fn splice(s: Seq<u8>, at: int, b: Seq<u8>) -> Seq<u8> {
    s.take(at) + b + s.skip(at + b.len())
}

/// Writing `b` right after a known prefix `p` extends the prefix by `b`, leaving the
/// rest of the old tail in place.
pub proof fn lemma_splice_after_prefix(p: Seq<u8>, tail: Seq<u8>, b: Seq<u8>)
    requires
        b.len() <= tail.len(),
    ensures
        splice(p + tail, p.len() as int, b) == (p + b) + tail.skip(b.len() as int),
{
    assert(splice(p + tail, p.len() as int, b) =~= (p + b) + tail.skip(b.len() as int));
}

/// Copy `src` into `buf` starting at `at`.
pub fn put_bytes(buf: &mut Vec<u8>, at: usize, src: &[u8])
    requires
        at + src@.len() <= old(buf)@.len(),
    ensures
        final(buf)@ == splice(old(buf)@, at as int, src@),
{
    let n = src.len();
    let len = buf.len();
    let mut i: usize = 0;
    while i < n
        invariant
            n == src@.len(),
            len == old(buf)@.len(),
            at + n <= len,
            i <= n,
            buf@.len() == old(buf)@.len(),
            forall|k: int| 0 <= k < at ==> buf@[k] == old(buf)@[k],
            forall|k: int| at <= k < at + i ==> buf@[k] == src@[k - at],
            forall|k: int| at + n <= k < buf@.len() ==> buf@[k] == old(buf)@[k],
            forall|k: int| at + i <= k < at + n ==> buf@[k] == old(buf)@[k],
        decreases n - i,
    {
        buf.set(at + i, src[i]);
        i = i + 1;
    }
    assert(buf@ =~= splice(old(buf)@, at as int, src@));
}

/// Write `v` as 4 little-endian bytes at `at`.
pub fn put_u32(buf: &mut Vec<u8>, at: usize, v: u32)
    requires
        at + 4 <= old(buf)@.len(),
    ensures
        final(buf)@ == splice(old(buf)@, at as int, spec_u32_to_le_bytes(v)),
{
    let bytes = u32_to_le_bytes(v);
    put_bytes(buf, at, bytes.as_slice());
}

/// Write `v` as 8 little-endian bytes at `at`.
pub fn put_u64(buf: &mut Vec<u8>, at: usize, v: u64)
    requires
        at + 8 <= old(buf)@.len(),
    ensures
        final(buf)@ == splice(old(buf)@, at as int, spec_u64_to_le_bytes(v)),
{
    let bytes = u64_to_le_bytes(v);
    put_bytes(buf, at, bytes.as_slice());
}

/// Write `v` as 4 little-endian bytes right after a buffer prefix already equal to
/// `p`; the prefix grows by those bytes and the remainder of `orig` stays in place.
pub fn put_u32_after(buf: &mut Vec<u8>, Ghost(p): Ghost<Seq<u8>>, Ghost(orig): Ghost<Seq<u8>>, at: usize, v: u32)
    requires
        old(buf)@ == p + orig.skip(p.len() as int),
        at == p.len(),
        at + 4 <= orig.len(),
    ensures
        final(buf)@ == (p + spec_u32_to_le_bytes(v)) + orig.skip(at + 4),
{
    proof {
        lemma_auto_spec_u32_to_from_le_bytes();
    }
    put_u32(buf, at, v);
    proof {
        lemma_splice_after_prefix(p, orig.skip(p.len() as int), spec_u32_to_le_bytes(v));
        assert(orig.skip(p.len() as int).skip(4) =~= orig.skip(at + 4));
    }
}

/// Write `v` as 8 little-endian bytes right after a buffer prefix already equal to
/// `p`; the prefix grows by those bytes and the remainder of `orig` stays in place.
pub fn put_u64_after(buf: &mut Vec<u8>, Ghost(p): Ghost<Seq<u8>>, Ghost(orig): Ghost<Seq<u8>>, at: usize, v: u64)
    requires
        old(buf)@ == p + orig.skip(p.len() as int),
        at == p.len(),
        at + 8 <= orig.len(),
    ensures
        final(buf)@ == (p + spec_u64_to_le_bytes(v)) + orig.skip(at + 8),
{
    proof {
        lemma_auto_spec_u64_to_from_le_bytes();
    }
    put_u64(buf, at, v);
    proof {
        lemma_splice_after_prefix(p, orig.skip(p.len() as int), spec_u64_to_le_bytes(v));
        assert(orig.skip(p.len() as int).skip(8) =~= orig.skip(at + 8));
    }
}

/// Append `v` as 4 little-endian bytes.
pub fn push_u32(buf: &mut Vec<u8>, v: u32)
    ensures
        final(buf)@ == old(buf)@ + spec_u32_to_le_bytes(v),
{
    let bytes = u32_to_le_bytes(v);
    append_bytes(buf, bytes.as_slice());
}

/// Append every byte of `src`.
pub fn append_bytes(buf: &mut Vec<u8>, src: &[u8])
    ensures
        final(buf)@ == old(buf)@ + src@,
{
    let n = src.len();
    let mut i: usize = 0;
    while i < n
        invariant
            n == src@.len(),
            i <= n,
            buf@ == old(buf)@ + src@.take(i as int),
        decreases n - i,
    {
        buf.push(src[i]);
        i = i + 1;
        assert(buf@ =~= old(buf)@ + src@.take(i as int));
    }
    assert(src@.take(n as int) =~= src@);
}

} // verus!
