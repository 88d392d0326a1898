//! Byte-level helpers shared by the wire codecs: big-endian integer fields
//! and small verified buffer operations.
//!
//! Both header formats lay their integer fields out big-endian. The original
//! wire layout left the fixed-header byte order to the machine; this codec
//! fixes big-endian for every field so that frames mean the same thing on
//! every host.
use vstd::prelude::*;

verus! {

/// The big-endian `u16` stored in the first two bytes of `b`.
pub open spec fn be_u16(b: Seq<u8>) -> u16
    recommends
        b.len() >= 2,
{
    (((b[0] as u16) << 8) | (b[1] as u16)) as u16
}

/// The big-endian `u32` stored in the first four bytes of `b`.
pub open spec fn be_u32(b: Seq<u8>) -> u32
    recommends
        b.len() >= 4,
{
    (((b[0] as u32) << 24) | ((b[1] as u32) << 16) | ((b[2] as u32) << 8) | (b[3] as u32)) as u32
}

/// The two-byte big-endian encoding of `x`.
pub open spec fn u16_be(x: u16) -> Seq<u8> {
    seq![((x >> 8) & 0xff) as u8, (x & 0xff) as u8]
}

/// The four-byte big-endian encoding of `x`.
pub open spec fn u32_be(x: u32) -> Seq<u8> {
    seq![
        ((x >> 24) & 0xff) as u8,
        ((x >> 16) & 0xff) as u8,
        ((x >> 8) & 0xff) as u8,
        (x & 0xff) as u8,
    ]
}

/// Decoding the four-byte encoding of `x` gives `x` back.
pub proof fn lemma_u32_be_round(x: u32)
    ensures
        be_u32(u32_be(x)) == x,
{
    assert(((((((x >> 24) & 0xff) as u8) as u32) << 24) | (((((x >> 16) & 0xff) as u8) as u32)
        << 16) | (((((x >> 8) & 0xff) as u8) as u32) << 8) | (((x & 0xff) as u8) as u32)) == x)
        by (bit_vector);
}

/// Reads the big-endian `u16` at offset `off` of `b`.
pub fn u16_from_be(b: &[u8], off: usize) -> (x: u16)
    requires
        off + 2 <= b@.len(),
    ensures
        x == be_u16(b@.subrange(off as int, off + 2)),
{
    let x = ((b[off] as u16) << 8) | (b[off + 1] as u16);
    proof {
        let s = b@.subrange(off as int, off + 2);
        assert(s[0] == b@[off as int] && s[1] == b@[off + 1]);
    }
    x
}

/// Reads the big-endian `u32` at offset `off` of `b`.
pub fn u32_from_be(b: &[u8], off: usize) -> (x: u32)
    requires
        off + 4 <= b@.len(),
    ensures
        x == be_u32(b@.subrange(off as int, off + 4)),
{
    let x = ((b[off] as u32) << 24) | ((b[off + 1] as u32) << 16) | ((b[off + 2] as u32) << 8) | (
    b[off + 3] as u32);
    proof {
        let s = b@.subrange(off as int, off + 4);
        assert(s[0] == b@[off as int] && s[1] == b@[off + 1] && s[2] == b@[off + 2]);
        assert(s[3] == b@[off + 3]);
    }
    x
}

/// Appends the two-byte big-endian encoding of `x` to `out`.
pub fn push_u16_be(out: &mut Vec<u8>, x: u16)
    ensures
        final(out)@ == old(out)@ + u16_be(x),
{
    out.push(((x >> 8) & 0xff) as u8);
    out.push((x & 0xff) as u8);
    assert(out@ =~= old(out)@ + u16_be(x));
}

/// Appends the four-byte big-endian encoding of `x` to `out`.
pub fn push_u32_be(out: &mut Vec<u8>, x: u32)
    ensures
        final(out)@ == old(out)@ + u32_be(x),
{
    out.push(((x >> 24) & 0xff) as u8);
    out.push(((x >> 16) & 0xff) as u8);
    out.push(((x >> 8) & 0xff) as u8);
    out.push((x & 0xff) as u8);
    assert(out@ =~= old(out)@ + u32_be(x));
}

/// Appends every byte of `src` to `dst`.
pub fn push_bytes(dst: &mut Vec<u8>, src: &[u8])
    ensures
        final(dst)@ == old(dst)@ + src@,
{
    let mut i: usize = 0;
    while i < src.len()
        invariant
            i <= src@.len(),
            dst@ == old(dst)@ + src@.subrange(0, i as int),
        decreases src@.len() - i,
    {
        dst.push(src[i]);
        i = i + 1;
        assert(dst@ =~= old(dst)@ + src@.subrange(0, i as int));
    }
    assert(dst@ =~= old(dst)@ + src@);
}

/// Copies the bytes of `src` between `start` and `end` into a fresh buffer.
pub fn copy_range(src: &[u8], start: usize, end: usize) -> (out: Vec<u8>)
    requires
        start <= end <= src@.len(),
    ensures
        out@ == src@.subrange(start as int, end as int),
{
    let mut out: Vec<u8> = Vec::new();
    let mut i: usize = start;
    while i < end
        invariant
            start <= i <= end <= src@.len(),
            out@ == src@.subrange(start as int, i as int),
        decreases end - i,
    {
        out.push(src[i]);
        i = i + 1;
        assert(out@ =~= src@.subrange(start as int, i as int));
    }
    out
}

/// Compares two byte strings for equality of contents.
pub fn bytes_eq(a: &[u8], b: &[u8]) -> (r: bool)
    ensures
        r == (a@ == b@),
{
    if a.len() != b.len() {
        assert(a@ != b@);
        return false;
    }
    let mut i: usize = 0;
    while i < a.len()
        invariant
            i <= a@.len(),
            a@.len() == b@.len(),
            forall|j: int| 0 <= j < i ==> a@[j] == b@[j],
        decreases a@.len() - i,
    {
        if a[i] != b[i] {
            return false;
        }
        i = i + 1;
    }
    assert(a@ =~= b@);
    true
}

} // verus!
