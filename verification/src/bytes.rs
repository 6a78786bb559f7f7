//! Little-endian integer encoding and decoding on byte sequences.

use vstd::prelude::*;

verus! {

/// The four little-endian bytes of `n`.
pub open spec fn le32(n: u32) -> Seq<u8> {
    seq![
        (n & 0xff) as u8,
        ((n >> 8u32) & 0xff) as u8,
        ((n >> 16u32) & 0xff) as u8,
        ((n >> 24u32) & 0xff) as u8,
    ]
}

/// The eight little-endian bytes of `n`.
pub open spec fn le64(n: u64) -> Seq<u8> {
    seq![
        (n & 0xff) as u8,
        ((n >> 8u64) & 0xff) as u8,
        ((n >> 16u64) & 0xff) as u8,
        ((n >> 24u64) & 0xff) as u8,
        ((n >> 32u64) & 0xff) as u8,
        ((n >> 40u64) & 0xff) as u8,
        ((n >> 48u64) & 0xff) as u8,
        ((n >> 56u64) & 0xff) as u8,
    ]
}

/// The little-endian `u32` made of four bytes.
pub open spec fn u32_of(b0: u8, b1: u8, b2: u8, b3: u8) -> u32 {
    (b0 as u32) | ((b1 as u32) << 8u32) | ((b2 as u32) << 16u32) | ((b3 as u32) << 24u32)
}

/// The little-endian `u64` made of eight bytes.
pub open spec fn u64_of(b0: u8, b1: u8, b2: u8, b3: u8, b4: u8, b5: u8, b6: u8, b7: u8) -> u64 {
    (b0 as u64) | ((b1 as u64) << 8u64) | ((b2 as u64) << 16u64) | ((b3 as u64) << 24u64) | ((
    b4 as u64) << 32u64) | ((b5 as u64) << 40u64) | ((b6 as u64) << 48u64) | ((b7 as u64)
        << 56u64)
}

/// The little-endian `u32` stored at `b[p..p + 4]`.
pub open spec fn get_u32(b: Seq<u8>, p: int) -> u32 {
    u32_of(b[p], b[p + 1], b[p + 2], b[p + 3])
}

/// The little-endian `u64` stored at `b[p..p + 8]`.
pub open spec fn get_u64(b: Seq<u8>, p: int) -> u64 {
    u64_of(b[p], b[p + 1], b[p + 2], b[p + 3], b[p + 4], b[p + 5], b[p + 6], b[p + 7])
}

/// `e` occurs in `b` at position `p`.
pub open spec fn window(b: Seq<u8>, p: int, e: Seq<u8>) -> bool {
    0 <= p && p + e.len() <= b.len() && b.subrange(p, p + e.len()) == e
}

proof fn lemma_u32_roundtrip_bits(n: u32)
    ensures
        u32_of(
            (n & 0xff) as u8,
            ((n >> 8u32) & 0xff) as u8,
            ((n >> 16u32) & 0xff) as u8,
            ((n >> 24u32) & 0xff) as u8,
        ) == n,
{
    assert(((n & 0xff) as u8 as u32) | ((((n >> 8u32) & 0xff) as u8 as u32) << 8u32) | ((((n
        >> 16u32) & 0xff) as u8 as u32) << 16u32) | ((((n >> 24u32) & 0xff) as u8 as u32)
        << 24u32) == n) by (bit_vector);
}

proof fn lemma_u64_roundtrip_bits(n: u64)
    ensures
        u64_of(
            (n & 0xff) as u8,
            ((n >> 8u64) & 0xff) as u8,
            ((n >> 16u64) & 0xff) as u8,
            ((n >> 24u64) & 0xff) as u8,
            ((n >> 32u64) & 0xff) as u8,
            ((n >> 40u64) & 0xff) as u8,
            ((n >> 48u64) & 0xff) as u8,
            ((n >> 56u64) & 0xff) as u8,
        ) == n,
{
    assert(((n & 0xff) as u8 as u64) | ((((n >> 8u64) & 0xff) as u8 as u64) << 8u64) | ((((n
        >> 16u64) & 0xff) as u8 as u64) << 16u64) | ((((n >> 24u64) & 0xff) as u8 as u64)
        << 24u64) | ((((n >> 32u64) & 0xff) as u8 as u64) << 32u64) | ((((n >> 40u64) & 0xff)
        as u8 as u64) << 40u64) | ((((n >> 48u64) & 0xff) as u8 as u64) << 48u64) | ((((n
        >> 56u64) & 0xff) as u8 as u64) << 56u64) == n) by (bit_vector);
}

/// Reading back four bytes written by `le32` gives the number.
pub proof fn lemma_read_le32(b: Seq<u8>, p: int, n: u32)
    requires
        window(b, p, le32(n)),
    ensures
        get_u32(b, p) == n,
{
    let w = b.subrange(p, p + 4);
    assert(b[p] == w[0]);
    assert(b[p + 1] == w[1]);
    assert(b[p + 2] == w[2]);
    assert(b[p + 3] == w[3]);
    lemma_u32_roundtrip_bits(n);
}

/// Reading back eight bytes written by `le64` gives the number.
pub proof fn lemma_read_le64(b: Seq<u8>, p: int, n: u64)
    requires
        window(b, p, le64(n)),
    ensures
        get_u64(b, p) == n,
{
    let w = b.subrange(p, p + 8);
    assert(b[p] == w[0]);
    assert(b[p + 1] == w[1]);
    assert(b[p + 2] == w[2]);
    assert(b[p + 3] == w[3]);
    assert(b[p + 4] == w[4]);
    assert(b[p + 5] == w[5]);
    assert(b[p + 6] == w[6]);
    assert(b[p + 7] == w[7]);
    lemma_u64_roundtrip_bits(n);
}

/// A window on a concatenation is a window on each part.
pub proof fn lemma_window_split(b: Seq<u8>, p: int, e1: Seq<u8>, e2: Seq<u8>)
    requires
        window(b, p, e1 + e2),
    ensures
        window(b, p, e1),
        window(b, p + e1.len(), e2),
{
    let w = b.subrange(p, p + e1.len() + e2.len());
    assert(w == e1 + e2);
    assert(b.subrange(p, p + e1.len()) =~= w.subrange(0, e1.len() as int));
    assert(w.subrange(0, e1.len() as int) =~= e1);
    assert(b.subrange(p + e1.len(), p + e1.len() + e2.len()) =~= w.subrange(
        e1.len() as int,
        w.len() as int,
    ));
    assert(w.subrange(e1.len() as int, w.len() as int) =~= e2);
}

/// Appends the little-endian bytes of `n`.
pub fn push_le32(out: &mut Vec<u8>, n: u32)
    ensures
        final(out)@ == old(out)@ + le32(n),
{
    out.push((n & 0xff) as u8);
    out.push(((n >> 8) & 0xff) as u8);
    out.push(((n >> 16) & 0xff) as u8);
    out.push(((n >> 24) & 0xff) as u8);
    assert(final(out)@ =~= old(out)@ + le32(n));
}

/// Appends the little-endian bytes of `n`.
pub fn push_le64(out: &mut Vec<u8>, n: u64)
    ensures
        final(out)@ == old(out)@ + le64(n),
{
    out.push((n & 0xff) as u8);
    out.push(((n >> 8) & 0xff) as u8);
    out.push(((n >> 16) & 0xff) as u8);
    out.push(((n >> 24) & 0xff) as u8);
    out.push(((n >> 32) & 0xff) as u8);
    out.push(((n >> 40) & 0xff) as u8);
    out.push(((n >> 48) & 0xff) as u8);
    out.push(((n >> 56) & 0xff) as u8);
    assert(final(out)@ =~= old(out)@ + le64(n));
}

/// The little-endian `u32` at `b[p..p + 4]`.
pub fn read_u32(b: &Vec<u8>, p: usize) -> (r: u32)
    requires
        p + 4 <= b.len(),
    ensures
        r == get_u32(b@, p as int),
{
    (b[p] as u32) | ((b[p + 1] as u32) << 8) | ((b[p + 2] as u32) << 16) | ((b[p + 3] as u32)
        << 24)
}

/// The little-endian `u64` at `b[p..p + 8]`.
pub fn read_u64(b: &Vec<u8>, p: usize) -> (r: u64)
    requires
        p + 8 <= b.len(),
    ensures
        r == get_u64(b@, p as int),
{
    (b[p] as u64) | ((b[p + 1] as u64) << 8) | ((b[p + 2] as u64) << 16) | ((b[p + 3] as u64)
        << 24) | ((b[p + 4] as u64) << 32) | ((b[p + 5] as u64) << 40) | ((b[p + 6] as u64)
        << 48) | ((b[p + 7] as u64) << 56)
}

} // verus!
