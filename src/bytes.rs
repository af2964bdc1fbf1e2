//! Little-endian integers as they stand in modules and in linear memory.
use vstd::prelude::*;

verus! {

/// The four bytes of `n`, least significant first.
pub open spec fn le_bytes_u32(n: u32) -> Seq<u8> {
    seq![(n & 0xff) as u8, ((n >> 8u32) & 0xff) as u8, ((n >> 16u32) & 0xff) as u8, (n >> 24u32) as u8]
}

/// The two bytes of `n`, least significant first.
pub open spec fn le_bytes_u16(n: u16) -> Seq<u8> {
    seq![(n & 0xff) as u16 as u8, (n >> 8u16) as u8]
}

/// The integer whose little-endian bytes are `b0 b1 b2 b3`.
pub open spec fn le_u32_of(b0: u8, b1: u8, b2: u8, b3: u8) -> u32 {
    (b0 as u32) | ((b1 as u32) << 8u32) | ((b2 as u32) << 16u32) | ((b3 as u32) << 24u32)
}

/// The integer held by the first four bytes of `b`, little-endian.
pub open spec fn le_u32(b: Seq<u8>) -> u32 {
    le_u32_of(b[0], b[1], b[2], b[3])
}

/// The integer held by the first two bytes of `b`, little-endian.
pub open spec fn le_u16(b: Seq<u8>) -> u16 {
    ((b[0] as u16) | ((b[1] as u16) << 8u16)) as u16
}

/// Reading back the bytes of an integer gives the integer.
pub proof fn lemma_le_u32_round_trip(n: u32)
    ensures
        le_bytes_u32(n).len() == 4,
        le_u32(le_bytes_u32(n)) == n,
{
    let b = le_bytes_u32(n);
    assert(le_u32_of((n & 0xff) as u8, ((n >> 8u32) & 0xff) as u8, ((n >> 16u32) & 0xff) as u8, (n >> 24u32) as u8) == n) by (bit_vector);
}

/// Reading back the bytes of a 16-bit integer gives the integer.
pub proof fn lemma_le_u16_round_trip(n: u16)
    ensures
        le_bytes_u16(n).len() == 2,
        le_u16(le_bytes_u16(n)) == n,
{
    assert((((n & 0xff) as u16 as u8) as u16 | (((n >> 8u16) as u8) as u16) << 8u16) as u16 == n) by (bit_vector);
}

/// Appends the little-endian bytes of `n`.
pub fn push_u32_le(buf: &mut Vec<u8>, n: u32)
    ensures
        final(buf)@ == old(buf)@ + le_bytes_u32(n),
{
    buf.push((n & 0xff) as u8);
    buf.push(((n >> 8) & 0xff) as u8);
    buf.push(((n >> 16) & 0xff) as u8);
    buf.push((n >> 24) as u8);
    assert(final(buf)@ =~= old(buf)@ + le_bytes_u32(n));
}

/// The little-endian integer in `b[at..at + 4]`.
pub fn read_u32_le_at(b: &[u8], at: usize) -> (r: u32)
    requires
        at + 4 <= b@.len(),
    ensures
        r == le_u32(b@.subrange(at as int, at + 4)),
{
    (b[at] as u32) | ((b[at + 1] as u32) << 8) | ((b[at + 2] as u32) << 16) | ((b[at + 3] as u32) << 24)
}

/// The little-endian integer in `b[at..at + 2]`.
pub fn read_u16_le_at(b: &[u8], at: usize) -> (r: u16)
    requires
        at + 2 <= b@.len(),
    ensures
        r == le_u16(b@.subrange(at as int, at + 2)),
{
    ((b[at] as u16) | ((b[at + 1] as u16) << 8)) as u16
}

} // verus!
