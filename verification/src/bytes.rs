//! Fixed-width big-endian fields: 16- and 32-bit reads and writes.

use vstd::prelude::*;

verus! {

/// The 16-bit value held by two big-endian bytes.
pub open spec fn spec_u16_of(hi: u8, lo: u8) -> u16 {
    ((hi as u16) << 8) | (lo as u16)
}

/// The high byte of a 16-bit value.
pub open spec fn spec_u16_hi(x: u16) -> u8 {
    (x >> 8) as u8
}

/// The low byte of a 16-bit value.
pub open spec fn spec_u16_lo(x: u16) -> u8 {
    (x & 0xff) as u8
}

/// The 32-bit value held by four big-endian bytes.
pub open spec fn spec_u32_of(b0: u8, b1: u8, b2: u8, b3: u8) -> u32 {
    ((b0 as u32) << 24) | ((b1 as u32) << 16) | ((b2 as u32) << 8) | (b3 as u32)
}

/// Splitting a 16-bit value into bytes and reading them back is the
/// identity, and reading two bytes recovers exactly those bytes.
pub proof fn lemma_u16_round_trip(x: u16, hi: u8, lo: u8)
    ensures
        spec_u16_of(spec_u16_hi(x), spec_u16_lo(x)) == x,
        spec_u16_hi(spec_u16_of(hi, lo)) == hi,
        spec_u16_lo(spec_u16_of(hi, lo)) == lo,
{
    assert((((x >> 8) as u8 as u16) << 8) | ((x & 0xff) as u8 as u16) == x) by (bit_vector);
    assert(((((hi as u16) << 8) | (lo as u16)) >> 8) as u8 == hi) by (bit_vector);
    assert(((((hi as u16) << 8) | (lo as u16)) & 0xff) as u8 == lo) by (bit_vector);
}

/// Reads the big-endian 16-bit field at `pos`.
pub fn read_u16(b: &Vec<u8>, pos: usize) -> (r: u16)
    requires
        pos + 2 <= b@.len(),
    ensures
        r == spec_u16_of(b@[pos as int], b@[pos + 1]),
{
    let n = b.len();
    assert(pos + 2 <= n);
    ((b[pos] as u16) << 8) | (b[pos + 1] as u16)
}

/// Reads the big-endian 32-bit field at `pos`.
pub fn read_u32(b: &Vec<u8>, pos: usize) -> (r: u32)
    requires
        pos + 4 <= b@.len(),
    ensures
        r == spec_u32_of(b@[pos as int], b@[pos + 1], b@[pos + 2], b@[pos + 3]),
{
    let n = b.len();
    assert(pos + 4 <= n);
    ((b[pos] as u32) << 24) | ((b[pos + 1] as u32) << 16) | ((b[pos + 2] as u32) << 8) | (b[pos
        + 3] as u32)
}

/// Appends the two big-endian bytes of `x` to `out`.
pub fn push_u16(out: &mut Vec<u8>, x: u16)
    ensures
        final(out)@ == old(out)@ + seq![spec_u16_hi(x), spec_u16_lo(x)],
{
    out.push((x >> 8) as u8);
    out.push((x & 0xff) as u8);
    assert(out@ =~= old(out)@ + seq![spec_u16_hi(x), spec_u16_lo(x)]);
}

} // verus!
