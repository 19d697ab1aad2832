//! Big-endian 16-bit and 32-bit integers as byte pairs and quadruples.

use vstd::prelude::*;

verus! {

/// The big-endian value of two bytes.
pub open spec fn be16(hi: u8, lo: u8) -> u16 {
    (hi as u16 * 256 + lo as u16) as u16
}

/// The high byte of a 16-bit value.
pub open spec fn be16_hi(x: u16) -> u8 {
    (x / 256) as u8
}

/// The low byte of a 16-bit value.
pub open spec fn be16_lo(x: u16) -> u8 {
    (x % 256) as u8
}

/// The big-endian value of four bytes.
pub open spec fn be32(b0: u8, b1: u8, b2: u8, b3: u8) -> u32 {
    (b0 as u32 * 0x1000000 + b1 as u32 * 0x10000 + b2 as u32 * 256 + b3 as u32) as u32
}

/// Splitting a 16-bit value into its two big-endian bytes and reading them
/// back yields the value again.
pub proof fn lemma_be16_round_trip(x: u16)
    ensures
        be16(be16_hi(x), be16_lo(x)) == x,
{
}

/// Reads the big-endian 16-bit value stored at `pos`.
pub fn read_be16(buf: &Vec<u8>, pos: usize) -> (r: u16)
    requires
        pos + 2 <= buf@.len(),
    ensures
        r == be16(buf@[pos as int], buf@[pos + 1]),
{
    let _n: usize = buf.len();
    buf[pos] as u16 * 256 + buf[pos + 1] as u16
}

/// Reads the big-endian 32-bit value stored at `pos`.
pub fn read_be32(buf: &Vec<u8>, pos: usize) -> (r: u32)
    requires
        pos + 4 <= buf@.len(),
    ensures
        r == be32(buf@[pos as int], buf@[pos + 1], buf@[pos + 2], buf@[pos + 3]),
{
    let _n: usize = buf.len();
    buf[pos] as u32 * 0x1000000 + buf[pos + 1] as u32 * 0x10000 + buf[pos + 2] as u32 * 256
        + buf[pos + 3] as u32
}

/// Appends the two big-endian bytes of `x` to `out`.
pub fn push_be16(out: &mut Vec<u8>, x: u16)
    ensures
        final(out)@ == old(out)@ + seq![be16_hi(x), be16_lo(x)],
{
    out.push((x / 256) as u8);
    out.push((x % 256) as u8);
    assert(out@ =~= old(out)@ + seq![be16_hi(x), be16_lo(x)]);
}

} // verus!
