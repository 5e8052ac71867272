//! Fixed-width little-endian field reads over an in-memory byte buffer.

use vstd::prelude::*;

verus! {

/// The little-endian 16-bit value stored in the two bytes at `p`.
pub open spec fn le16(d: Seq<u8>, p: int) -> int {
    d[p] as int + 256 * (d[p + 1] as int)
}

/// The little-endian 32-bit value stored in the four bytes at `p`.
pub open spec fn le32(d: Seq<u8>, p: int) -> int {
    le16(d, p) + 65536 * le16(d, p + 2)
}

/// Whether `n` bytes starting at `p` lie inside `d`.
pub open spec fn fits(d: Seq<u8>, p: int, n: int) -> bool {
    0 <= p && p + n <= d.len()
}

/// Checks that `n` bytes starting at `p` lie inside `d`, without overflow.
pub fn has_bytes(d: &[u8], p: usize, n: usize) -> (r: bool)
    ensures
        r == fits(d@, p as int, n as int),
        d@.len() <= usize::MAX,
{
    p <= d.len() && n <= d.len() - p
}

/// Reads the little-endian `u16` at `p`.
pub fn u16_le_at(d: &[u8], p: usize) -> (r: u16)
    requires
        fits(d@, p as int, 2),
    ensures
        r as int == le16(d@, p as int),
{
    d[p] as u16 + 256 * (d[p + 1] as u16)
}

/// Reads the little-endian `u32` at `p`.
pub fn u32_le_at(d: &[u8], p: usize) -> (r: u32)
    requires
        fits(d@, p as int, 4),
    ensures
        r as int == le32(d@, p as int),
{
    let lo = u16_le_at(d, p);
    assert(p + 2 < d.len());
    let hi = u16_le_at(d, p + 2);
    lo as u32 + 65536 * (hi as u32)
}

} // verus!
