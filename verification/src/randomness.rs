use vstd::prelude::*;

verus! {

/// The little-endian unsigned value of the first eight bytes of `s`:
/// byte 0 is the least significant.
pub open spec fn le_bytes_value(s: Seq<u8>) -> int
    recommends
        s.len() >= 8,
{
    s[0] + 0x100 * s[1] + 0x1_0000 * s[2] + 0x100_0000 * s[3] + 0x1_0000_0000 * s[4]
        + 0x100_0000_0000 * s[5] + 0x1_0000_0000_0000 * s[6] + 0x100_0000_0000_0000 * s[7]
}

/// Interprets the first eight bytes of a fulfilled randomness value as a
/// little-endian unsigned integer.
pub fn u64_from_le_prefix(bytes: &Vec<u8>) -> (r: u64)
    requires
        bytes@.len() >= 8,
    ensures
        r as int == le_bytes_value(bytes@),
{
    (bytes[0] as u64) + 0x100 * (bytes[1] as u64) + 0x1_0000 * (bytes[2] as u64)
        + 0x100_0000 * (bytes[3] as u64) + 0x1_0000_0000 * (bytes[4] as u64)
        + 0x100_0000_0000 * (bytes[5] as u64) + 0x1_0000_0000_0000 * (bytes[6] as u64)
        + 0x100_0000_0000_0000 * (bytes[7] as u64)
}

} // verus!
