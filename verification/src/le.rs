//! Little-endian integer reads over byte slices.

use vstd::prelude::*;
use byteorder::ByteOrder;

verus! {

/// Value of the two bytes `b0`, `b1` read as an unsigned little-endian integer.
pub open spec fn u16_le(s: Seq<u8>, at: int) -> int {
    s[at] as int + 256 * s[at + 1] as int
}

/// Value of the four bytes at `at` read as an unsigned little-endian integer.
pub open spec fn u32_le(s: Seq<u8>, at: int) -> int {
    s[at] as int + 256 * s[at + 1] as int + 65536 * s[at + 2] as int + 16777216 * s[at + 3] as int
}

/// Value of the two bytes at `at` read as a little-endian two's-complement `i16`.
pub open spec fn i16_le(s: Seq<u8>, at: int) -> i16 {
    (u16_le(s, at) as u16) as i16
}

/// `byteorder::LittleEndian::read_u16`: reads the first two bytes of `buf`
/// as a little-endian `u16`; it panics on a shorter buffer, hence the `requires`.
#[verifier::external_body]
pub(crate) fn le_read_u16(buf: &[u8]) -> (r: u16)
    requires
        buf@.len() >= 2,
    ensures
        r as int == u16_le(buf@, 0),
{
    byteorder::LittleEndian::read_u16(buf)
}

/// `byteorder::LittleEndian::read_u32`: reads the first four bytes of `buf`
/// as a little-endian `u32`; it panics on a shorter buffer, hence the `requires`.
#[verifier::external_body]
pub(crate) fn le_read_u32(buf: &[u8]) -> (r: u32)
    requires
        buf@.len() >= 4,
    ensures
        r as int == u32_le(buf@, 0),
{
    byteorder::LittleEndian::read_u32(buf)
}

/// Reads a little-endian `u16` at byte offset `at`.
pub fn read_u16_at(buf: &[u8], at: usize) -> (r: u16)
    requires
        at + 2 <= buf@.len(),
    ensures
        r as int == u16_le(buf@, at as int),
{
    let n = buf.len();
    let s = &buf[at..at + 2];
    le_read_u16(s)
}

/// Reads a little-endian `u32` at byte offset `at`.
pub fn read_u32_at(buf: &[u8], at: usize) -> (r: u32)
    requires
        at + 4 <= buf@.len(),
    ensures
        r as int == u32_le(buf@, at as int),
{
    let n = buf.len();
    let s = &buf[at..at + 4];
    le_read_u32(s)
}

/// Reads a little-endian `i16` (two's complement) at byte offset `at`.
pub fn read_i16_at(buf: &[u8], at: usize) -> (r: i16)
    requires
        at + 2 <= buf@.len(),
    ensures
        r == i16_le(buf@, at as int),
{
    let v = read_u16_at(buf, at);
    v as i16
}

/// Copies the eight bytes at offset `at` into an array.
pub fn read_bytes8_at(b: &[u8], at: usize) -> (r: [u8; 8])
    requires
        at + 8 <= b@.len(),
    ensures
        r@ == b@.subrange(at as int, at as int + 8),
{
    let n = b.len();
    let r: [u8; 8] = [b[at], b[at + 1], b[at + 2], b[at + 3], b[at + 4], b[at + 5], b[at + 6], b[at + 7]];
    assert(r@ =~= b@.subrange(at as int, at as int + 8));
    r
}

} // verus!
