//! Little-endian integer encoding of BMP fields, through `byteorder`.
use byteorder::{ByteOrder, LittleEndian};
use vstd::prelude::*;

verus! {

/// The `u16` whose little-endian bytes are `b0, b1`.
pub open spec fn spec_u16_from(b0: u8, b1: u8) -> u16 {
    ((b1 as u16) << 8u16) | (b0 as u16)
}

/// The `u32` whose little-endian bytes are `b0, b1, b2, b3`.
pub open spec fn spec_u32_from(b0: u8, b1: u8, b2: u8, b3: u8) -> u32 {
    ((b3 as u32) << 24u32) | ((b2 as u32) << 16u32) | ((b1 as u32) << 8u32) | (b0 as u32)
}

/// The `u16` stored little-endian at `p` in `s`.
pub open spec fn spec_u16_at(s: Seq<u8>, p: int) -> u16 {
    spec_u16_from(s[p], s[p + 1])
}

/// The `u32` stored little-endian at `p` in `s`.
pub open spec fn spec_u32_at(s: Seq<u8>, p: int) -> u32 {
    spec_u32_from(s[p], s[p + 1], s[p + 2], s[p + 3])
}

/// The `i32` stored little-endian (two's complement) at `p` in `s`.
pub open spec fn spec_i32_at(s: Seq<u8>, p: int) -> i32 {
    spec_u32_at(s, p) as i32
}

/// The little-endian bytes of a `u16`.
pub open spec fn spec_u16_le(n: u16) -> Seq<u8> {
    seq![(n & 0xff) as u8, (n >> 8u16) as u8]
}

/// The little-endian bytes of a `u32`.
pub open spec fn spec_u32_le(n: u32) -> Seq<u8> {
    seq![(n & 0xff) as u8, ((n >> 8u32) & 0xff) as u8, ((n >> 16u32) & 0xff) as u8, (n >> 24u32) as u8]
}

/// The little-endian two's complement bytes of an `i32`.
pub open spec fn spec_i32_le(n: i32) -> Seq<u8> {
    spec_u32_le(n as u32)
}

/// Calls `LittleEndian::read_u16` on the two bytes at `pos`; byteorder
/// assembles them as `buf[pos] + 256 * buf[pos + 1]`.
#[verifier::external_body]
pub(crate) fn read_u16_le(buf: &[u8], pos: usize) -> (r: u16)
    requires
        pos + 2 <= buf@.len(),
    ensures
        r == spec_u16_at(buf@, pos as int),
{
    LittleEndian::read_u16(&buf[pos..])
}

/// Calls `LittleEndian::read_u32` on the four bytes at `pos`; byteorder
/// assembles them least significant byte first.
#[verifier::external_body]
pub(crate) fn read_u32_le(buf: &[u8], pos: usize) -> (r: u32)
    requires
        pos + 4 <= buf@.len(),
    ensures
        r == spec_u32_at(buf@, pos as int),
{
    LittleEndian::read_u32(&buf[pos..])
}

/// Calls `LittleEndian::read_i32` on the four bytes at `pos`; byteorder reads
/// the `u32` least significant byte first and reinterprets it as `i32`.
#[verifier::external_body]
pub(crate) fn read_i32_le(buf: &[u8], pos: usize) -> (r: i32)
    requires
        pos + 4 <= buf@.len(),
    ensures
        r == spec_i32_at(buf@, pos as int),
{
    LittleEndian::read_i32(&buf[pos..])
}

/// Calls `LittleEndian::write_u16` into a two-byte buffer; byteorder stores
/// the low byte first.
#[verifier::external_body]
pub(crate) fn u16_to_le(n: u16) -> (r: [u8; 2])
    ensures
        r@ == spec_u16_le(n),
{
    let mut buf = [0u8; 2];
    LittleEndian::write_u16(&mut buf, n);
    buf
}

/// Calls `LittleEndian::write_u32` into a four-byte buffer; byteorder stores
/// the least significant byte first.
#[verifier::external_body]
pub(crate) fn u32_to_le(n: u32) -> (r: [u8; 4])
    ensures
        r@ == spec_u32_le(n),
{
    let mut buf = [0u8; 4];
    LittleEndian::write_u32(&mut buf, n);
    buf
}

/// Calls `LittleEndian::write_i32` into a four-byte buffer; byteorder stores
/// the two's complement `u32` least significant byte first.
#[verifier::external_body]
pub(crate) fn i32_to_le(n: i32) -> (r: [u8; 4])
    ensures
        r@ == spec_i32_le(n),
{
    let mut buf = [0u8; 4];
    LittleEndian::write_i32(&mut buf, n);
    buf
}

/// Reading back the little-endian bytes of a `u16` gives the `u16`.
pub proof fn lemma_u16_roundtrip(n: u16)
    ensures
        spec_u16_at(spec_u16_le(n), 0) == n,
{
    let b0 = (n & 0xff) as u8;
    let b1 = (n >> 8u16) as u8;
    assert(spec_u16_from(b0, b1) == n) by (bit_vector)
        requires
            b0 == (n & 0xff) as u8,
            b1 == (n >> 8u16) as u8,
    ;
}

/// Reading back the little-endian bytes of a `u32` gives the `u32`.
pub proof fn lemma_u32_roundtrip(n: u32)
    ensures
        spec_u32_at(spec_u32_le(n), 0) == n,
{
    let b0 = (n & 0xff) as u8;
    let b1 = ((n >> 8u32) & 0xff) as u8;
    let b2 = ((n >> 16u32) & 0xff) as u8;
    let b3 = (n >> 24u32) as u8;
    assert(spec_u32_from(b0, b1, b2, b3) == n) by (bit_vector)
        requires
            b0 == (n & 0xff) as u8,
            b1 == ((n >> 8u32) & 0xff) as u8,
            b2 == ((n >> 16u32) & 0xff) as u8,
            b3 == (n >> 24u32) as u8,
    ;
}

/// Reading back the little-endian bytes of an `i32` gives the `i32`.
pub proof fn lemma_i32_roundtrip(n: i32)
    ensures
        spec_i32_at(spec_i32_le(n), 0) == n,
{
    lemma_u32_roundtrip(n as u32);
    assert((n as u32) as i32 == n) by (bit_vector);
}

} // verus!
