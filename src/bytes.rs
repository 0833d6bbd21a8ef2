//! Little-endian integers in byte sequences.
use vstd::prelude::*;

verus! {

/// The two bytes of `v`, least significant first.
pub open spec fn le_u16_bytes(v: u16) -> Seq<u8> {
    seq![(v & 0xff) as u8, ((v >> 8) & 0xff) as u8]
}

/// The four bytes of `v`, least significant first.
pub open spec fn le_u32_bytes(v: u32) -> Seq<u8> {
    seq![(v & 0xff) as u8, ((v >> 8) & 0xff) as u8, ((v >> 16) & 0xff) as u8, ((v >> 24) & 0xff) as u8]
}

/// The four bytes of `v` in two's complement, least significant first.
pub open spec fn le_i32_bytes(v: i32) -> Seq<u8> {
    le_u32_bytes(v as u32)
}

/// The `u16` stored least significant byte first at `pos` in `b`.
pub open spec fn le_u16_at(b: Seq<u8>, pos: int) -> u16 {
    ((b[pos] as u16) | ((b[pos + 1] as u16) << 8)) as u16
}

/// The `u32` stored least significant byte first at `pos` in `b`.
pub open spec fn le_u32_at(b: Seq<u8>, pos: int) -> u32 {
    ((b[pos] as u32) | ((b[pos + 1] as u32) << 8) | ((b[pos + 2] as u32) << 16) | ((b[pos + 3]
        as u32) << 24)) as u32
}

/// The `i32` stored in two's complement, least significant byte first, at `pos` in `b`.
pub open spec fn le_i32_at(b: Seq<u8>, pos: int) -> i32 {
    le_u32_at(b, pos) as i32
}

/// Reading back the bytes written for a `u16` gives the same value.
pub proof fn lemma_le_u16_round_trip(v: u16)
    ensures
        le_u16_at(le_u16_bytes(v), 0) == v,
{
    let b = le_u16_bytes(v);
    assert((((v & 0xff) as u8) as u16 | (((((v >> 8) & 0xff) as u8) as u16) << 8)) as u16 == v)
        by (bit_vector);
}

/// Reading back the bytes written for a `u32` gives the same value.
pub proof fn lemma_le_u32_round_trip(v: u32)
    ensures
        le_u32_at(le_u32_bytes(v), 0) == v,
{
    assert((((v & 0xff) as u8) as u32 | (((((v >> 8) & 0xff) as u8) as u32) << 8) | (((((v >> 16)
        & 0xff) as u8) as u32) << 16) | (((((v >> 24) & 0xff) as u8) as u32) << 24)) as u32 == v)
        by (bit_vector);
}

/// Reading back the bytes written for an `i32` gives the same value.
pub proof fn lemma_le_i32_round_trip(v: i32)
    ensures
        le_i32_at(le_i32_bytes(v), 0) == v,
{
    lemma_le_u32_round_trip(v as u32);
    assert(((v as u32) as i32) == v) by (bit_vector);
}

/// Appends the little-endian bytes of `v`.
pub fn write_le_u16(out: &mut Vec<u8>, v: u16)
    ensures
        final(out)@ == old(out)@ + le_u16_bytes(v),
{
    out.push((v & 0xff) as u8);
    out.push(((v >> 8) & 0xff) as u8);
    assert(final(out)@ =~= old(out)@ + le_u16_bytes(v));
}

/// Appends the little-endian bytes of `v`.
pub fn write_le_u32(out: &mut Vec<u8>, v: u32)
    ensures
        final(out)@ == old(out)@ + le_u32_bytes(v),
{
    out.push((v & 0xff) as u8);
    out.push(((v >> 8) & 0xff) as u8);
    out.push(((v >> 16) & 0xff) as u8);
    out.push(((v >> 24) & 0xff) as u8);
    assert(final(out)@ =~= old(out)@ + le_u32_bytes(v));
}

/// Appends the little-endian two's complement bytes of `v`.
pub fn write_le_i32(out: &mut Vec<u8>, v: i32)
    ensures
        final(out)@ == old(out)@ + le_i32_bytes(v),
{
    write_le_u32(out, v as u32);
}

/// Reads the little-endian `u16` at `pos`.
pub fn read_le_u16(b: &[u8], pos: usize) -> (r: u16)
    requires
        pos + 2 <= b@.len(),
    ensures
        r == le_u16_at(b@, pos as int),
{
    ((b[pos] as u16) | ((b[pos + 1] as u16) << 8)) as u16
}

/// Reads the little-endian `u32` at `pos`.
pub fn read_le_u32(b: &[u8], pos: usize) -> (r: u32)
    requires
        pos + 4 <= b@.len(),
    ensures
        r == le_u32_at(b@, pos as int),
{
    ((b[pos] as u32) | ((b[pos + 1] as u32) << 8) | ((b[pos + 2] as u32) << 16) | ((b[pos + 3]
        as u32) << 24)) as u32
}

/// Reads the little-endian two's complement `i32` at `pos`.
pub fn read_le_i32(b: &[u8], pos: usize) -> (r: i32)
    requires
        pos + 4 <= b@.len(),
    ensures
        r == le_i32_at(b@, pos as int),
{
    read_le_u32(b, pos) as i32
}

} // verus!
