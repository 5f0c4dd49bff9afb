//! Byte cursor: forward-only, bounds-checked reads over an in-memory buffer.
//!
//! Every decoder above this module consumes bytes only through these
//! functions. Each read either consumes exactly the requested number of
//! bytes, advancing the position, or reports [`ParsingError::Truncated`]
//! and leaves the position unchanged. Multi-byte fields are combined in
//! little-endian order, the byte order of the producers this format is
//! read from.

use vstd::bytes::spec_u16_from_le_bytes;
use vstd::bytes::spec_u32_from_le_bytes;
use vstd::bytes::spec_u64_from_le_bytes;
use vstd::bytes::u16_from_le_bytes;
use vstd::bytes::u32_from_le_bytes;
use vstd::bytes::u64_from_le_bytes;
use vstd::prelude::*;
use vstd::slice::slice_subrange;

use crate::stackmap::ParsingError;

verus! {

/// The `u16` stored little-endian at byte offset `i` of `s`.
pub open spec fn le16_at(s: Seq<u8>, i: int) -> u16
    recommends
        0 <= i,
        i + 2 <= s.len(),
{
    spec_u16_from_le_bytes(s.subrange(i, i + 2))
}

/// The `u32` stored little-endian at byte offset `i` of `s`.
pub open spec fn le32_at(s: Seq<u8>, i: int) -> u32
    recommends
        0 <= i,
        i + 4 <= s.len(),
{
    spec_u32_from_le_bytes(s.subrange(i, i + 4))
}

/// The `u64` stored little-endian at byte offset `i` of `s`.
pub open spec fn le64_at(s: Seq<u8>, i: int) -> u64
    recommends
        0 <= i,
        i + 8 <= s.len(),
{
    spec_u64_from_le_bytes(s.subrange(i, i + 8))
}

/// Read one byte at `*pos`, advancing on success.
pub fn read_u8(data: &[u8], pos: &mut usize) -> (r: Result<u8, ParsingError>)
    requires
        *old(pos) <= data@.len(),
    ensures
        *old(pos) + 1 <= data@.len() ==> r == Ok::<u8, ParsingError>(data@[*old(pos) as int])
            && *final(pos) == *old(pos) + 1,
        *old(pos) + 1 > data@.len() ==> r == Err::<u8, ParsingError>(ParsingError::Truncated)
            && *final(pos) == *old(pos),
{
    if *pos < data.len() {
        let b: u8 = data[*pos];
        *pos = *pos + 1;
        Ok(b)
    } else {
        Err(ParsingError::Truncated)
    }
}

/// Read a little-endian `u16` at `*pos`, advancing on success.
pub fn read_u16(data: &[u8], pos: &mut usize) -> (r: Result<u16, ParsingError>)
    requires
        *old(pos) <= data@.len(),
    ensures
        *old(pos) + 2 <= data@.len() ==> r == Ok::<u16, ParsingError>(
            le16_at(data@, *old(pos) as int),
        ) && *final(pos) == *old(pos) + 2,
        *old(pos) + 2 > data@.len() ==> r == Err::<u16, ParsingError>(ParsingError::Truncated)
            && *final(pos) == *old(pos),
{
    if data.len() - *pos >= 2 {
        let field = slice_subrange(data, *pos, *pos + 2);
        let v = u16_from_le_bytes(field);
        *pos = *pos + 2;
        Ok(v)
    } else {
        Err(ParsingError::Truncated)
    }
}

/// Read a little-endian `u32` at `*pos`, advancing on success.
pub fn read_u32(data: &[u8], pos: &mut usize) -> (r: Result<u32, ParsingError>)
    requires
        *old(pos) <= data@.len(),
    ensures
        *old(pos) + 4 <= data@.len() ==> r == Ok::<u32, ParsingError>(
            le32_at(data@, *old(pos) as int),
        ) && *final(pos) == *old(pos) + 4,
        *old(pos) + 4 > data@.len() ==> r == Err::<u32, ParsingError>(ParsingError::Truncated)
            && *final(pos) == *old(pos),
{
    if data.len() - *pos >= 4 {
        let field = slice_subrange(data, *pos, *pos + 4);
        let v = u32_from_le_bytes(field);
        *pos = *pos + 4;
        Ok(v)
    } else {
        Err(ParsingError::Truncated)
    }
}

/// Read a little-endian `u64` at `*pos`, advancing on success.
pub fn read_u64(data: &[u8], pos: &mut usize) -> (r: Result<u64, ParsingError>)
    requires
        *old(pos) <= data@.len(),
    ensures
        *old(pos) + 8 <= data@.len() ==> r == Ok::<u64, ParsingError>(
            le64_at(data@, *old(pos) as int),
        ) && *final(pos) == *old(pos) + 8,
        *old(pos) + 8 > data@.len() ==> r == Err::<u64, ParsingError>(ParsingError::Truncated)
            && *final(pos) == *old(pos),
{
    if data.len() - *pos >= 8 {
        let field = slice_subrange(data, *pos, *pos + 8);
        let v = u64_from_le_bytes(field);
        *pos = *pos + 8;
        Ok(v)
    } else {
        Err(ParsingError::Truncated)
    }
}

/// The signed value whose two's-complement bit pattern is `x`.
pub open spec fn spec_i32_from_bits(x: u32) -> i32 {
    if x < 0x8000_0000 {
        x as i32
    } else {
        (x - 0x1_0000_0000) as i32
    }
}

/// The bit pattern of `v` as an unsigned value.
pub open spec fn spec_i32_to_bits(v: i32) -> u32 {
    if v >= 0 {
        v as u32
    } else {
        (v + 0x1_0000_0000) as u32
    }
}

/// The bit pattern of `v` as an unsigned value.
pub open spec fn spec_i64_to_bits(v: i64) -> u64 {
    if v >= 0 {
        v as u64
    } else {
        (v + 0x1_0000_0000_0000_0000) as u64
    }
}

/// Reinterpret a `u32` as the `i32` with the same two's-complement bits.
pub fn i32_from_bits(x: u32) -> (r: i32)
    ensures
        r == spec_i32_from_bits(x),
{
    if x < 0x8000_0000 {
        x as i32
    } else {
        let y: u32 = x - 0x8000_0000;
        (y as i32) + (-0x7fff_ffff - 1)
    }
}

/// Reinterpret an `i32` as the `u32` with the same two's-complement bits.
pub fn i32_to_bits(v: i32) -> (r: u32)
    ensures
        r == spec_i32_to_bits(v),
{
    if v >= 0 {
        v as u32
    } else {
        let y: i32 = v - (-0x7fff_ffff - 1);
        (y as u32) + 0x8000_0000
    }
}

/// Reinterpret an `i64` as the `u64` with the same two's-complement bits.
pub fn i64_to_bits(v: i64) -> (r: u64)
    ensures
        r == spec_i64_to_bits(v),
{
    if v >= 0 {
        v as u64
    } else {
        let y: i64 = v - (-0x7fff_ffff_ffff_ffff - 1);
        (y as u64) + 0x8000_0000_0000_0000
    }
}

/// Bit-reinterpretation of `i32` round-trips.
pub proof fn lemma_i32_bits_roundtrip(v: i32)
    ensures
        spec_i32_from_bits(spec_i32_to_bits(v)) == v,
{
}

/// Reading a field of a suffix reads the field of the whole buffer.
pub proof fn lemma_le16_at_skip(s: Seq<u8>, p: int, i: int)
    requires
        0 <= p,
        0 <= i,
        p + i + 2 <= s.len(),
    ensures
        le16_at(s.skip(p), i) == le16_at(s, p + i),
{
    assert(s.skip(p).subrange(i, i + 2) =~= s.subrange(p + i, p + i + 2));
}

/// Reading a field of a suffix reads the field of the whole buffer.
pub proof fn lemma_le32_at_skip(s: Seq<u8>, p: int, i: int)
    requires
        0 <= p,
        0 <= i,
        p + i + 4 <= s.len(),
    ensures
        le32_at(s.skip(p), i) == le32_at(s, p + i),
{
    assert(s.skip(p).subrange(i, i + 4) =~= s.subrange(p + i, p + i + 4));
}

/// Reading a field of a suffix reads the field of the whole buffer.
pub proof fn lemma_le64_at_skip(s: Seq<u8>, p: int, i: int)
    requires
        0 <= p,
        0 <= i,
        p + i + 8 <= s.len(),
    ensures
        le64_at(s.skip(p), i) == le64_at(s, p + i),
{
    assert(s.skip(p).subrange(i, i + 8) =~= s.subrange(p + i, p + i + 8));
}

/// Dropping a prefix twice drops it once, further along.
pub proof fn lemma_skip_skip(s: Seq<u8>, a: int, b: int)
    requires
        0 <= a,
        0 <= b,
        a + b <= s.len(),
    ensures
        s.skip(a).skip(b) =~= s.skip(a + b),
{
}

/// Dropping a prefix of a truncation truncates the dropped suffix.
pub proof fn lemma_skip_of_take(s: Seq<u8>, t: int, k: int)
    requires
        0 <= k <= t <= s.len(),
    ensures
        s.take(t).skip(k) =~= s.skip(k).take(t - k),
{
}

/// A field that lies inside a truncation reads the same there.
pub proof fn lemma_le16_at_take(s: Seq<u8>, t: int, i: int)
    requires
        0 <= i,
        i + 2 <= t <= s.len(),
    ensures
        le16_at(s.take(t), i) == le16_at(s, i),
{
    assert(s.take(t).subrange(i, i + 2) =~= s.subrange(i, i + 2));
}

/// A field that lies inside a truncation reads the same there.
pub proof fn lemma_le32_at_take(s: Seq<u8>, t: int, i: int)
    requires
        0 <= i,
        i + 4 <= t <= s.len(),
    ensures
        le32_at(s.take(t), i) == le32_at(s, i),
{
    assert(s.take(t).subrange(i, i + 4) =~= s.subrange(i, i + 4));
}

/// A field that lies inside a truncation reads the same there.
pub proof fn lemma_le64_at_take(s: Seq<u8>, t: int, i: int)
    requires
        0 <= i,
        i + 8 <= t <= s.len(),
    ensures
        le64_at(s.take(t), i) == le64_at(s, i),
{
    assert(s.take(t).subrange(i, i + 8) =~= s.subrange(i, i + 8));
}

} // verus!
