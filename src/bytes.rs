//! Little-endian fields of a byte buffer.
use byteorder::{ByteOrder, LittleEndian};
use vstd::prelude::*;

verus! {

/// The unsigned 16-bit value stored little-endian at `pos`.
pub open spec fn le_u16(b: Seq<u8>, pos: int) -> int {
    b[pos] + 256 * b[pos + 1]
}

/// The unsigned 32-bit value stored little-endian at `pos`.
pub open spec fn le_u32(b: Seq<u8>, pos: int) -> int {
    b[pos] + 256 * b[pos + 1] + 65536 * b[pos + 2] + 16777216 * b[pos + 3]
}

/// The signed (two's complement) 16-bit value stored little-endian at `pos`.
pub open spec fn le_i16(b: Seq<u8>, pos: int) -> int {
    if le_u16(b, pos) < 0x8000 {
        le_u16(b, pos)
    } else {
        le_u16(b, pos) - 0x1_0000
    }
}

/// The signed (two's complement) 32-bit value stored little-endian at `pos`.
pub open spec fn le_i32(b: Seq<u8>, pos: int) -> int {
    if le_u32(b, pos) < 0x8000_0000 {
        le_u32(b, pos)
    } else {
        le_u32(b, pos) - 0x1_0000_0000
    }
}

/// Relies on byteorder's `LittleEndian::read_u16`: the first two bytes, least
/// significant first.
#[verifier::external_body]
pub(crate) fn read_u16_at(b: &[u8], pos: usize) -> (r: u16)
    requires
        pos + 2 <= b@.len(),
    ensures
        r == le_u16(b@, pos as int),
{
    LittleEndian::read_u16(&b[pos..pos + 2])
}

/// Relies on byteorder's `LittleEndian::read_i16`: the first two bytes, least
/// significant first, as a two's complement value.
#[verifier::external_body]
pub(crate) fn read_i16_at(b: &[u8], pos: usize) -> (r: i16)
    requires
        pos + 2 <= b@.len(),
    ensures
        r == le_i16(b@, pos as int),
{
    LittleEndian::read_i16(&b[pos..pos + 2])
}

/// Relies on byteorder's `LittleEndian::read_u32`: the first four bytes, least
/// significant first.
#[verifier::external_body]
pub(crate) fn read_u32_at(b: &[u8], pos: usize) -> (r: u32)
    requires
        pos + 4 <= b@.len(),
    ensures
        r == le_u32(b@, pos as int),
{
    LittleEndian::read_u32(&b[pos..pos + 4])
}

/// Relies on byteorder's `LittleEndian::read_i32`: the first four bytes, least
/// significant first, as a two's complement value.
#[verifier::external_body]
pub(crate) fn read_i32_at(b: &[u8], pos: usize) -> (r: i32)
    requires
        pos + 4 <= b@.len(),
    ensures
        r == le_i32(b@, pos as int),
{
    LittleEndian::read_i32(&b[pos..pos + 4])
}

/// How many records a signed count declares: none when it is not positive.
pub open spec fn count_of(n: i32) -> nat {
    if n > 0 {
        n as nat
    } else {
        0
    }
}

/// Whether `count` records of `stride` bytes each, starting at `off`, lie within a
/// buffer of `len` bytes. No records fit anywhere.
pub open spec fn fits(len: nat, off: int, count: nat, stride: nat) -> bool {
    count == 0 || (0 <= off && off + count * stride <= len)
}

/// The number of records that `n` declares, as a `usize`.
pub(crate) fn count(n: i32) -> (r: usize)
    ensures
        r == count_of(n),
{
    if n > 0 {
        n as usize
    } else {
        0
    }
}

/// Where a section of `count_of(n)` records of `stride` bytes starts, if it starts at
/// `off` and lies within `len` bytes.
pub(crate) fn section(len: usize, off: i32, n: i32, stride: usize) -> (r: Option<usize>)
    requires
        stride <= 0x40_0000_0000,
    ensures
        r is Some <==> fits(len as nat, off as int, count_of(n), stride as nat),
        r matches Some(p) ==> count_of(n) > 0 ==> p == off,
{
    if n <= 0 {
        return Some(0);
    }
    if off < 0 {
        return None;
    }
    let c = count(n) as u128;
    assert(c * (stride as u128) <= 0x8000_0000 * 0x40_0000_0000) by (nonlinear_arith)
        requires
            c <= 0x8000_0000,
            stride <= 0x40_0000_0000,
    ;
    let end = off as u128 + c * (stride as u128);
    if end <= len as u128 {
        Some(off as usize)
    } else {
        None
    }
}

/// Record `i + 1` of a section starts `stride` bytes after record `i`, and every
/// record before the last ends within the section.
pub proof fn lemma_next_record(off: int, i: int, count: int, stride: int)
    requires
        0 <= i < count,
        0 <= stride,
    ensures
        off + (i + 1) * stride == off + i * stride + stride,
        off + (i + 1) * stride <= off + count * stride,
{
    assert((i + 1) * stride == i * stride + stride) by (nonlinear_arith);
    assert((i + 1) * stride <= count * stride) by (nonlinear_arith)
        requires
            i + 1 <= count,
            0 <= stride,
    ;
}

} // verus!
