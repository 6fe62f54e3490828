//! Bounds-checked, endianness-aware reads over an immutable byte buffer.
//!
//! Every read takes an absolute offset and fails with
//! [`PcfError::OutOfBounds`] when the requested span runs past the end of
//! the buffer; no cursor state is shared between callers.
use vstd::prelude::*;

use crate::error::PcfError;

verus! {

/// The unsigned value of the four bytes at `i`, least-significant byte
/// first.
pub open spec fn le32_at(s: Seq<u8>, i: int) -> int {
    s[i] + 0x100 * s[i + 1] + 0x1_0000 * s[i + 2] + 0x100_0000 * s[i + 3]
}

/// The unsigned value of the four bytes at `i`, most-significant byte
/// first.
pub open spec fn be32_at(s: Seq<u8>, i: int) -> int {
    s[i + 3] + 0x100 * s[i + 2] + 0x1_0000 * s[i + 1] + 0x100_0000 * s[i]
}

/// The unsigned value of the two bytes at `i`, most-significant byte
/// first.
pub open spec fn be16_at(s: Seq<u8>, i: int) -> int {
    s[i + 1] + 0x100 * s[i]
}

/// Reinterprets an unsigned 32-bit value as two's-complement.
pub open spec fn signed32(n: int) -> int {
    if n >= 0x8000_0000 {
        n - 0x1_0000_0000
    } else {
        n
    }
}

/// Reinterprets an unsigned 16-bit value as two's-complement.
pub open spec fn signed16(n: int) -> int {
    if n >= 0x8000 {
        n - 0x1_0000
    } else {
        n
    }
}

/// The byte at absolute offset `off`.
pub fn read_u8_at(b: &[u8], off: u64) -> (r: Result<u8, PcfError>)
    ensures
        off + 1 <= b@.len() ==> r == Ok::<u8, PcfError>(b@[off as int]),
        off + 1 > b@.len() ==> r == Err::<u8, PcfError>(PcfError::OutOfBounds),
{
    let n: u64 = b.len() as u64;
    if off < n {
        Ok(b[off as usize])
    } else {
        Err(PcfError::OutOfBounds)
    }
}

/// The unsigned little-endian 32-bit value at `off`.
pub fn read_u32_le(b: &[u8], off: u64) -> (r: Result<u32, PcfError>)
    ensures
        off + 4 <= b@.len() ==> r == Ok::<u32, PcfError>(le32_at(b@, off as int) as u32),
        off + 4 > b@.len() ==> r == Err::<u32, PcfError>(PcfError::OutOfBounds),
{
    let n: u64 = b.len() as u64;
    if 4 <= n && off <= n - 4 {
        let b0: u32 = b[off as usize] as u32;
        let b1: u32 = b[(off + 1) as usize] as u32;
        let b2: u32 = b[(off + 2) as usize] as u32;
        let b3: u32 = b[(off + 3) as usize] as u32;
        Ok(b0 + 0x100 * b1 + 0x1_0000 * b2 + 0x100_0000 * b3)
    } else {
        Err(PcfError::OutOfBounds)
    }
}

/// The signed little-endian 32-bit value at `off`.
pub fn read_i32_le(b: &[u8], off: u64) -> (r: Result<i32, PcfError>)
    ensures
        off + 4 <= b@.len() ==> r == Ok::<i32, PcfError>(
            signed32(le32_at(b@, off as int)) as i32,
        ),
        off + 4 > b@.len() ==> r == Err::<i32, PcfError>(PcfError::OutOfBounds),
{
    match read_u32_le(b, off) {
        Ok(u) => {
            if u >= 0x8000_0000u32 {
                Ok(((u as i64) - 0x1_0000_0000i64) as i32)
            } else {
                Ok(u as i32)
            }
        },
        Err(e) => Err(e),
    }
}

/// The unsigned big-endian 32-bit value at `off`.
pub fn read_u32_be(b: &[u8], off: u64) -> (r: Result<u32, PcfError>)
    ensures
        off + 4 <= b@.len() ==> r == Ok::<u32, PcfError>(be32_at(b@, off as int) as u32),
        off + 4 > b@.len() ==> r == Err::<u32, PcfError>(PcfError::OutOfBounds),
{
    let n: u64 = b.len() as u64;
    if 4 <= n && off <= n - 4 {
        let b0: u32 = b[off as usize] as u32;
        let b1: u32 = b[(off + 1) as usize] as u32;
        let b2: u32 = b[(off + 2) as usize] as u32;
        let b3: u32 = b[(off + 3) as usize] as u32;
        Ok(b3 + 0x100 * b2 + 0x1_0000 * b1 + 0x100_0000 * b0)
    } else {
        Err(PcfError::OutOfBounds)
    }
}

/// The signed big-endian 32-bit value at `off`.
pub fn read_i32_be(b: &[u8], off: u64) -> (r: Result<i32, PcfError>)
    ensures
        off + 4 <= b@.len() ==> r == Ok::<i32, PcfError>(
            signed32(be32_at(b@, off as int)) as i32,
        ),
        off + 4 > b@.len() ==> r == Err::<i32, PcfError>(PcfError::OutOfBounds),
{
    match read_u32_be(b, off) {
        Ok(u) => {
            if u >= 0x8000_0000u32 {
                Ok(((u as i64) - 0x1_0000_0000i64) as i32)
            } else {
                Ok(u as i32)
            }
        },
        Err(e) => Err(e),
    }
}

/// The unsigned big-endian 16-bit value at `off`.
pub fn read_u16_be(b: &[u8], off: u64) -> (r: Result<u16, PcfError>)
    ensures
        off + 2 <= b@.len() ==> r == Ok::<u16, PcfError>(be16_at(b@, off as int) as u16),
        off + 2 > b@.len() ==> r == Err::<u16, PcfError>(PcfError::OutOfBounds),
{
    let n: u64 = b.len() as u64;
    if 2 <= n && off <= n - 2 {
        let b0: u16 = b[off as usize] as u16;
        let b1: u16 = b[(off + 1) as usize] as u16;
        Ok(b1 + 0x100 * b0)
    } else {
        Err(PcfError::OutOfBounds)
    }
}

/// The signed big-endian 16-bit value at `off`.
pub fn read_i16_be(b: &[u8], off: u64) -> (r: Result<i16, PcfError>)
    ensures
        off + 2 <= b@.len() ==> r == Ok::<i16, PcfError>(
            signed16(be16_at(b@, off as int)) as i16,
        ),
        off + 2 > b@.len() ==> r == Err::<i16, PcfError>(PcfError::OutOfBounds),
{
    match read_u16_be(b, off) {
        Ok(u) => {
            if u >= 0x8000u16 {
                Ok(((u as i32) - 0x1_0000i32) as i16)
            } else {
                Ok(u as i16)
            }
        },
        Err(e) => Err(e),
    }
}

} // verus!
