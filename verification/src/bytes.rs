//! Big-endian reads from class bytes, each checked against the bytes it reads.

use crate::error::{Error, Result, is_invalid_with};
use crate::text::{decimal, prefixed_number};
use vstd::prelude::*;

verus! {


/// The big-endian `u16` at `at`.
pub open spec fn be16(b: Seq<u8>, at: int) -> u16 {
    (b[at] as int * 256 + b[at + 1] as int) as u16
}

/// The big-endian `u32` at `at`.
pub open spec fn be32(b: Seq<u8>, at: int) -> u32 {
    (b[at] as int * 0x100_0000 + b[at + 1] as int * 0x1_0000 + b[at + 2] as int * 0x100
        + b[at + 3] as int) as u32
}

/// The big-endian `u64` at `at`.
pub open spec fn be64(b: Seq<u8>, at: int) -> u64 {
    (be32(b, at) as int * 0x1_0000_0000 + be32(b, at + 4) as int) as u64
}

/// The message of a read that ran past the end of the constant pool's bytes.
pub open spec fn eoi_message(position: nat) -> Seq<char> {
    "noak decode failed: kind=unexpected end of input, context=constant pool, position="@
        + decimal(position)
}

/// `classfile_decode` for a read that ran past the end of the bytes at `position`.
pub open spec fn is_eoi(e: Error, position: nat) -> bool {
    is_invalid_with(e, "classfile_decode"@, eoi_message(position))
}

/// `classfile_span_overflow` for an offset that does not fit the address space.
pub open spec fn is_offset_overflow(e: Error) -> bool {
    is_invalid_with(e, "classfile_span_overflow"@, "constant-pool offset overflow"@)
}

/// What a checked read of `width` bytes at `offset` fails with, when it fails.
pub open spec fn read_error(e: Error, offset: int, width: int) -> bool {
    if offset + width > usize::MAX {
        is_offset_overflow(e)
    } else {
        is_eoi(e, offset as nat)
    }
}

pub fn cp_guard_eoi(position: usize) -> (e: Error)
    ensures
        is_eoi(e, position as nat),
{
    Error::invalid_input_owned(
        "classfile_decode",
        prefixed_number(
            "noak decode failed: kind=unexpected end of input, context=constant pool, position=",
            position as u64,
        ),
    )
}

pub fn cp_guard_overflow() -> (e: Error)
    ensures
        is_offset_overflow(e),
{
    Error::invalid_input("classfile_span_overflow", "constant-pool offset overflow")
}

/// The big-endian `u16` at `offset`.
pub fn read_u16(bytes: &[u8], offset: usize) -> (r: Result<u16>)
    ensures
        offset + 2 <= bytes@.len() ==> r == Ok::<u16, Error>(be16(bytes@, offset as int)),
        offset + 2 > bytes@.len() ==> (r matches Err(e) && read_error(e, offset as int, 2)),
{
    let n = bytes.len();
    if offset > usize::MAX - 2 {
        return Err(cp_guard_overflow());
    }
    if offset + 2 > bytes.len() {
        return Err(cp_guard_eoi(offset));
    }
    Ok(((bytes[offset] as u32) * 256 + bytes[offset + 1] as u32) as u16)
}

/// The big-endian `u32` at `offset`.
pub fn read_u32(bytes: &[u8], offset: usize) -> (r: Result<u32>)
    ensures
        offset + 4 <= bytes@.len() ==> r == Ok::<u32, Error>(be32(bytes@, offset as int)),
        offset + 4 > bytes@.len() ==> (r matches Err(e) && read_error(e, offset as int, 4)),
{
    let n = bytes.len();
    if offset > usize::MAX - 4 {
        return Err(cp_guard_overflow());
    }
    if offset + 4 > bytes.len() {
        return Err(cp_guard_eoi(offset));
    }
    let v: u64 = (bytes[offset] as u64) * 0x100_0000 + (bytes[offset + 1] as u64) * 0x1_0000
        + (bytes[offset + 2] as u64) * 0x100 + bytes[offset + 3] as u64;
    Ok(v as u32)
}

/// The big-endian `u64` at `offset`.
pub fn read_u64(bytes: &[u8], offset: usize) -> (r: Result<u64>)
    ensures
        offset + 8 <= bytes@.len() ==> r == Ok::<u64, Error>(be64(bytes@, offset as int)),
        offset + 8 > bytes@.len() ==> (r matches Err(e) && read_error(e, offset as int, 8)),
{
    let n = bytes.len();
    if offset > usize::MAX - 8 {
        return Err(cp_guard_overflow());
    }
    if offset + 8 > bytes.len() {
        return Err(cp_guard_eoi(offset));
    }
    let high = read_u32(bytes, offset)?;
    let low = read_u32(bytes, offset + 4)?;
    Ok((high as u64) * 0x1_0000_0000 + low as u64)
}

} // verus!
