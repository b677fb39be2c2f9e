//! Reading fixed-width integers out of raw byte buffers.
use vstd::prelude::*;

verus! {

/// The unsigned 32-bit integer stored big-endian in `b` at `offset`.
pub open spec fn be_u32(b: Seq<u8>, offset: int) -> int {
    b[offset] * 0x100_0000 + b[offset + 1] * 0x1_0000 + b[offset + 2] * 0x100 + b[offset + 3]
}

/// The unsigned 32-bit integer stored little-endian in `b` at `offset`.
pub open spec fn le_u32(b: Seq<u8>, offset: int) -> int {
    b[offset] + b[offset + 1] * 0x100 + b[offset + 2] * 0x1_0000 + b[offset + 3] * 0x100_0000
}

/// Reads the four bytes of `byte_arr` from `offset` as an unsigned 32-bit
/// integer, big-endian or little-endian as `is_big_endian` says.
pub fn convert_byte_arr_to_u32(byte_arr: &[u8], offset: u32, is_big_endian: bool) -> (r: u32)
    requires
        offset + 4 <= byte_arr@.len(),
    ensures
        is_big_endian ==> r == be_u32(byte_arr@, offset as int),
        !is_big_endian ==> r == le_u32(byte_arr@, offset as int),
{
    let o = offset as usize;
    let b0 = byte_arr[o] as u32;
    let b1 = byte_arr[o + 1] as u32;
    let b2 = byte_arr[o + 2] as u32;
    let b3 = byte_arr[o + 3] as u32;
    if is_big_endian {
        b0 * 0x100_0000 + b1 * 0x1_0000 + b2 * 0x100 + b3
    } else {
        b0 + b1 * 0x100 + b2 * 0x1_0000 + b3 * 0x100_0000
    }
}

} // verus!
