//! Byte-level helpers shared by the header and directory decoders: reading a
//! signed 32-bit little-endian integer out of a byte buffer, and decoding a
//! fixed-width name field into text.

use vstd::bytes::{lemma_auto_spec_u32_to_from_le_bytes, spec_u32_from_le_bytes, spec_u32_to_le_bytes, u32_from_le_bytes};
use vstd::prelude::*;
use vstd::slice::slice_subrange;

verus! {

/// The value of `u` reinterpreted as a 32-bit two's-complement signed integer.
pub open spec fn as_signed32(u: u32) -> int {
    if u < 0x8000_0000 {
        u as int
    } else {
        u - 0x1_0000_0000
    }
}

/// The 32-bit two's-complement bit pattern of the signed value `v`.
pub open spec fn to_unsigned32(v: i32) -> u32 {
    if v >= 0 {
        v as u32
    } else {
        (v + 0x1_0000_0000) as u32
    }
}

/// The signed 32-bit value stored little-endian in the four bytes
/// `b[j]`, `b[j + 1]`, `b[j + 2]`, `b[j + 3]`.
pub open spec fn le_i32_at(b: Seq<u8>, j: int) -> int {
    as_signed32(spec_u32_from_le_bytes(b.subrange(j, j + 4)))
}

/// The four-byte little-endian encoding of the signed value `v`.
pub open spec fn i32_to_le_bytes(v: i32) -> Seq<u8> {
    spec_u32_to_le_bytes(to_unsigned32(v))
}

/// Reads the signed 32-bit little-endian integer stored at `buf[j .. j + 4]`.
pub fn read_i32_le(buf: &Vec<u8>, j: usize) -> (r: i32)
    requires
        j + 4 <= buf@.len(),
    ensures
        r as int == le_i32_at(buf@, j as int),
{
    let n: usize = buf.len();
    proof {
        assert(j + 4 <= n);
    }
    let u: u32 = u32_from_le_bytes(slice_subrange(buf.as_slice(), j, j + 4));
    if u < 0x8000_0000 {
        u as i32
    } else {
        let flipped: u32 = 0xFFFF_FFFF - u;
        -(flipped as i32) - 1
    }
}

/// The text that lossy UTF-8 decoding turns a byte sequence into: valid
/// sequences become their characters, invalid ones are replaced.
pub uninterp spec fn lossy_utf8(bytes: Seq<u8>) -> Seq<char>;

/// Relies on String::from_utf8_lossy: the result is a function of the bytes
/// alone, with invalid UTF-8 sequences replaced by U+FFFD.
#[verifier::external_body]
pub(crate) fn lossy_string(bytes: &Vec<u8>) -> (r: String)
    ensures
        r@ == lossy_utf8(bytes@),
{
    String::from_utf8_lossy(bytes.as_slice()).into_owned()
}

/// Reading back the four-byte little-endian encoding of any signed 32-bit
/// value recovers that value, negative values included.
pub proof fn lemma_i32_le_round_trip(v: i32)
    ensures
        i32_to_le_bytes(v).len() == 4,
        le_i32_at(i32_to_le_bytes(v), 0) == v,
{
    lemma_auto_spec_u32_to_from_le_bytes();
    let b = i32_to_le_bytes(v);
    assert(b.subrange(0, 4) =~= b);
}

} // verus!
