//! Fixed-width fields: four bytes, little-endian.

use vstd::prelude::*;
use crate::error::FormatError;

verus! {

/// The four little-endian bytes of `n`, for `n` below `2^32`.
pub open spec fn le_bytes(n: nat) -> Seq<u8> {
    seq![
        (n % 256) as u8,
        (n / 256 % 256) as u8,
        (n / 65536 % 256) as u8,
        (n / 16777216 % 256) as u8,
    ]
}

/// The number that four little-endian bytes stand for.
pub open spec fn le_value(bytes: Seq<u8>) -> nat
    recommends
        bytes.len() >= 4,
{
    (bytes[0] as nat) + 256 * (bytes[1] as nat) + 65536 * (bytes[2] as nat) + 16777216 * (
    bytes[3] as nat)
}

/// The unsigned number with the same 32 bits as `v` in two's complement.
pub open spec fn to_unsigned(v: int) -> nat {
    if v >= 0 {
        v as nat
    } else {
        (v + 0x1_0000_0000) as nat
    }
}

/// The signed number with the same 32 bits as `u` in two's complement.
pub open spec fn to_signed(u: nat) -> int {
    if u < 0x8000_0000 {
        u as int
    } else {
        u - 0x1_0000_0000
    }
}

/// The encoding of a signed 32-bit field.
pub open spec fn encode_i32(v: int) -> Seq<u8> {
    le_bytes(to_unsigned(v))
}

/// Reading a 32-bit unsigned field from the front of `bytes`.
pub open spec fn decode_u32(bytes: Seq<u8>) -> Result<nat, FormatError> {
    if bytes.len() < 4 {
        Err(FormatError::UnexpectedEof)
    } else {
        Ok(le_value(bytes))
    }
}

/// Reading a 32-bit signed field from the front of `bytes`.
pub open spec fn decode_i32(bytes: Seq<u8>) -> Result<int, FormatError> {
    match decode_u32(bytes) {
        Ok(u) => Ok(to_signed(u)),
        Err(e) => Err(e),
    }
}

/// Four bytes decode to the number they were made from, whatever follows them.
pub proof fn lemma_le_roundtrip(n: nat, rest: Seq<u8>)
    requires
        n < 0x1_0000_0000,
    ensures
        le_bytes(n).len() == 4,
        decode_u32(le_bytes(n) + rest) == Ok::<nat, FormatError>(n),
{
    let b = le_bytes(n) + rest;
    assert(b[0] == (n % 256) as u8);
    assert(b[1] == (n / 256 % 256) as u8);
    assert(b[2] == (n / 65536 % 256) as u8);
    assert(b[3] == (n / 16777216 % 256) as u8);
}

/// A signed field decodes to the number it was made from, whatever follows it.
pub proof fn lemma_i32_roundtrip(v: int, rest: Seq<u8>)
    requires
        i32::MIN <= v <= i32::MAX,
    ensures
        encode_i32(v).len() == 4,
        decode_i32(encode_i32(v) + rest) == Ok::<int, FormatError>(v),
{
    lemma_le_roundtrip(to_unsigned(v), rest);
}

/// Appends the four little-endian bytes of `u` to `sink`.
pub fn write_u32(u: u32, sink: &mut Vec<u8>)
    ensures
        final(sink)@ == old(sink)@ + le_bytes(u as nat),
{
    sink.push((u % 256) as u8);
    sink.push((u / 256 % 256) as u8);
    sink.push((u / 65536 % 256) as u8);
    sink.push((u / 16777216 % 256) as u8);
    assert(sink@ =~= old(sink)@ + le_bytes(u as nat));
}

/// Appends the encoding of `v` to `sink`.
pub fn write_i32(v: i32, sink: &mut Vec<u8>)
    ensures
        final(sink)@ == old(sink)@ + encode_i32(v as int),
{
    let u: u32 = if v >= 0 {
        v as u32
    } else {
        ((v + 1 + i32::MAX) as u32) + 0x8000_0000u32
    };
    write_u32(u, sink);
}

/// Reads an unsigned field from the front of `bytes`.
pub fn read_u32(bytes: &[u8]) -> (r: Result<u32, FormatError>)
    ensures
        match r {
            Ok(u) => decode_u32(bytes@) == Ok::<nat, FormatError>(u as nat),
            Err(e) => decode_u32(bytes@) == Err::<nat, FormatError>(e),
        },
{
    if bytes.len() < 4 {
        return Err(FormatError::UnexpectedEof);
    }
    let b0: u32 = bytes[0] as u32;
    let b1: u32 = bytes[1] as u32;
    let b2: u32 = bytes[2] as u32;
    let b3: u32 = bytes[3] as u32;
    Ok(b0 + 256 * b1 + 65536 * b2 + 16777216 * b3)
}

/// Reads a signed field from the front of `bytes`.
pub fn read_i32(bytes: &[u8]) -> (r: Result<i32, FormatError>)
    ensures
        match r {
            Ok(v) => decode_i32(bytes@) == Ok::<int, FormatError>(v as int),
            Err(e) => decode_i32(bytes@) == Err::<int, FormatError>(e),
        },
{
    match read_u32(bytes) {
        Ok(u) => {
            if u < 0x8000_0000u32 {
                Ok(u as i32)
            } else {
                Ok((u - 0x8000_0000u32) as i32 + i32::MIN)
            }
        },
        Err(e) => Err(e),
    }
}

} // verus!
