//! Little-endian integers: what a group of bytes means, and the bytes of a value.

use vstd::prelude::*;

verus! {

/// The number that two bytes spell, least significant byte first.
pub open spec fn u16_le(bytes: Seq<u8>) -> int
    recommends
        bytes.len() == 2,
{
    bytes[0] + 0x100 * bytes[1]
}

/// The number that four bytes spell, least significant byte first.
pub open spec fn u32_le(bytes: Seq<u8>) -> int
    recommends
        bytes.len() == 4,
{
    bytes[0] + 0x100 * bytes[1] + 0x1_0000 * bytes[2] + 0x100_0000 * bytes[3]
}

/// The number that eight bytes spell, least significant byte first.
pub open spec fn u64_le(bytes: Seq<u8>) -> int
    recommends
        bytes.len() == 8,
{
    bytes[0] + 0x100 * bytes[1] + 0x1_0000 * bytes[2] + 0x100_0000 * bytes[3] + 0x1_0000_0000
        * bytes[4] + 0x100_0000_0000 * bytes[5] + 0x1_0000_0000_0000 * bytes[6]
        + 0x100_0000_0000_0000 * bytes[7]
}

/// The signed number that four bytes spell in two's complement, least
/// significant byte first.
pub open spec fn i32_le(bytes: Seq<u8>) -> int
    recommends
        bytes.len() == 4,
{
    if u32_le(bytes) < 0x8000_0000 {
        u32_le(bytes)
    } else {
        u32_le(bytes) - 0x1_0000_0000
    }
}

/// The two bytes of `value`, least significant first.
pub open spec fn u16_le_bytes(value: u16) -> Seq<u8> {
    seq![(value % 0x100) as u8, (value / 0x100) as u8]
}

/// The four bytes of `value`, least significant first.
pub open spec fn u32_le_bytes(value: u32) -> Seq<u8> {
    seq![
        (value % 0x100) as u8,
        (value / 0x100 % 0x100) as u8,
        (value / 0x1_0000 % 0x100) as u8,
        (value / 0x100_0000) as u8,
    ]
}

/// The eight bytes of `value`, least significant first.
pub open spec fn u64_le_bytes(value: u64) -> Seq<u8> {
    seq![
        (value % 0x100) as u8,
        (value / 0x100 % 0x100) as u8,
        (value / 0x1_0000 % 0x100) as u8,
        (value / 0x100_0000 % 0x100) as u8,
        (value / 0x1_0000_0000 % 0x100) as u8,
        (value / 0x100_0000_0000 % 0x100) as u8,
        (value / 0x1_0000_0000_0000 % 0x100) as u8,
        (value / 0x100_0000_0000_0000) as u8,
    ]
}

/// The four bytes of `value` in two's complement, least significant first.
pub open spec fn i32_le_bytes(value: i32) -> Seq<u8> {
    if value >= 0 {
        u32_le_bytes(value as u32)
    } else {
        u32_le_bytes((value + 0x1_0000_0000) as u32)
    }
}

/// Reading back the bytes of a 16-bit value gives the value.
pub proof fn lemma_u16_le_round_trip(value: u16)
    ensures
        u16_le_bytes(value).len() == 2,
        u16_le(u16_le_bytes(value)) == value,
{
}

/// Reading back the bytes of a 32-bit value gives the value.
pub proof fn lemma_u32_le_round_trip(value: u32)
    ensures
        u32_le_bytes(value).len() == 4,
        u32_le(u32_le_bytes(value)) == value,
{
}

/// Reading back the bytes of a 64-bit value gives the value.
pub proof fn lemma_u64_le_round_trip(value: u64)
    ensures
        u64_le_bytes(value).len() == 8,
        u64_le(u64_le_bytes(value)) == value,
{
    let q1 = value / 0x100;
    let q2 = q1 / 0x100;
    let q3 = q2 / 0x100;
    let q4 = q3 / 0x100;
    let q5 = q4 / 0x100;
    let q6 = q5 / 0x100;
    let q7 = q6 / 0x100;
    assert(q2 == value / 0x1_0000);
    assert(q3 == value / 0x100_0000);
    assert(q4 == value / 0x1_0000_0000);
    assert(q5 == value / 0x100_0000_0000);
    assert(q6 == value / 0x1_0000_0000_0000);
    assert(q7 == value / 0x100_0000_0000_0000);
    assert(q7 < 0x100);
    let bytes = u64_le_bytes(value);
    assert(bytes[0] == value % 0x100);
    assert(bytes[1] == q1 % 0x100);
    assert(bytes[2] == q2 % 0x100);
    assert(bytes[3] == q3 % 0x100);
    assert(bytes[4] == q4 % 0x100);
    assert(bytes[5] == q5 % 0x100);
    assert(bytes[6] == q6 % 0x100);
    assert(bytes[7] == q7);
}

/// Reading back the bytes of a signed 32-bit value gives the value.
pub proof fn lemma_i32_le_round_trip(value: i32)
    ensures
        i32_le_bytes(value).len() == 4,
        i32_le(i32_le_bytes(value)) == value,
{
    if value >= 0 {
        lemma_u32_le_round_trip(value as u32);
    } else {
        lemma_u32_le_round_trip((value + 0x1_0000_0000) as u32);
    }
}

/// Decodes two bytes as an unsigned little-endian integer.
pub fn u16_from_le(bytes: &[u8]) -> (value: u16)
    requires
        bytes@.len() == 2,
    ensures
        value == u16_le(bytes@),
{
    let b0: u16 = bytes[0] as u16;
    let b1: u16 = bytes[1] as u16;
    b0 + 0x100 * b1
}

/// Decodes four bytes as an unsigned little-endian integer.
pub fn u32_from_le(bytes: &[u8]) -> (value: u32)
    requires
        bytes@.len() == 4,
    ensures
        value == u32_le(bytes@),
{
    let b0: u32 = bytes[0] as u32;
    let b1: u32 = bytes[1] as u32;
    let b2: u32 = bytes[2] as u32;
    let b3: u32 = bytes[3] as u32;
    b0 + 0x100 * b1 + 0x1_0000 * b2 + 0x100_0000 * b3
}

/// Decodes eight bytes as an unsigned little-endian integer.
pub fn u64_from_le(bytes: &[u8]) -> (value: u64)
    requires
        bytes@.len() == 8,
    ensures
        value == u64_le(bytes@),
{
    let b0: u64 = bytes[0] as u64;
    let b1: u64 = bytes[1] as u64;
    let b2: u64 = bytes[2] as u64;
    let b3: u64 = bytes[3] as u64;
    let b4: u64 = bytes[4] as u64;
    let b5: u64 = bytes[5] as u64;
    let b6: u64 = bytes[6] as u64;
    let b7: u64 = bytes[7] as u64;
    b0 + 0x100 * b1 + 0x1_0000 * b2 + 0x100_0000 * b3 + 0x1_0000_0000 * b4 + 0x100_0000_0000 * b5
        + 0x1_0000_0000_0000 * b6 + 0x100_0000_0000_0000 * b7
}

/// Decodes four bytes as a signed little-endian integer in two's complement.
pub fn i32_from_le(bytes: &[u8]) -> (value: i32)
    requires
        bytes@.len() == 4,
    ensures
        value == i32_le(bytes@),
{
    let raw: u32 = u32_from_le(bytes);
    if raw < 0x8000_0000 {
        raw as i32
    } else {
        let low: u32 = raw - 0x8000_0000;
        (low as i32) - 0x7fff_ffff - 1
    }
}

/// Appends the two little-endian bytes of `value` to `buffer`.
pub fn push_u16_le(buffer: &mut Vec<u8>, value: u16)
    ensures
        final(buffer)@ == old(buffer)@ + u16_le_bytes(value),
{
    buffer.push((value % 0x100) as u8);
    buffer.push((value / 0x100) as u8);
}

/// Appends the four little-endian bytes of `value` to `buffer`.
pub fn push_u32_le(buffer: &mut Vec<u8>, value: u32)
    ensures
        final(buffer)@ == old(buffer)@ + u32_le_bytes(value),
{
    buffer.push((value % 0x100) as u8);
    buffer.push((value / 0x100 % 0x100) as u8);
    buffer.push((value / 0x1_0000 % 0x100) as u8);
    buffer.push((value / 0x100_0000) as u8);
}

/// Appends the eight little-endian bytes of `value` to `buffer`.
pub fn push_u64_le(buffer: &mut Vec<u8>, value: u64)
    ensures
        final(buffer)@ == old(buffer)@ + u64_le_bytes(value),
{
    buffer.push((value % 0x100) as u8);
    buffer.push((value / 0x100 % 0x100) as u8);
    buffer.push((value / 0x1_0000 % 0x100) as u8);
    buffer.push((value / 0x100_0000 % 0x100) as u8);
    buffer.push((value / 0x1_0000_0000 % 0x100) as u8);
    buffer.push((value / 0x100_0000_0000 % 0x100) as u8);
    buffer.push((value / 0x1_0000_0000_0000 % 0x100) as u8);
    buffer.push((value / 0x100_0000_0000_0000) as u8);
}

/// Appends the four little-endian bytes of the signed `value` to `buffer`.
pub fn push_i32_le(buffer: &mut Vec<u8>, value: i32)
    ensures
        final(buffer)@ == old(buffer)@ + i32_le_bytes(value),
{
    if value >= 0 {
        push_u32_le(buffer, value as u32);
    } else {
        let low: u32 = (value + 0x7fff_ffff + 1) as u32;
        push_u32_le(buffer, low + 0x8000_0000);
    }
}

} // verus!
