//! CompactSize: the variable-length unsigned integer that carries every count
//! and length of the wire format.
//!
//! The first byte either is the value (0 to 252) or announces how many
//! little-endian bytes follow: 253 for two, 254 for four, 255 for eight.

use vstd::prelude::*;
use vstd::slice::slice_subrange;

use crate::cursor::Cursor;
use crate::error::BitcoinError;
use crate::le::{
    lemma_u16_le_round_trip, lemma_u32_le_round_trip, lemma_u64_le_round_trip, push_u16_le,
    push_u32_le, push_u64_le, u16_from_le, u16_le, u16_le_bytes, u32_from_le, u32_le, u32_le_bytes,
    u64_from_le, u64_le, u64_le_bytes,
};

verus! {

/// The length of an encoding that starts with the byte `first`, that byte included.
pub open spec fn compact_size_len(first: u8) -> nat {
    if first <= 252 {
        1
    } else if first == 253 {
        3
    } else if first == 254 {
        5
    } else {
        9
    }
}

/// The value encoded at the start of `bytes` and the number of bytes that the
/// encoding takes, or `None` when `bytes` ends before the encoding does.
///
/// Any of the four forms is accepted for any value that fits it: a longer form
/// than necessary is not an error.
pub open spec fn spec_read_compact_size(bytes: Seq<u8>) -> Option<(u64, nat)> {
    if bytes.len() == 0 || bytes.len() < compact_size_len(bytes[0]) {
        None
    } else if bytes[0] <= 252 {
        Some((bytes[0] as u64, 1))
    } else if bytes[0] == 253 {
        Some((u16_le(bytes.subrange(1, 3)) as u64, 3))
    } else if bytes[0] == 254 {
        Some((u32_le(bytes.subrange(1, 5)) as u64, 5))
    } else {
        Some((u64_le(bytes.subrange(1, 9)) as u64, 9))
    }
}

/// The shortest encoding of `value`.
pub open spec fn spec_write_compact_size(value: u64) -> Seq<u8> {
    if value <= 252 {
        seq![value as u8]
    } else if value <= 0xFFFF {
        seq![253u8] + u16_le_bytes(value as u16)
    } else if value <= 0xFFFF_FFFF {
        seq![254u8] + u32_le_bytes(value as u32)
    } else {
        seq![255u8] + u64_le_bytes(value)
    }
}

/// Each of the three long forms is accepted for every value that fits it,
/// whether or not a shorter form exists.
pub proof fn lemma_compact_size_any_form(value: u64, rest: Seq<u8>)
    ensures
        value <= 0xFFFF ==> spec_read_compact_size(seq![253u8] + u16_le_bytes(value as u16) + rest)
            == Some((value, 3nat)),
        value <= 0xFFFF_FFFF ==> spec_read_compact_size(
            seq![254u8] + u32_le_bytes(value as u32) + rest,
        ) == Some((value, 5nat)),
        spec_read_compact_size(seq![255u8] + u64_le_bytes(value) + rest) == Some((value, 9nat)),
{
    if value <= 0xFFFF {
        let bytes = seq![253u8] + u16_le_bytes(value as u16) + rest;
        lemma_u16_le_round_trip(value as u16);
        assert(bytes.subrange(1, 3) == u16_le_bytes(value as u16));
    }
    if value <= 0xFFFF_FFFF {
        let bytes = seq![254u8] + u32_le_bytes(value as u32) + rest;
        lemma_u32_le_round_trip(value as u32);
        assert(bytes.subrange(1, 5) == u32_le_bytes(value as u32));
    }
    let bytes = seq![255u8] + u64_le_bytes(value) + rest;
    lemma_u64_le_round_trip(value);
    assert(bytes.subrange(1, 9) == u64_le_bytes(value));
}

/// Decoding the encoding of a value gives the value back and consumes the
/// whole encoding, whatever follows it.
pub proof fn lemma_compact_size_round_trip(value: u64, rest: Seq<u8>)
    ensures
        spec_read_compact_size(spec_write_compact_size(value) + rest) == Some(
            (value, spec_write_compact_size(value).len()),
        ),
{
    let bytes = spec_write_compact_size(value) + rest;
    if value <= 252 {
    } else if value <= 0xFFFF {
        lemma_u16_le_round_trip(value as u16);
        assert(bytes.subrange(1, 3) == u16_le_bytes(value as u16));
    } else if value <= 0xFFFF_FFFF {
        lemma_u32_le_round_trip(value as u32);
        assert(bytes.subrange(1, 5) == u32_le_bytes(value as u32));
    } else {
        lemma_u64_le_round_trip(value);
        assert(bytes.subrange(1, 9) == u64_le_bytes(value));
    }
}

/// The encoding of a value is one, three, five or nine bytes long, by the
/// smallest range that holds the value, and starts with that form's prefix.
pub proof fn lemma_compact_size_shortest(value: u64)
    ensures
        value <= 252 ==> spec_write_compact_size(value).len() == 1 && spec_write_compact_size(
            value,
        )[0] == value,
        252 < value <= 0xFFFF ==> spec_write_compact_size(value).len() == 3
            && spec_write_compact_size(value)[0] == 253,
        0xFFFF < value <= 0xFFFF_FFFF ==> spec_write_compact_size(value).len() == 5
            && spec_write_compact_size(value)[0] == 254,
        0xFFFF_FFFF < value ==> spec_write_compact_size(value).len() == 9
            && spec_write_compact_size(value)[0] == 255,
{
}

/// What is read at the start of a byte sequence does not depend on the bytes
/// that follow the encoding.
pub proof fn lemma_compact_size_ignores_rest(bytes: Seq<u8>, more: Seq<u8>)
    requires
        spec_read_compact_size(bytes) is Some,
    ensures
        spec_read_compact_size(bytes + more) == spec_read_compact_size(bytes),
{
    let longer = bytes + more;
    assert(longer[0] == bytes[0]);
    assert(longer.subrange(1, compact_size_len(bytes[0]) as int) =~= bytes.subrange(
        1,
        compact_size_len(bytes[0]) as int,
    ));
}

/// Reads one CompactSize value at the cursor.
///
/// On success the cursor has moved past the encoding. When the buffer ends
/// before the encoding does, the read fails and the cursor stays where it was.
pub fn read_compact_size(cursor: &mut Cursor) -> (result: Result<u64, BitcoinError>)
    ensures
        final(cursor).data() == old(cursor).data(),
        match result {
            Ok(value) => {
                &&& spec_read_compact_size(old(cursor).remaining()) matches Some((v, len))
                &&& value == v
                &&& final(cursor).consumed() == old(cursor).consumed() + len
                &&& final(cursor).remaining() == old(cursor).remaining().skip(len as int)
            },
            Err(error) => {
                &&& spec_read_compact_size(old(cursor).remaining()) is None
                &&& error == BitcoinError::InvalidScript
                &&& final(cursor).consumed() == old(cursor).consumed()
            },
        },
{
    let first: u8 = match cursor.peek() {
        Some(byte) => byte,
        None => {
            return Err(BitcoinError::InvalidScript);
        },
    };
    let len: usize = if first <= 252 {
        1
    } else if first == 253 {
        3
    } else if first == 254 {
        5
    } else {
        9
    };
    let bytes = cursor.take(len)?;
    let payload = slice_subrange(bytes, 1, len);
    assert(payload@ == old(cursor).remaining().subrange(1, len as int));
    if first <= 252 {
        Ok(first as u64)
    } else if first == 253 {
        Ok(u16_from_le(payload) as u64)
    } else if first == 254 {
        Ok(u32_from_le(payload) as u64)
    } else {
        Ok(u64_from_le(payload))
    }
}

/// Appends the shortest encoding of `value` to `buffer`.
pub fn write_compact_size(value: u64, buffer: &mut Vec<u8>)
    ensures
        final(buffer)@ == old(buffer)@ + spec_write_compact_size(value),
{
    if value <= 252 {
        buffer.push(value as u8);
    } else if value <= 0xFFFF {
        buffer.push(253);
        push_u16_le(buffer, value as u16);
    } else if value <= 0xFFFF_FFFF {
        buffer.push(254);
        push_u32_le(buffer, value as u32);
    } else {
        buffer.push(255);
        push_u64_le(buffer, value);
    }
}

} // verus!
