//! What was written can be read: where the bytes of a value stand in a buffer, reading
//! there ends right behind them.

use vstd::prelude::*;
use vstd::utf8::{encode_utf8, encode_utf8_valid_utf8};

use crate::binary::{
    bool_bytes, le_u16, parse_bool, parse_sized_string_u8, parse_string_u8, parse_u16, parse_u32,
    sized_string_u8_bytes, u16_bytes, u32_bytes, u64_bytes,
};
use crate::error::RLibError;
use crate::fastbin::common::{bool_end, numbers_end, numbers_end_bytes, text_end, text_fault};

verus! {

/// True when `bytes` stand in `data` from `pos` to `end`: `data` reaches to `end`, there
/// are as many bytes between the two as `bytes` has, and they are `bytes`.
pub closed spec fn stands(data: Seq<u8>, pos: int, end: int, bytes: Seq<u8>) -> bool {
    0 <= pos && end == pos + bytes.len() && end <= data.len() && data.subrange(pos, end) == bytes
}

/// The place right behind `bytes` where they start at `pos`.
pub closed spec fn after(pos: int, bytes: Seq<u8>) -> int {
    pos + bytes.len()
}

/// What it means that bytes stand at a place, and where the place behind them is.
pub proof fn lemma_stands(data: Seq<u8>, pos: int, end: int, bytes: Seq<u8>)
    ensures
        stands(data, pos, end, bytes) <==> 0 <= pos && end == pos + bytes.len() && end
            <= data.len() && data.subrange(pos, end) == bytes,
        after(pos, bytes) == pos + bytes.len(),
{
}

/// Bytes stand at the start of what begins with them.
pub proof fn lemma_stands_at_start(bytes: Seq<u8>, rest: Seq<u8>)
    ensures
        stands(bytes + rest, 0, bytes.len() as int, bytes),
{
    assert((bytes + rest).subrange(0, bytes.len() as int) =~= bytes);
}

/// Where two runs stand in a buffer one behind the other, each of them stands there.
pub proof fn lemma_split(data: Seq<u8>, pos: int, end: int, head: Seq<u8>, tail: Seq<u8>)
    requires
        stands(data, pos, end, head + tail),
    ensures
        stands(data, pos, after(pos, head), head),
        stands(data, after(pos, head), end, tail),
{
    let whole = data.subrange(pos, end);
    let mid = pos + head.len();
    assert(data.subrange(pos, mid) =~= whole.subrange(0, head.len() as int));
    assert(head =~= (head + tail).subrange(0, head.len() as int));
    assert(data.subrange(mid, end) =~= whole.subrange(
        head.len() as int,
        (head + tail).len() as int,
    ));
    assert(tail =~= (head + tail).subrange(head.len() as int, (head + tail).len() as int));
}

/// The byte of a buffer at a place where bytes stand.
proof fn lemma_byte_at(data: Seq<u8>, pos: int, end: int, bytes: Seq<u8>, i: int)
    requires
        stands(data, pos, end, bytes),
        0 <= i < bytes.len(),
    ensures
        data[pos + i] == bytes[i],
{
    assert(data.subrange(pos, end)[i] == data[pos + i]);
}

/// A byte that was written is read.
pub proof fn lemma_u8_read_back(v: u8, data: Seq<u8>, pos: int, end: int)
    requires
        stands(data, pos, end, seq![v]),
    ensures
        numbers_end_bytes(data, pos, 1) == Ok::<int, RLibError>(end),
{
}

/// A boolean that was written is read.
pub proof fn lemma_bool_read_back(v: bool, data: Seq<u8>, pos: int, end: int)
    requires
        stands(data, pos, end, bool_bytes(v)),
    ensures
        parse_bool(data, pos) == Ok::<(bool, int), RLibError>((v, end)),
        bool_end(data, pos) == Ok::<int, RLibError>(end),
{
    lemma_byte_at(data, pos, end, bool_bytes(v), 0);
}

/// A number of 16 bits that was written is read.
pub proof fn lemma_u16_read_back(v: u16, data: Seq<u8>, pos: int, end: int)
    requires
        stands(data, pos, end, u16_bytes(v)),
    ensures
        end == pos + 2,
        parse_u16(data, pos) == Ok::<(u16, int), RLibError>((v, end)),
        numbers_end_bytes(data, pos, 2) == Ok::<int, RLibError>(end),
{
    lemma_byte_at(data, pos, end, u16_bytes(v), 0);
    lemma_byte_at(data, pos, end, u16_bytes(v), 1);
    crate::binary::lemma_u16_write_read(v, Seq::empty());
    let alone = u16_bytes(v) + Seq::<u8>::empty();
    assert(alone[0] == u16_bytes(v)[0] && alone[1] == u16_bytes(v)[1]);
    assert(le_u16(data, pos) == le_u16(alone, 0));
}

/// A number of 32 bits that was written is read.
pub proof fn lemma_u32_read_back(v: u32, data: Seq<u8>, pos: int, end: int)
    requires
        stands(data, pos, end, u32_bytes(v)),
    ensures
        end == pos + 4,
        parse_u32(data, pos) == Ok::<(u32, int), RLibError>((v, end)),
        numbers_end_bytes(data, pos, 4) == Ok::<int, RLibError>(end),
{
    lemma_byte_at(data, pos, end, u32_bytes(v), 0);
    lemma_byte_at(data, pos, end, u32_bytes(v), 1);
    lemma_byte_at(data, pos, end, u32_bytes(v), 2);
    lemma_byte_at(data, pos, end, u32_bytes(v), 3);
    crate::binary::lemma_u32_write_read(v, Seq::empty());
    let alone = u32_bytes(v) + Seq::<u8>::empty();
    assert(alone[0] == u32_bytes(v)[0] && alone[1] == u32_bytes(v)[1] && alone[2] == u32_bytes(
        v,
    )[2] && alone[3] == u32_bytes(v)[3]);
    crate::binary::lemma_le_u32_same(data, pos, alone, 0);
}

/// A number of 64 bits that was written can be read.
pub proof fn lemma_u64_read_back(v: u64, data: Seq<u8>, pos: int, end: int)
    requires
        stands(data, pos, end, u64_bytes(v)),
    ensures
        numbers_end_bytes(data, pos, 8) == Ok::<int, RLibError>(end),
{
}

/// Numbers of 32 bits that were written can be read.
pub proof fn lemma_numbers_read_back(bytes: Seq<u8>, n: int, data: Seq<u8>, pos: int, end: int)
    requires
        stands(data, pos, end, bytes),
        0 <= n,
        bytes.len() == 4 * n,
    ensures
        numbers_end(data, pos, n) == Ok::<int, RLibError>(end),
{
}

/// A text that was written with its length in front is read.
pub proof fn lemma_text_read_back(s: Seq<char>, data: Seq<u8>, pos: int, end: int)
    requires
        text_fault(s) is None,
        stands(data, pos, end, sized_string_u8_bytes(s)),
    ensures
        text_end(data, pos) == Ok::<int, RLibError>(end),
{
    let bytes = encode_utf8(s);
    let mid = after(pos, u16_bytes(bytes.len() as u16));
    lemma_split(data, pos, end, u16_bytes(bytes.len() as u16), bytes);
    lemma_u16_read_back(bytes.len() as u16, data, pos, mid);
    encode_utf8_valid_utf8(s);
    assert(parse_string_u8(data, pos + 2, bytes.len() as int) is Ok);
    assert(parse_sized_string_u8(data, pos) is Ok);
}

} // verus!
