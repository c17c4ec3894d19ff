//! Little-endian primitives over byte buffers: what a group of bytes means, and the
//! bounds-checked readers and writers that move a cursor over a buffer.
//!
//! Every reader takes the buffer and a cursor. On success the cursor stands behind what was
//! read; on failure it stays where it was.

use vstd::prelude::*;
use vstd::utf8::*;

use crate::error::{RLibError, Result};
use crate::text::{
    decode_utf16, encode_utf16, hex_to_u32, hex_upper, lemma_utf16_round_trip, parse_hex_u32,
    push_hex, string_from_chars, string_from_utf8, utf16_decode, utf16_encode,
};
use vstd::string::StringSliceAdditionalSpecFns;

verus! {

/// True when `n` bytes can be read from `data` at `pos`.
pub open spec fn has_bytes(data: Seq<u8>, pos: int, n: int) -> bool {
    0 <= pos && 0 <= n && pos + n <= data.len()
}

/// The two bytes at `pos` as a little-endian number.
pub open spec fn le_u16(data: Seq<u8>, pos: int) -> u16 {
    (data[pos] as int + 0x100 * (data[pos + 1] as int)) as u16
}

/// The four bytes at `pos` as a little-endian number.
pub open spec fn le_u32(data: Seq<u8>, pos: int) -> u32 {
    (data[pos] as int + 0x100 * (data[pos + 1] as int) + 0x1_0000 * (data[pos + 2] as int)
        + 0x100_0000 * (data[pos + 3] as int)) as u32
}

/// The eight bytes at `pos` as a little-endian number.
pub open spec fn le_u64(data: Seq<u8>, pos: int) -> u64 {
    (le_u32(data, pos) as int + 0x1_0000_0000 * (le_u32(data, pos + 4) as int)) as u64
}

/// The two bytes that stand for `v`, lowest first.
pub open spec fn u16_bytes(v: u16) -> Seq<u8> {
    seq![(v % 0x100) as u8, (v / 0x100) as u8]
}

/// The four bytes that stand for `v`, lowest first.
pub open spec fn u32_bytes(v: u32) -> Seq<u8> {
    seq![
        (v % 0x100) as u8,
        (v / 0x100 % 0x100) as u8,
        (v / 0x1_0000 % 0x100) as u8,
        (v / 0x100_0000) as u8,
    ]
}

/// The eight bytes that stand for `v`, lowest first.
pub open spec fn u64_bytes(v: u64) -> Seq<u8> {
    u32_bytes((v % 0x1_0000_0000) as u32) + u32_bytes((v / 0x1_0000_0000) as u32)
}

/// The signed number with the same 16 bits in two's complement.
pub open spec fn i16_of(u: u16) -> i16 {
    if u >= 0x8000 {
        (u - 0x1_0000) as i16
    } else {
        u as i16
    }
}

/// The signed number with the same 32 bits in two's complement.
pub open spec fn i32_of(u: u32) -> i32 {
    if u >= 0x8000_0000 {
        (u - 0x1_0000_0000) as i32
    } else {
        u as i32
    }
}

/// The signed number with the same 64 bits in two's complement.
pub open spec fn i64_of(u: u64) -> i64 {
    if u >= 0x8000_0000_0000_0000 {
        (u - 0x1_0000_0000_0000_0000) as i64
    } else {
        u as i64
    }
}

/// The 16 bits of `i` in two's complement.
pub open spec fn u16_of(i: i16) -> u16 {
    if i < 0 {
        (i + 0x1_0000) as u16
    } else {
        i as u16
    }
}

/// The 32 bits of `i` in two's complement.
pub open spec fn u32_of(i: i32) -> u32 {
    if i < 0 {
        (i + 0x1_0000_0000) as u32
    } else {
        i as u32
    }
}

/// The 64 bits of `i` in two's complement.
pub open spec fn u64_of(i: i64) -> u64 {
    if i < 0 {
        (i + 0x1_0000_0000_0000_0000) as u64
    } else {
        i as u64
    }
}

/// What reading one byte at `pos` gives.
pub open spec fn parse_u8(data: Seq<u8>, pos: int) -> core::result::Result<(u8, int), RLibError> {
    if has_bytes(data, pos, 1) {
        Ok((data[pos], pos + 1))
    } else {
        Err(RLibError::DecodingNotEnoughBytes)
    }
}

/// What reading a boolean at `pos` gives: one byte, 0 for false and 1 for true.
pub open spec fn parse_bool(
    data: Seq<u8>,
    pos: int,
) -> core::result::Result<(bool, int), RLibError> {
    if !has_bytes(data, pos, 1) {
        Err(RLibError::DecodingNotEnoughBytes)
    } else if data[pos] == 0 {
        Ok((false, pos + 1))
    } else if data[pos] == 1 {
        Ok((true, pos + 1))
    } else {
        Err(RLibError::DecodingBoolError(data[pos]))
    }
}

/// What reading a 16-bit unsigned integer at `pos` gives.
pub open spec fn parse_u16(data: Seq<u8>, pos: int) -> core::result::Result<(u16, int), RLibError> {
    if has_bytes(data, pos, 2) {
        Ok((le_u16(data, pos), pos + 2))
    } else {
        Err(RLibError::DecodingNotEnoughBytes)
    }
}

/// What reading a 32-bit unsigned integer at `pos` gives.
pub open spec fn parse_u32(data: Seq<u8>, pos: int) -> core::result::Result<(u32, int), RLibError> {
    if has_bytes(data, pos, 4) {
        Ok((le_u32(data, pos), pos + 4))
    } else {
        Err(RLibError::DecodingNotEnoughBytes)
    }
}

/// What reading a 64-bit unsigned integer at `pos` gives.
pub open spec fn parse_u64(data: Seq<u8>, pos: int) -> core::result::Result<(u64, int), RLibError> {
    if has_bytes(data, pos, 8) {
        Ok((le_u64(data, pos), pos + 8))
    } else {
        Err(RLibError::DecodingNotEnoughBytes)
    }
}

/// What reading a 16-bit signed integer at `pos` gives.
pub open spec fn parse_i16(data: Seq<u8>, pos: int) -> core::result::Result<(i16, int), RLibError> {
    match parse_u16(data, pos) {
        Ok((u, p)) => Ok((i16_of(u), p)),
        Err(e) => Err(e),
    }
}

/// What reading a 32-bit signed integer at `pos` gives.
pub open spec fn parse_i32(data: Seq<u8>, pos: int) -> core::result::Result<(i32, int), RLibError> {
    match parse_u32(data, pos) {
        Ok((u, p)) => Ok((i32_of(u), p)),
        Err(e) => Err(e),
    }
}

/// What reading a 64-bit signed integer at `pos` gives.
pub open spec fn parse_i64(data: Seq<u8>, pos: int) -> core::result::Result<(i64, int), RLibError> {
    match parse_u64(data, pos) {
        Ok((u, p)) => Ok((i64_of(u), p)),
        Err(e) => Err(e),
    }
}

/// What reading `n` raw bytes at `pos` gives.
pub open spec fn parse_bytes(
    data: Seq<u8>,
    pos: int,
    n: int,
) -> core::result::Result<(Seq<u8>, int), RLibError> {
    if has_bytes(data, pos, n) {
        Ok((data.subrange(pos, pos + n), pos + n))
    } else {
        Err(RLibError::DecodingNotEnoughBytes)
    }
}

/// A reader that returned `r` and moved its cursor from `start` to `end` did what
/// `expected` says.
pub open spec fn reads<T>(
    r: Result<T>,
    start: usize,
    end: usize,
    expected: core::result::Result<(T, int), RLibError>,
) -> bool {
    match expected {
        Ok((v, p)) => r == Ok::<T, RLibError>(v) && end == p,
        Err(e) => r == Err::<T, RLibError>(e) && end == start,
    }
}

/// As `reads`, for a reader that hands out bytes.
pub open spec fn reads_bytes(
    r: Result<Vec<u8>>,
    start: usize,
    end: usize,
    expected: core::result::Result<(Seq<u8>, int), RLibError>,
) -> bool {
    match expected {
        Ok((v, p)) => r is Ok && r->Ok_0@ == v && end == p,
        Err(e) => r == Err::<Vec<u8>, RLibError>(e) && end == start,
    }
}

/// As `reads`, for a reader that hands out text.
pub open spec fn reads_text(
    r: Result<String>,
    start: usize,
    end: usize,
    expected: core::result::Result<(Seq<char>, int), RLibError>,
) -> bool {
    match expected {
        Ok((v, p)) => r is Ok && r->Ok_0@ == v && end == p,
        Err(e) => r == Err::<String, RLibError>(e) && end == start,
    }
}

/// Reads one byte.
pub fn read_u8(data: &[u8], index: &mut usize) -> (r: Result<u8>)
    ensures
        reads(r, *old(index), *final(index), parse_u8(data@, *old(index) as int)),
{
    if *index < data.len() {
        let b = data[*index];
        *index = *index + 1;
        Ok(b)
    } else {
        Err(RLibError::DecodingNotEnoughBytes)
    }
}

/// Reads a boolean: one byte that must be 0 or 1.
pub fn read_bool(data: &[u8], index: &mut usize) -> (r: Result<bool>)
    ensures
        reads(r, *old(index), *final(index), parse_bool(data@, *old(index) as int)),
{
    if *index < data.len() {
        let b = data[*index];
        if b == 0 {
            *index = *index + 1;
            Ok(false)
        } else if b == 1 {
            *index = *index + 1;
            Ok(true)
        } else {
            Err(RLibError::DecodingBoolError(b))
        }
    } else {
        Err(RLibError::DecodingNotEnoughBytes)
    }
}

/// Reads a 16-bit unsigned integer.
pub fn read_u16(data: &[u8], index: &mut usize) -> (r: Result<u16>)
    ensures
        reads(r, *old(index), *final(index), parse_u16(data@, *old(index) as int)),
{
    let i: usize = *index;
    if i <= data.len() && data.len() - i >= 2 {
        let v: u16 = data[i] as u16 + 0x100 * (data[i + 1] as u16);
        *index = i + 2;
        Ok(v)
    } else {
        Err(RLibError::DecodingNotEnoughBytes)
    }
}

/// Reads a 32-bit unsigned integer.
pub fn read_u32(data: &[u8], index: &mut usize) -> (r: Result<u32>)
    ensures
        reads(r, *old(index), *final(index), parse_u32(data@, *old(index) as int)),
{
    let i: usize = *index;
    if i <= data.len() && data.len() - i >= 4 {
        let v: u32 = data[i] as u32 + 0x100 * (data[i + 1] as u32) + 0x1_0000 * (data[i + 2] as u32)
            + 0x100_0000 * (data[i + 3] as u32);
        *index = i + 4;
        Ok(v)
    } else {
        Err(RLibError::DecodingNotEnoughBytes)
    }
}

/// Reads a 64-bit unsigned integer.
pub fn read_u64(data: &[u8], index: &mut usize) -> (r: Result<u64>)
    ensures
        reads(r, *old(index), *final(index), parse_u64(data@, *old(index) as int)),
{
    let i: usize = *index;
    if i <= data.len() && data.len() - i >= 8 {
        let lo: u64 = data[i] as u64 + 0x100 * (data[i + 1] as u64) + 0x1_0000 * (data[i + 2] as u64)
            + 0x100_0000 * (data[i + 3] as u64);
        let hi: u64 = data[i + 4] as u64 + 0x100 * (data[i + 5] as u64) + 0x1_0000 * (data[i
            + 6] as u64) + 0x100_0000 * (data[i + 7] as u64);
        let v: u64 = lo + 0x1_0000_0000 * hi;
        *index = i + 8;
        Ok(v)
    } else {
        Err(RLibError::DecodingNotEnoughBytes)
    }
}

/// The signed number with the bits of `u`.
pub fn i16_from_bits(u: u16) -> (i: i16)
    ensures
        i == i16_of(u),
{
    if u >= 0x8000 {
        ((u - 0x8000) as i16) + i16::MIN
    } else {
        u as i16
    }
}

/// The signed number with the bits of `u`.
pub fn i32_from_bits(u: u32) -> (i: i32)
    ensures
        i == i32_of(u),
{
    if u >= 0x8000_0000 {
        ((u - 0x8000_0000) as i32) + i32::MIN
    } else {
        u as i32
    }
}

/// The signed number with the bits of `u`.
pub fn i64_from_bits(u: u64) -> (i: i64)
    ensures
        i == i64_of(u),
{
    if u >= 0x8000_0000_0000_0000 {
        ((u - 0x8000_0000_0000_0000) as i64) + i64::MIN
    } else {
        u as i64
    }
}

/// The bits of `i`.
pub fn i16_to_bits(i: i16) -> (u: u16)
    ensures
        u == u16_of(i),
{
    if i < 0 {
        ((i - i16::MIN) as u16) + 0x8000
    } else {
        i as u16
    }
}

/// The bits of `i`.
pub fn i32_to_bits(i: i32) -> (u: u32)
    ensures
        u == u32_of(i),
{
    if i < 0 {
        ((i - i32::MIN) as u32) + 0x8000_0000
    } else {
        i as u32
    }
}

/// The bits of `i`.
pub fn i64_to_bits(i: i64) -> (u: u64)
    ensures
        u == u64_of(i),
{
    if i < 0 {
        ((i - i64::MIN) as u64) + 0x8000_0000_0000_0000
    } else {
        i as u64
    }
}

/// Reads a 16-bit signed integer.
pub fn read_i16(data: &[u8], index: &mut usize) -> (r: Result<i16>)
    ensures
        reads(r, *old(index), *final(index), parse_i16(data@, *old(index) as int)),
{
    match read_u16(data, index) {
        Ok(u) => Ok(i16_from_bits(u)),
        Err(e) => Err(e),
    }
}

/// Reads a 32-bit signed integer.
pub fn read_i32(data: &[u8], index: &mut usize) -> (r: Result<i32>)
    ensures
        reads(r, *old(index), *final(index), parse_i32(data@, *old(index) as int)),
{
    match read_u32(data, index) {
        Ok(u) => Ok(i32_from_bits(u)),
        Err(e) => Err(e),
    }
}

/// Reads a 64-bit signed integer.
pub fn read_i64(data: &[u8], index: &mut usize) -> (r: Result<i64>)
    ensures
        reads(r, *old(index), *final(index), parse_i64(data@, *old(index) as int)),
{
    match read_u64(data, index) {
        Ok(u) => Ok(i64_from_bits(u)),
        Err(e) => Err(e),
    }
}

/// Reads `n` raw bytes.
pub fn read_slice(data: &[u8], index: &mut usize, n: usize) -> (r: Result<Vec<u8>>)
    ensures
        reads_bytes(r, *old(index), *final(index), parse_bytes(data@, *old(index) as int, n as int)),
{
    let start: usize = *index;
    if start <= data.len() && data.len() - start >= n {
        let end: usize = start + n;
        let mut out: Vec<u8> = Vec::new();
        let mut i: usize = start;
        while i < end
            invariant
                start <= i <= end <= data@.len(),
                out@ == data@.subrange(start as int, i as int),
            decreases end - i,
        {
            out.push(data[i]);
            i = i + 1;
        }
        *index = end;
        Ok(out)
    } else {
        Err(RLibError::DecodingNotEnoughBytes)
    }
}

/// Appends one byte.
pub fn write_u8(buffer: &mut Vec<u8>, v: u8)
    ensures
        final(buffer)@ == old(buffer)@ + seq![v],
{
    buffer.push(v);
}

/// Appends a boolean as one byte, 1 for true.
pub fn write_bool(buffer: &mut Vec<u8>, v: bool)
    ensures
        final(buffer)@ == old(buffer)@ + seq![if v { 1u8 } else { 0u8 }],
{
    buffer.push(if v { 1 } else { 0 });
}

/// Appends a 16-bit unsigned integer.
pub fn write_u16(buffer: &mut Vec<u8>, v: u16)
    ensures
        final(buffer)@ == old(buffer)@ + u16_bytes(v),
{
    buffer.push((v % 0x100) as u8);
    buffer.push((v / 0x100) as u8);
}

/// Appends a 32-bit unsigned integer.
pub fn write_u32(buffer: &mut Vec<u8>, v: u32)
    ensures
        final(buffer)@ == old(buffer)@ + u32_bytes(v),
{
    buffer.push((v % 0x100) as u8);
    buffer.push((v / 0x100 % 0x100) as u8);
    buffer.push((v / 0x1_0000 % 0x100) as u8);
    buffer.push((v / 0x100_0000) as u8);
}

/// Appends a 64-bit unsigned integer.
pub fn write_u64(buffer: &mut Vec<u8>, v: u64)
    ensures
        final(buffer)@ == old(buffer)@ + u64_bytes(v),
{
    write_u32(buffer, (v % 0x1_0000_0000) as u32);
    write_u32(buffer, (v / 0x1_0000_0000) as u32);
}

/// Appends a 16-bit signed integer.
pub fn write_i16(buffer: &mut Vec<u8>, v: i16)
    ensures
        final(buffer)@ == old(buffer)@ + u16_bytes(u16_of(v)),
{
    write_u16(buffer, i16_to_bits(v));
}

/// Appends a 32-bit signed integer.
pub fn write_i32(buffer: &mut Vec<u8>, v: i32)
    ensures
        final(buffer)@ == old(buffer)@ + u32_bytes(u32_of(v)),
{
    write_u32(buffer, i32_to_bits(v));
}

/// Appends a 64-bit signed integer.
pub fn write_i64(buffer: &mut Vec<u8>, v: i64)
    ensures
        final(buffer)@ == old(buffer)@ + u64_bytes(u64_of(v)),
{
    write_u64(buffer, i64_to_bits(v));
}

/// Appends raw bytes.
pub fn write_all(buffer: &mut Vec<u8>, bytes: &[u8])
    ensures
        final(buffer)@ == old(buffer)@ + bytes@,
{
    let mut i: usize = 0;
    while i < bytes.len()
        invariant
            i <= bytes@.len(),
            buffer@ == old(buffer)@ + bytes@.subrange(0, i as int),
        decreases bytes@.len() - i,
    {
        buffer.push(bytes[i]);
        i = i + 1;
    }
    assert(bytes@.subrange(0, bytes@.len() as int) == bytes@);
}

/// Writing a number and reading it back gives the number.
pub proof fn lemma_u16_write_read(v: u16, rest: Seq<u8>)
    ensures
        parse_u16(u16_bytes(v) + rest, 0) == Ok::<(u16, int), RLibError>((v, 2)),
{
}

/// Writing a number and reading it back gives the number.
pub proof fn lemma_u32_write_read(v: u32, rest: Seq<u8>)
    ensures
        parse_u32(u32_bytes(v) + rest, 0) == Ok::<(u32, int), RLibError>((v, 4)),
{
}

/// Writing a number and reading it back gives the number.
#[verifier::rlimit(40)]
pub proof fn lemma_u64_write_read(v: u64, rest: Seq<u8>)
    ensures
        parse_u64(u64_bytes(v) + rest, 0) == Ok::<(u64, int), RLibError>((v, 8)),
{
    let lo = (v % 0x1_0000_0000) as u32;
    let hi = (v / 0x1_0000_0000) as u32;
    let s = u64_bytes(v) + rest;
    lemma_u32_write_read(lo, Seq::empty());
    lemma_u32_write_read(hi, Seq::empty());
    lemma_le_u32_same(s, 0, u32_bytes(lo) + Seq::empty(), 0);
    lemma_le_u32_same(s, 4, u32_bytes(hi) + Seq::empty(), 0);
}

/// Equal bytes give equal numbers.
pub proof fn lemma_le_u32_same(a: Seq<u8>, pa: int, b: Seq<u8>, pb: int)
    requires
        a[pa] == b[pb],
        a[pa + 1] == b[pb + 1],
        a[pa + 2] == b[pb + 2],
        a[pa + 3] == b[pb + 3],
    ensures
        le_u32(a, pa) == le_u32(b, pb),
{
}

/// Reading a number and writing it back gives the bytes that were read.
pub proof fn lemma_u16_read_write(data: Seq<u8>, pos: int)
    requires
        has_bytes(data, pos, 2),
    ensures
        u16_bytes(le_u16(data, pos)) == data.subrange(pos, pos + 2),
{
    assert(u16_bytes(le_u16(data, pos)) =~= data.subrange(pos, pos + 2));
}

/// Reading a number and writing it back gives the bytes that were read.
#[verifier::rlimit(40)]
pub proof fn lemma_u32_read_write(data: Seq<u8>, pos: int)
    requires
        has_bytes(data, pos, 4),
    ensures
        u32_bytes(le_u32(data, pos)) == data.subrange(pos, pos + 4),
{
    let b0 = data[pos] as int;
    let b1 = data[pos + 1] as int;
    let b2 = data[pos + 2] as int;
    let b3 = data[pos + 3] as int;
    let v2 = b2 + 0x100 * b3;
    let v1 = b1 + 0x100 * v2;
    let v = le_u32(data, pos) as int;
    assert(v == b0 + 0x100 * v1);
    assert(v / 0x100 == v1 && v % 0x100 == b0);
    assert(v1 / 0x100 == v2 && v1 % 0x100 == b1);
    assert(v2 / 0x100 == b3 && v2 % 0x100 == b2);
    assert(v / 0x1_0000 == v2);
    assert(v / 0x100_0000 == b3);
    assert(u32_bytes(le_u32(data, pos)) =~= data.subrange(pos, pos + 4));
}

/// Reading a number and writing it back gives the bytes that were read.
#[verifier::rlimit(40)]
pub proof fn lemma_u64_read_write(data: Seq<u8>, pos: int)
    requires
        has_bytes(data, pos, 8),
    ensures
        u64_bytes(le_u64(data, pos)) == data.subrange(pos, pos + 8),
{
    let lo = le_u32(data, pos);
    let hi = le_u32(data, pos + 4);
    let x = le_u64(data, pos);
    assert(x == lo + 0x1_0000_0000 * hi);
    assert(x % 0x1_0000_0000 == lo);
    assert(x / 0x1_0000_0000 == hi);
    lemma_u32_read_write(data, pos);
    lemma_u32_read_write(data, pos + 4);
    assert(u64_bytes(x) == u32_bytes(lo) + u32_bytes(hi));
    assert(data.subrange(pos, pos + 4) + data.subrange(pos + 4, pos + 8) =~= data.subrange(
        pos,
        pos + 8,
    ));
}

/// The two's complement reading of bits is one to one.
pub proof fn lemma_signed_bits(a: u16, b: u32, c: u64)
    ensures
        u16_of(i16_of(a)) == a,
        u32_of(i32_of(b)) == b,
        u64_of(i64_of(c)) == c,
{
}

/// What reading `n` bytes of UTF-8 text at `pos` gives.
pub open spec fn parse_string_u8(
    data: Seq<u8>,
    pos: int,
    n: int,
) -> core::result::Result<(Seq<char>, int), RLibError> {
    if !has_bytes(data, pos, n) {
        Err(RLibError::DecodingNotEnoughBytes)
    } else if !valid_utf8(data.subrange(pos, pos + n)) {
        Err(RLibError::DecodingStringU8Error)
    } else {
        Ok((decode_utf8(data.subrange(pos, pos + n)), pos + n))
    }
}

/// What reading a UTF-8 text with a 16-bit length in front gives; the length counts bytes.
pub open spec fn parse_sized_string_u8(
    data: Seq<u8>,
    pos: int,
) -> core::result::Result<(Seq<char>, int), RLibError> {
    match parse_u16(data, pos) {
        Ok((n, p)) => parse_string_u8(data, p, n as int),
        Err(e) => Err(e),
    }
}

/// The `n` 16-bit code units that start at `pos`.
pub open spec fn le_u16_units(data: Seq<u8>, pos: int, n: int) -> Seq<u16> {
    Seq::new(n as nat, |k: int| le_u16(data, pos + 2 * k))
}

/// What reading `n` code units of UTF-16 text at `pos` gives.
pub open spec fn parse_string_u16(
    data: Seq<u8>,
    pos: int,
    n: int,
) -> core::result::Result<(Seq<char>, int), RLibError> {
    if !has_bytes(data, pos, 2 * n) {
        Err(RLibError::DecodingNotEnoughBytes)
    } else {
        match utf16_decode(le_u16_units(data, pos, n)) {
            Some(text) => Ok((text, pos + 2 * n)),
            None => Err(RLibError::DecodingStringU16Error),
        }
    }
}

/// What reading a UTF-16 text with a 16-bit length in front gives; the length counts code
/// units.
pub open spec fn parse_sized_string_u16(
    data: Seq<u8>,
    pos: int,
) -> core::result::Result<(Seq<char>, int), RLibError> {
    match parse_u16(data, pos) {
        Ok((n, p)) => parse_string_u16(data, p, n as int),
        Err(e) => Err(e),
    }
}

/// The position of the first zero byte at or behind `pos`, or the length of the buffer
/// where there is none.
pub open spec fn first_zero(data: Seq<u8>, pos: int) -> int
    decreases data.len() - pos,
{
    if pos < 0 || pos >= data.len() {
        data.len() as int
    } else if data[pos] == 0 {
        pos
    } else {
        first_zero(data, pos + 1)
    }
}

/// What reading a UTF-8 text that ends with a zero byte gives. The zero byte must be there.
pub open spec fn parse_string_u8_0terminated(
    data: Seq<u8>,
    pos: int,
) -> core::result::Result<(Seq<char>, int), RLibError> {
    let end = first_zero(data, pos);
    if pos < 0 || end >= data.len() {
        Err(RLibError::DecodingNotEnoughBytes)
    } else {
        match parse_string_u8(data, pos, end - pos) {
            Ok((text, _)) => Ok((text, end + 1)),
            Err(e) => Err(e),
        }
    }
}

/// What reading a UTF-8 text from a slot of `size` bytes gives: the text ends at the first
/// zero byte of the slot, or fills it.
pub open spec fn parse_string_u8_0padded(
    data: Seq<u8>,
    pos: int,
    size: int,
) -> core::result::Result<(Seq<char>, int), RLibError> {
    if !has_bytes(data, pos, size) {
        Err(RLibError::DecodingNotEnoughBytes)
    } else {
        let end = first_zero(data.subrange(pos, pos + size), 0);
        match parse_string_u8(data, pos, end) {
            Ok((text, _)) => Ok((text, pos + size)),
            Err(e) => Err(e),
        }
    }
}

/// What reading an optional UTF-8 text gives: a boolean, and the sized text where it is
/// true, no text where it is false.
pub open spec fn parse_optional_string_u8(
    data: Seq<u8>,
    pos: int,
) -> core::result::Result<(Seq<char>, int), RLibError> {
    match parse_bool(data, pos) {
        Ok((present, p)) => if present {
            parse_sized_string_u8(data, p)
        } else {
            Ok((Seq::empty(), p))
        },
        Err(e) => Err(e),
    }
}

/// What reading an optional UTF-16 text gives.
pub open spec fn parse_optional_string_u16(
    data: Seq<u8>,
    pos: int,
) -> core::result::Result<(Seq<char>, int), RLibError> {
    match parse_bool(data, pos) {
        Ok((present, p)) => if present {
            parse_sized_string_u16(data, p)
        } else {
            Ok((Seq::empty(), p))
        },
        Err(e) => Err(e),
    }
}

/// What reading an optional 16-bit integer gives: a boolean, then the integer in any case.
pub open spec fn parse_optional_i16(
    data: Seq<u8>,
    pos: int,
) -> core::result::Result<(i16, int), RLibError> {
    match parse_bool(data, pos) {
        Ok((_, p)) => parse_i16(data, p),
        Err(e) => Err(e),
    }
}

/// What reading an optional 32-bit integer gives: a boolean, then the integer in any case.
pub open spec fn parse_optional_i32(
    data: Seq<u8>,
    pos: int,
) -> core::result::Result<(i32, int), RLibError> {
    match parse_bool(data, pos) {
        Ok((_, p)) => parse_i32(data, p),
        Err(e) => Err(e),
    }
}

/// What reading an optional 64-bit integer gives: a boolean, then the integer in any case.
pub open spec fn parse_optional_i64(
    data: Seq<u8>,
    pos: int,
) -> core::result::Result<(i64, int), RLibError> {
    match parse_bool(data, pos) {
        Ok((_, p)) => parse_i64(data, p),
        Err(e) => Err(e),
    }
}

/// What reading a colour gives: a 32-bit number, written in upper-case hexadecimal with six
/// digits at least.
pub open spec fn parse_colour_rgb(
    data: Seq<u8>,
    pos: int,
) -> core::result::Result<(Seq<char>, int), RLibError> {
    match parse_u32(data, pos) {
        Ok((v, p)) => Ok((hex_upper(v as nat, 6), p)),
        Err(e) => Err(e),
    }
}

/// Reads `n` bytes of UTF-8 text.
pub fn read_string_u8(data: &[u8], index: &mut usize, n: usize) -> (r: Result<String>)
    ensures
        reads_text(r, *old(index), *final(index), parse_string_u8(data@, *old(index) as int, n as int)),
{
    let start: usize = *index;
    match read_slice(data, index, n) {
        Ok(bytes) => match string_from_utf8(bytes) {
            Some(s) => Ok(s),
            None => {
                *index = start;
                Err(RLibError::DecodingStringU8Error)
            },
        },
        Err(e) => Err(e),
    }
}

/// Reads a UTF-8 text with its 16-bit length in front.
pub fn read_sized_string_u8(data: &[u8], index: &mut usize) -> (r: Result<String>)
    ensures
        reads_text(r, *old(index), *final(index), parse_sized_string_u8(data@, *old(index) as int)),
{
    let start: usize = *index;
    match read_u16(data, index) {
        Ok(n) => match read_string_u8(data, index, n as usize) {
            Ok(s) => Ok(s),
            Err(e) => {
                *index = start;
                Err(e)
            },
        },
        Err(e) => Err(e),
    }
}

/// Reads `n` code units of UTF-16 text.
#[verifier::rlimit(40)]
pub fn read_string_u16(data: &[u8], index: &mut usize, n: usize) -> (r: Result<String>)
    ensures
        reads_text(r, *old(index), *final(index), parse_string_u16(data@, *old(index) as int, n as int)),
{
    let start: usize = *index;
    if !(start <= data.len() && (data.len() - start) / 2 >= n) {
        return Err(RLibError::DecodingNotEnoughBytes);
    }
    let mut units: Vec<u16> = Vec::new();
    let mut pos: usize = start;
    let mut k: usize = 0;
    while k < n
        invariant
            k <= n,
            start + 2 * n <= data@.len(),
            pos == start + 2 * k,
            units@ == le_u16_units(data@, start as int, k as int),
        decreases n - k,
    {
        let r = read_u16(data, &mut pos);
        let u: u16 = match r {
            Ok(u) => u,
            Err(_) => 0,
        };
        units.push(u);
        k = k + 1;
        assert(units@ =~= le_u16_units(data@, start as int, k as int));
    }
    match decode_utf16(units.as_slice()) {
        Some(s) => {
            *index = pos;
            Ok(s)
        },
        None => Err(RLibError::DecodingStringU16Error),
    }
}

/// Reads a UTF-16 text with its 16-bit length in front.
pub fn read_sized_string_u16(data: &[u8], index: &mut usize) -> (r: Result<String>)
    ensures
        reads_text(r, *old(index), *final(index), parse_sized_string_u16(data@, *old(index) as int)),
{
    let start: usize = *index;
    match read_u16(data, index) {
        Ok(n) => match read_string_u16(data, index, n as usize) {
            Ok(s) => Ok(s),
            Err(e) => {
                *index = start;
                Err(e)
            },
        },
        Err(e) => Err(e),
    }
}

/// Finds the first zero byte at or behind `pos`.
pub fn find_zero(data: &[u8], pos: usize) -> (r: usize)
    ensures
        r == first_zero(data@, pos as int),
        pos <= data@.len() ==> pos <= r <= data@.len(),
{
    let n: usize = data.len();
    let mut i: usize = pos;
    while i < n && data[i] != 0
        invariant
            n == data@.len(),
            pos <= i,
            i <= n || pos > n,
            first_zero(data@, pos as int) == first_zero(data@, i as int),
        decreases n - i,
    {
        i = i + 1;
    }
    if i >= n {
        n
    } else {
        i
    }
}

/// Reads a UTF-8 text that ends with a zero byte.
pub fn read_string_u8_0terminated(data: &[u8], index: &mut usize) -> (r: Result<String>)
    ensures
        reads_text(
            r,
            *old(index),
            *final(index),
            parse_string_u8_0terminated(data@, *old(index) as int),
        ),
{
    let start: usize = *index;
    let end: usize = find_zero(data, start);
    if end >= data.len() {
        return Err(RLibError::DecodingNotEnoughBytes);
    }
    match read_string_u8(data, index, end - start) {
        Ok(s) => {
            *index = end + 1;
            Ok(s)
        },
        Err(e) => Err(e),
    }
}

/// Reads a UTF-8 text from a slot of `size` bytes, padded with zeros.
pub fn read_string_u8_0padded(data: &[u8], index: &mut usize, size: usize) -> (r: Result<String>)
    ensures
        reads_text(
            r,
            *old(index),
            *final(index),
            parse_string_u8_0padded(data@, *old(index) as int, size as int),
        ),
{
    let start: usize = *index;
    if !(start <= data.len() && data.len() - start >= size) {
        return Err(RLibError::DecodingNotEnoughBytes);
    }
    let total: usize = data.len();
    let mut len: usize = 0;
    while len < size && data[start + len] != 0
        invariant
            len <= size,
            start + size <= data@.len() == total,
            first_zero(data@.subrange(start as int, start + size), 0) == first_zero(
                data@.subrange(start as int, start + size),
                len as int,
            ),
        decreases size - len,
    {
        len = len + 1;
    }
    match read_string_u8(data, index, len) {
        Ok(s) => {
            *index = start + size;
            Ok(s)
        },
        Err(e) => Err(e),
    }
}

/// Reads an optional UTF-8 text.
pub fn read_optional_string_u8(data: &[u8], index: &mut usize) -> (r: Result<String>)
    ensures
        reads_text(r, *old(index), *final(index), parse_optional_string_u8(data@, *old(index) as int)),
{
    let start: usize = *index;
    match read_bool(data, index) {
        Ok(present) => if present {
            match read_sized_string_u8(data, index) {
                Ok(s) => Ok(s),
                Err(e) => {
                    *index = start;
                    Err(e)
                },
            }
        } else {
            Ok(String::new())
        },
        Err(e) => Err(e),
    }
}

/// Reads an optional UTF-16 text.
pub fn read_optional_string_u16(data: &[u8], index: &mut usize) -> (r: Result<String>)
    ensures
        reads_text(r, *old(index), *final(index), parse_optional_string_u16(data@, *old(index) as int)),
{
    let start: usize = *index;
    match read_bool(data, index) {
        Ok(present) => if present {
            match read_sized_string_u16(data, index) {
                Ok(s) => Ok(s),
                Err(e) => {
                    *index = start;
                    Err(e)
                },
            }
        } else {
            Ok(String::new())
        },
        Err(e) => Err(e),
    }
}

/// Reads an optional 16-bit integer.
pub fn read_optional_i16(data: &[u8], index: &mut usize) -> (r: Result<i16>)
    ensures
        reads(r, *old(index), *final(index), parse_optional_i16(data@, *old(index) as int)),
{
    let start: usize = *index;
    match read_bool(data, index) {
        Ok(_) => match read_i16(data, index) {
            Ok(v) => Ok(v),
            Err(e) => {
                *index = start;
                Err(e)
            },
        },
        Err(e) => Err(e),
    }
}

/// Reads an optional 32-bit integer.
pub fn read_optional_i32(data: &[u8], index: &mut usize) -> (r: Result<i32>)
    ensures
        reads(r, *old(index), *final(index), parse_optional_i32(data@, *old(index) as int)),
{
    let start: usize = *index;
    match read_bool(data, index) {
        Ok(_) => match read_i32(data, index) {
            Ok(v) => Ok(v),
            Err(e) => {
                *index = start;
                Err(e)
            },
        },
        Err(e) => Err(e),
    }
}

/// Reads an optional 64-bit integer.
pub fn read_optional_i64(data: &[u8], index: &mut usize) -> (r: Result<i64>)
    ensures
        reads(r, *old(index), *final(index), parse_optional_i64(data@, *old(index) as int)),
{
    let start: usize = *index;
    match read_bool(data, index) {
        Ok(_) => match read_i64(data, index) {
            Ok(v) => Ok(v),
            Err(e) => {
                *index = start;
                Err(e)
            },
        },
        Err(e) => Err(e),
    }
}

/// Reads a colour as hexadecimal text.
pub fn read_string_colour_rgb(data: &[u8], index: &mut usize) -> (r: Result<String>)
    ensures
        reads_text(r, *old(index), *final(index), parse_colour_rgb(data@, *old(index) as int)),
{
    match read_u32(data, index) {
        Ok(v) => {
            let mut out: Vec<char> = Vec::new();
            push_hex(&mut out, v, 6);
            assert(out@ =~= hex_upper(v as nat, 6));
            Ok(string_from_chars(out.as_slice()))
        },
        Err(e) => Err(e),
    }
}

/// The bytes of 16-bit code units, each lowest byte first.
pub open spec fn units_bytes(units: Seq<u16>) -> Seq<u8>
    decreases units.len(),
{
    if units.len() == 0 {
        Seq::empty()
    } else {
        units_bytes(units.drop_last()) + u16_bytes(units.last())
    }
}

/// The bytes of a UTF-8 text with its length in front.
pub open spec fn sized_string_u8_bytes(s: Seq<char>) -> Seq<u8> {
    u16_bytes(encode_utf8(s).len() as u16) + encode_utf8(s)
}

/// The bytes of a UTF-16 text with its length in front.
pub open spec fn sized_string_u16_bytes(s: Seq<char>) -> Seq<u8> {
    u16_bytes(utf16_encode(s).len() as u16) + units_bytes(utf16_encode(s))
}

/// The bytes of an optional UTF-8 text: absent where the text is empty.
pub open spec fn optional_string_u8_bytes(s: Seq<char>) -> Seq<u8> {
    if s.len() == 0 {
        seq![0u8]
    } else {
        seq![1u8] + sized_string_u8_bytes(s)
    }
}

/// The bytes of an optional UTF-16 text: absent where the text is empty.
pub open spec fn optional_string_u16_bytes(s: Seq<char>) -> Seq<u8> {
    if s.len() == 0 {
        seq![0u8]
    } else {
        seq![1u8] + sized_string_u16_bytes(s)
    }
}

/// `n` zero bytes.
pub open spec fn zeros(n: int) -> Seq<u8> {
    Seq::new(n as nat, |i: int| 0u8)
}

/// Appends the UTF-8 bytes of a text, with nothing in front or behind.
pub fn write_string_u8(buffer: &mut Vec<u8>, s: &str)
    ensures
        final(buffer)@ == old(buffer)@ + encode_utf8(s@),
{
    write_all(buffer, s.as_bytes());
}

/// Appends a UTF-8 text with its 16-bit length in front. Fails, and appends nothing, where
/// the text has more than 65535 bytes.
pub fn write_sized_string_u8(buffer: &mut Vec<u8>, s: &str) -> (r: Result<()>)
    ensures
        encode_utf8(s@).len() <= 0xFFFF ==> r is Ok && final(buffer)@ == old(buffer)@
            + sized_string_u8_bytes(s@),
        encode_utf8(s@).len() > 0xFFFF ==> r == Err::<(), RLibError>(
            RLibError::EncodingStringTooLong(encode_utf8(s@).len() as usize),
        ) && final(buffer)@ == old(buffer)@,
{
    let bytes = s.as_bytes();
    if bytes.len() > 0xFFFF {
        return Err(RLibError::EncodingStringTooLong(bytes.len()));
    }
    write_u16(buffer, bytes.len() as u16);
    write_all(buffer, bytes);
    assert(buffer@ =~= old(buffer)@ + sized_string_u8_bytes(s@));
    Ok(())
}

/// Appends 16-bit code units.
pub fn write_units(buffer: &mut Vec<u8>, units: &[u16])
    ensures
        final(buffer)@ == old(buffer)@ + units_bytes(units@),
{
    let mut i: usize = 0;
    assert(old(buffer)@ + units_bytes(units@.subrange(0, 0)) =~= old(buffer)@);
    while i < units.len()
        invariant
            i <= units@.len(),
            buffer@ == old(buffer)@ + units_bytes(units@.subrange(0, i as int)),
        decreases units@.len() - i,
    {
        proof {
            assert(units@.subrange(0, i + 1).drop_last() =~= units@.subrange(0, i as int));
            assert(units@.subrange(0, i + 1).last() == units@[i as int]);
        }
        let ghost before = buffer@;
        write_u16(buffer, units[i]);
        i = i + 1;
        assert(buffer@ =~= old(buffer)@ + units_bytes(units@.subrange(0, i as int)));
    }
    assert(units@.subrange(0, units@.len() as int) =~= units@);
}

/// Appends a UTF-16 text with its 16-bit length in front. Fails, and appends nothing, where
/// the text has more than 65535 code units.
pub fn write_sized_string_u16(buffer: &mut Vec<u8>, s: &str) -> (r: Result<()>)
    ensures
        utf16_encode(s@).len() <= 0xFFFF ==> r is Ok && final(buffer)@ == old(buffer)@
            + sized_string_u16_bytes(s@),
        utf16_encode(s@).len() > 0xFFFF ==> r == Err::<(), RLibError>(
            RLibError::EncodingStringTooLong(utf16_encode(s@).len() as usize),
        ) && final(buffer)@ == old(buffer)@,
{
    let units = encode_utf16(s);
    if units.len() > 0xFFFF {
        return Err(RLibError::EncodingStringTooLong(units.len()));
    }
    write_u16(buffer, units.len() as u16);
    write_units(buffer, units.as_slice());
    assert(buffer@ =~= old(buffer)@ + sized_string_u16_bytes(s@));
    Ok(())
}

/// Appends a UTF-8 text and a zero byte.
pub fn write_string_u8_0terminated(buffer: &mut Vec<u8>, s: &str)
    ensures
        final(buffer)@ == old(buffer)@ + encode_utf8(s@) + seq![0u8],
{
    write_all(buffer, s.as_bytes());
    buffer.push(0);
    assert(buffer@ =~= old(buffer)@ + encode_utf8(s@) + seq![0u8]);
}

/// Appends a UTF-8 text into a slot of `size` bytes, padded with zeros. Fails, and appends
/// nothing, where the text does not fit.
pub fn write_string_u8_0padded(buffer: &mut Vec<u8>, s: &str, size: usize) -> (r: Result<()>)
    ensures
        encode_utf8(s@).len() <= size ==> r is Ok && final(buffer)@ == old(buffer)@ + encode_utf8(
            s@,
        ) + zeros(size - encode_utf8(s@).len()),
        encode_utf8(s@).len() > size ==> r == Err::<(), RLibError>(
            RLibError::EncodingStringTooLong(encode_utf8(s@).len() as usize),
        ) && final(buffer)@ == old(buffer)@,
{
    let bytes = s.as_bytes();
    if bytes.len() > size {
        return Err(RLibError::EncodingStringTooLong(bytes.len()));
    }
    write_all(buffer, bytes);
    let ghost mid = buffer@;
    let mut i: usize = bytes.len();
    while i < size
        invariant
            bytes@.len() <= i <= size,
            buffer@ == mid + zeros(i - bytes@.len()),
        decreases size - i,
    {
        buffer.push(0);
        i = i + 1;
        assert(buffer@ =~= mid + zeros(i - bytes@.len()));
    }
    Ok(())
}

/// Appends an optional UTF-8 text.
pub fn write_optional_string_u8(buffer: &mut Vec<u8>, s: &str) -> (r: Result<()>)
    ensures
        encode_utf8(s@).len() <= 0xFFFF ==> r is Ok && final(buffer)@ == old(buffer)@
            + optional_string_u8_bytes(s@),
        encode_utf8(s@).len() > 0xFFFF ==> r == Err::<(), RLibError>(
            RLibError::EncodingStringTooLong(encode_utf8(s@).len() as usize),
        ) && final(buffer)@ == old(buffer)@,
{
    if s.is_empty() {
        buffer.push(0);
        assert(encode_utf8(s@).len() == 0) by {
            assert(s@ =~= Seq::<char>::empty());
        }
        assert(buffer@ =~= old(buffer)@ + optional_string_u8_bytes(s@));
        Ok(())
    } else if s.as_bytes().len() > 0xFFFF {
        Err(RLibError::EncodingStringTooLong(s.as_bytes().len()))
    } else {
        buffer.push(1);
        let r = write_sized_string_u8(buffer, s);
        assert(buffer@ =~= old(buffer)@ + optional_string_u8_bytes(s@));
        r
    }
}

/// Appends an optional UTF-16 text.
pub fn write_optional_string_u16(buffer: &mut Vec<u8>, s: &str) -> (r: Result<()>)
    ensures
        utf16_encode(s@).len() <= 0xFFFF ==> r is Ok && final(buffer)@ == old(buffer)@
            + optional_string_u16_bytes(s@),
        utf16_encode(s@).len() > 0xFFFF ==> r == Err::<(), RLibError>(
            RLibError::EncodingStringTooLong(utf16_encode(s@).len() as usize),
        ) && final(buffer)@ == old(buffer)@,
{
    if s.is_empty() {
        buffer.push(0);
        assert(s@ =~= Seq::<char>::empty());
        assert(buffer@ =~= old(buffer)@ + optional_string_u16_bytes(s@));
        Ok(())
    } else {
        let units = encode_utf16(s);
        if units.len() > 0xFFFF {
            return Err(RLibError::EncodingStringTooLong(units.len()));
        }
        buffer.push(1);
        write_u16(buffer, units.len() as u16);
        write_units(buffer, units.as_slice());
        assert(buffer@ =~= old(buffer)@ + optional_string_u16_bytes(s@));
        Ok(())
    }
}

/// Appends an optional 16-bit integer: a true byte and the integer.
pub fn write_optional_i16(buffer: &mut Vec<u8>, v: i16)
    ensures
        final(buffer)@ == old(buffer)@ + seq![1u8] + u16_bytes(u16_of(v)),
{
    buffer.push(1);
    write_i16(buffer, v);
}

/// Appends an optional 32-bit integer: a true byte and the integer.
pub fn write_optional_i32(buffer: &mut Vec<u8>, v: i32)
    ensures
        final(buffer)@ == old(buffer)@ + seq![1u8] + u32_bytes(u32_of(v)),
{
    buffer.push(1);
    write_i32(buffer, v);
}

/// Appends an optional 64-bit integer: a true byte and the integer.
pub fn write_optional_i64(buffer: &mut Vec<u8>, v: i64)
    ensures
        final(buffer)@ == old(buffer)@ + seq![1u8] + u64_bytes(u64_of(v)),
{
    buffer.push(1);
    write_i64(buffer, v);
}

/// Appends a colour given as hexadecimal text. Fails, and appends nothing, where the text is
/// no hexadecimal number of 32 bits.
pub fn write_string_colour_rgb(buffer: &mut Vec<u8>, s: &str) -> (r: Result<()>)
    ensures
        match parse_hex_u32(s@) {
            Some(v) => r is Ok && final(buffer)@ == old(buffer)@ + u32_bytes(v),
            None => r == Err::<(), RLibError>(RLibError::DecodingNumberError) && final(buffer)@
                == old(buffer)@,
        },
{
    match hex_to_u32(s) {
        Some(v) => {
            write_u32(buffer, v);
            Ok(())
        },
        None => Err(RLibError::DecodingNumberError),
    }
}

/// The byte of a boolean.
pub open spec fn bool_bytes(v: bool) -> Seq<u8> {
    seq![if v { 1u8 } else { 0u8 }]
}

/// Writing back a boolean that was read gives the byte that was read.
pub proof fn lemma_bool_read_write(data: Seq<u8>, pos: int)
    requires
        parse_bool(data, pos) is Ok,
    ensures
        bool_bytes(parse_bool(data, pos)->Ok_0.0) == data.subrange(pos, pos + 1),
        parse_bool(data, pos)->Ok_0.1 == pos + 1,
{
    assert(bool_bytes(parse_bool(data, pos)->Ok_0.0) =~= data.subrange(pos, pos + 1));
}

/// Writing back a byte that was read gives the byte that was read.
pub proof fn lemma_u8_read_write(data: Seq<u8>, pos: int)
    requires
        parse_u8(data, pos) is Ok,
    ensures
        seq![parse_u8(data, pos)->Ok_0.0] == data.subrange(pos, pos + 1),
        parse_u8(data, pos)->Ok_0.1 == pos + 1,
{
    assert(seq![parse_u8(data, pos)->Ok_0.0] =~= data.subrange(pos, pos + 1));
}

/// Writing back a signed number that was read gives the bytes that were read.
pub proof fn lemma_signed_read_write(data: Seq<u8>, pos: int)
    ensures
        parse_i16(data, pos) is Ok ==> u16_bytes(u16_of(parse_i16(data, pos)->Ok_0.0))
            == data.subrange(pos, pos + 2),
        parse_i32(data, pos) is Ok ==> u32_bytes(u32_of(parse_i32(data, pos)->Ok_0.0))
            == data.subrange(pos, pos + 4),
        parse_i64(data, pos) is Ok ==> u64_bytes(u64_of(parse_i64(data, pos)->Ok_0.0))
            == data.subrange(pos, pos + 8),
{
    if parse_i16(data, pos) is Ok {
        lemma_u16_read_write(data, pos);
    }
    if parse_i32(data, pos) is Ok {
        lemma_u32_read_write(data, pos);
    }
    if parse_i64(data, pos) is Ok {
        lemma_u64_read_write(data, pos);
    }
}

/// Writing back a text that was read gives the bytes that were read.
pub proof fn lemma_sized_string_u8_read_write(data: Seq<u8>, pos: int)
    requires
        parse_sized_string_u8(data, pos) is Ok,
    ensures
        sized_string_u8_bytes(parse_sized_string_u8(data, pos)->Ok_0.0) == data.subrange(
            pos,
            parse_sized_string_u8(data, pos)->Ok_0.1,
        ),
        pos + 2 <= parse_sized_string_u8(data, pos)->Ok_0.1 <= data.len(),
{
    let n = le_u16(data, pos) as int;
    let bytes = data.subrange(pos + 2, pos + 2 + n);
    lemma_u16_read_write(data, pos);
    decode_utf8_encode_utf8(bytes);
    assert(data.subrange(pos, pos + 2) + bytes =~= data.subrange(pos, pos + 2 + n));
}

/// Bytes that lie side by side are one run of bytes.
pub proof fn lemma_subrange_join(data: Seq<u8>, a: int, b: int, c: int)
    requires
        0 <= a <= b <= c <= data.len(),
    ensures
        data.subrange(a, b) + data.subrange(b, c) == data.subrange(a, c),
{
    assert(data.subrange(a, b) + data.subrange(b, c) =~= data.subrange(a, c));
}

/// The bytes of the code units that were read are the bytes that they were read from.
pub proof fn lemma_units_read_write(data: Seq<u8>, pos: int, n: int)
    requires
        0 <= n,
        has_bytes(data, pos, 2 * n),
    ensures
        units_bytes(le_u16_units(data, pos, n)) == data.subrange(pos, pos + 2 * n),
    decreases n,
{
    let units = le_u16_units(data, pos, n);
    if n == 0 {
        assert(data.subrange(pos, pos) =~= Seq::<u8>::empty());
    } else {
        lemma_units_read_write(data, pos, n - 1);
        assert(units.drop_last() =~= le_u16_units(data, pos, n - 1));
        lemma_u16_read_write(data, pos + 2 * (n - 1));
        lemma_subrange_join(data, pos, pos + 2 * (n - 1), pos + 2 * n);
    }
}

/// Writing back a UTF-16 text that was read gives the bytes that were read.
pub proof fn lemma_sized_string_u16_read_write(data: Seq<u8>, pos: int)
    requires
        parse_sized_string_u16(data, pos) is Ok,
    ensures
        sized_string_u16_bytes(parse_sized_string_u16(data, pos)->Ok_0.0) == data.subrange(
            pos,
            parse_sized_string_u16(data, pos)->Ok_0.1,
        ),
        utf16_encode(parse_sized_string_u16(data, pos)->Ok_0.0).len() <= 0xFFFF,
        pos + 2 <= parse_sized_string_u16(data, pos)->Ok_0.1 <= data.len(),
{
    let n = le_u16(data, pos) as int;
    let units = le_u16_units(data, pos + 2, n);
    lemma_u16_read_write(data, pos);
    lemma_units_read_write(data, pos + 2, n);
    lemma_utf16_round_trip(units, 0);
    assert(units.subrange(0, units.len() as int) =~= units);
    lemma_subrange_join(data, pos, pos + 2, pos + 2 + 2 * n);
}

} // verus!
