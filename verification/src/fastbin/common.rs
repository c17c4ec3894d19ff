//! Pieces that several blocks are made of.

use vstd::prelude::*;
use vstd::utf8::encode_utf8;

use crate::binary::{
    bool_bytes, has_bytes, lemma_bool_read_write, lemma_signed_read_write,
    lemma_sized_string_u8_read_write, lemma_subrange_join, lemma_u16_read_write,
    lemma_u32_read_write, lemma_u64_read_write, lemma_u8_read_write, parse_bool, parse_i16,
    parse_i32, parse_sized_string_u8, parse_u16, parse_u32, parse_u64, parse_u8, read_bool,
    read_i16, read_i32, read_sized_string_u8, read_u16, read_u32, read_u64, read_u8,
    sized_string_u8_bytes, u16_bytes, u16_of, u32_bytes, u32_of, u64_bytes, write_u32,
};
use crate::error::{RLibError, Result};
use crate::fastbin::prefix::{lemma_join, lemma_u32_prefix};
use crate::fastbin::read_back::{
    after, lemma_numbers_read_back, lemma_split, lemma_stands, lemma_stands_at_start,
    lemma_u32_read_back, stands,
};

verus! {

/// What stands against writing a text with a 16-bit length in front, where anything does.
pub open spec fn text_fault(s: Seq<char>) -> Option<RLibError> {
    if encode_utf8(s).len() > 0xFFFF {
        Some(RLibError::EncodingStringTooLong(encode_utf8(s).len() as usize))
    } else {
        None
    }
}

/// The first of two faults.
pub open spec fn or_fault(a: Option<RLibError>, b: Option<RLibError>) -> Option<RLibError> {
    if a is Some {
        a
    } else {
        b
    }
}

/// Where reading `n` 32-bit numbers at `pos` ends.
pub open spec fn numbers_end(data: Seq<u8>, pos: int, n: int) -> core::result::Result<
    int,
    RLibError,
> {
    if has_bytes(data, pos, 4 * n) {
        Ok(pos + 4 * n)
    } else {
        Err(RLibError::DecodingNotEnoughBytes)
    }
}

/// Where reading a text with its length in front ends.
pub open spec fn text_end(data: Seq<u8>, pos: int) -> core::result::Result<int, RLibError> {
    match parse_sized_string_u8(data, pos) {
        Ok((_, next)) => Ok(next),
        Err(e) => Err(e),
    }
}

/// Where reading a boolean ends.
pub open spec fn bool_end(data: Seq<u8>, pos: int) -> core::result::Result<int, RLibError> {
    match parse_bool(data, pos) {
        Ok((_, next)) => Ok(next),
        Err(e) => Err(e),
    }
}

/// A piece of a block that can be read from bytes and written back.
pub trait Block: Sized {
    /// The bytes that the piece is written as.
    spec fn spec_bytes(&self) -> Seq<u8>;

    /// What stands against writing the piece, where anything does.
    spec fn spec_fault(&self) -> Option<RLibError>;

    /// Where reading a piece at `pos` ends, or why it cannot be read.
    spec fn spec_end(data: Seq<u8>, pos: int) -> core::result::Result<int, RLibError>;

    /// Reads a piece at `*index` and moves the cursor behind it. The piece that was read
    /// can be written, and writing it gives the bytes that it was read from. On failure the
    /// cursor stays where it was.
    fn decode(data: &[u8], index: &mut usize) -> (r: Result<Self>)
        ensures
            match Self::spec_end(data@, *old(index) as int) {
                Ok(end) => r is Ok && *final(index) == end && *old(index) <= end <= data@.len()
                    && r->Ok_0.spec_fault() is None && r->Ok_0.spec_bytes() == data@.subrange(
                    *old(index) as int,
                    end,
                ),
                Err(e) => r == Err::<Self, RLibError>(e) && *final(index) == *old(index),
            },
    ;

    /// Appends the bytes of the piece. On failure nothing is appended.
    fn encode(&self, buffer: &mut Vec<u8>) -> (r: Result<()>)
        ensures
            match self.spec_fault() {
                None => r is Ok && final(buffer)@ == old(buffer)@ + self.spec_bytes(),
                Some(e) => r == Err::<(), RLibError>(e) && final(buffer)@ == old(buffer)@,
            },
    ;

    /// True when the two pieces hold the same in all that is written of them.
    spec fn spec_same(&self, other: &Self) -> bool;

    /// The bytes of a piece tell what it holds, whatever follows them: of two pieces that
    /// can be written, where the bytes of `a` before `x` are the bytes of `b` before `y`,
    /// the two hold the same, and `x` is `y`.
    proof fn lemma_same(a: Self, b: Self, x: Seq<u8>, y: Seq<u8>)
        requires
            a.spec_fault() is None,
            b.spec_fault() is None,
            a.spec_bytes() + x == b.spec_bytes() + y,
        ensures
            a.spec_same(&b),
            a.spec_bytes() == b.spec_bytes(),
            x == y,
    ;

    /// What was written can be read: where the bytes of a piece that can be written stand
    /// in `data` from `pos` to `end`, reading at `pos` ends at `end`.
    proof fn lemma_read_back(a: Self, data: Seq<u8>, pos: int, end: int)
        requires
            a.spec_fault() is None,
            stands(data, pos, end, a.spec_bytes()),
        ensures
            Self::spec_end(data, pos) == Ok::<int, RLibError>(end),
    ;
}

/// A piece that was read is the only one that its bytes can stand for: any piece that can
/// be written and is written as the same bytes holds the same.
pub proof fn lemma_decoded_is_determined<T: Block>(decoded: T, other: T)
    requires
        decoded.spec_fault() is None,
        other.spec_fault() is None,
        decoded.spec_bytes() == other.spec_bytes(),
    ensures
        decoded.spec_same(&other),
{
    T::lemma_same(decoded, other, Seq::empty(), Seq::empty());
}

/// Round trip of a piece that was written: its bytes, whatever follows them, can be read,
/// reading ends right behind them, and a piece that is read from them holds the same as
/// the piece that was written. `read` stands for what `decode` gives on those bytes.
pub proof fn lemma_written_is_read<T: Block>(a: T, read: T, rest: Seq<u8>)
    requires
        a.spec_fault() is None,
        read.spec_fault() is None,
        T::spec_end(a.spec_bytes() + rest, 0) is Ok ==> read.spec_bytes() == (a.spec_bytes()
            + rest).subrange(0, T::spec_end(a.spec_bytes() + rest, 0)->Ok_0),
    ensures
        T::spec_end(a.spec_bytes() + rest, 0) == Ok::<int, RLibError>(
            a.spec_bytes().len() as int,
        ),
        read.spec_same(&a),
{
    let data = a.spec_bytes() + rest;
    let end = a.spec_bytes().len() as int;
    lemma_stands_at_start(a.spec_bytes(), rest);
    lemma_stands(data, 0, end, a.spec_bytes());
    T::lemma_read_back(a, data, 0, end);
    T::lemma_same(read, a, Seq::empty(), Seq::empty());
}

/// The bytes of a list of pieces, one behind the other.
pub open spec fn list_bytes<T: Block>(items: Seq<T>) -> Seq<u8>
    decreases items.len(),
{
    if items.len() == 0 {
        Seq::empty()
    } else {
        list_bytes(items.drop_last()) + items.last().spec_bytes()
    }
}

/// What stands against writing a list of pieces: the fault of the first piece that has
/// one.
pub open spec fn list_fault<T: Block>(items: Seq<T>, i: int) -> Option<RLibError>
    decreases items.len() - i,
{
    if i < 0 || i >= items.len() {
        None
    } else if items[i].spec_fault() is Some {
        items[i].spec_fault()
    } else {
        list_fault(items, i + 1)
    }
}

/// Where reading `remaining` pieces from `pos` on ends.
pub open spec fn list_end<T: Block>(
    data: Seq<u8>,
    pos: int,
    remaining: nat,
) -> core::result::Result<
    int,
    RLibError,
>
    decreases remaining,
{
    if remaining == 0 {
        Ok(pos)
    } else {
        match T::spec_end(data, pos) {
            Ok(next) => list_end::<T>(data, next, (remaining - 1) as nat),
            Err(e) => Err(e),
        }
    }
}

/// The bytes of a list with its count in front.
pub open spec fn counted_bytes<T: Block>(items: Seq<T>) -> Seq<u8> {
    u32_bytes(items.len() as u32) + list_bytes(items)
}

/// What stands against writing a list with its count in front.
pub open spec fn counted_fault<T: Block>(items: Seq<T>) -> Option<RLibError> {
    if items.len() > u32::MAX {
        Some(RLibError::EncodingTooManyItems(items.len() as usize))
    } else {
        list_fault(items, 0)
    }
}

/// Where reading a list with its count in front ends.
pub open spec fn counted_end<T: Block>(data: Seq<u8>, pos: int) -> core::result::Result<
    int,
    RLibError,
> {
    match parse_u32(data, pos) {
        Ok((count, next)) => list_end::<T>(data, next, count as nat),
        Err(e) => Err(e),
    }
}

/// True when the two lists are as long as one another and hold the same, piece by piece.
pub open spec fn list_same<T: Block>(a: Seq<T>, b: Seq<T>) -> bool {
    a.len() == b.len() && forall|k: int|
        0 <= k < a.len() ==> (#[trigger] a[k]).spec_same(&b[k])
}

/// In a list without a fault from `i` on, no piece from `i` on has one.
pub proof fn lemma_list_fault_each<T: Block>(items: Seq<T>, i: int)
    requires
        0 <= i <= items.len(),
        list_fault(items, i) is None,
    ensures
        forall|k: int| i <= k < items.len() ==> (#[trigger] items[k]).spec_fault() is None,
    decreases items.len() - i,
{
    if i < items.len() {
        lemma_list_fault_each(items, i + 1);
    }
}

/// The bytes of a list of known length tell what its pieces hold, whatever follows them.
pub proof fn lemma_list_same<T: Block>(a: Seq<T>, b: Seq<T>, x: Seq<u8>, y: Seq<u8>)
    requires
        a.len() == b.len(),
        forall|k: int| 0 <= k < a.len() ==> (#[trigger] a[k]).spec_fault() is None,
        forall|k: int| 0 <= k < b.len() ==> (#[trigger] b[k]).spec_fault() is None,
        list_bytes(a) + x == list_bytes(b) + y,
    ensures
        list_same(a, b),
        list_bytes(a) == list_bytes(b),
        x == y,
    decreases a.len(),
{
    if a.len() == 0 {
        assert(x =~= list_bytes(a) + x);
        assert(y =~= list_bytes(b) + y);
    } else {
        let front_a = a.drop_last();
        let front_b = b.drop_last();
        let rest_a = a.last().spec_bytes() + x;
        let rest_b = b.last().spec_bytes() + y;
        assert(list_bytes(a) + x =~= list_bytes(front_a) + rest_a);
        assert(list_bytes(b) + y =~= list_bytes(front_b) + rest_b);
        lemma_list_same(front_a, front_b, rest_a, rest_b);
        T::lemma_same(a.last(), b.last(), x, y);
        assert forall|k: int| 0 <= k < a.len() implies (#[trigger] a[k]).spec_same(&b[k]) by {
            if k < a.len() - 1 {
                assert(a[k] == front_a[k] && b[k] == front_b[k]);
            }
        }
    }
}

/// Reading a list of pieces is reading all but the last of them, and then the last.
pub proof fn lemma_list_end_last<T: Block>(data: Seq<u8>, pos: int, n: nat)
    requires
        n > 0,
    ensures
        list_end::<T>(data, pos, n) == (match list_end::<T>(data, pos, (n - 1) as nat) {
            Ok(mid) => T::spec_end(data, mid),
            Err(e) => Err(e),
        }),
    decreases n,
{
    match T::spec_end(data, pos) {
        Ok(next) => {
            if n > 1 {
                lemma_list_end_last::<T>(data, next, (n - 1) as nat);
                assert(list_end::<T>(data, pos, (n - 1) as nat) == list_end::<T>(
                    data,
                    next,
                    (n - 2) as nat,
                ));
            } else {
                assert(list_end::<T>(data, next, 0) == Ok::<int, RLibError>(next));
                assert(list_end::<T>(data, pos, 0) == Ok::<int, RLibError>(pos));
            }
        },
        Err(_) => {
            if n > 1 {
                assert(list_end::<T>(data, pos, (n - 1) as nat) is Err);
            } else {
                assert(list_end::<T>(data, pos, 0) == Ok::<int, RLibError>(pos));
            }
        },
    }
}

/// The pieces of a list that were written can be read.
pub proof fn lemma_list_read_back<T: Block>(items: Seq<T>, data: Seq<u8>, pos: int, end: int)
    requires
        forall|k: int| 0 <= k < items.len() ==> (#[trigger] items[k]).spec_fault() is None,
        stands(data, pos, end, list_bytes(items)),
    ensures
        list_end::<T>(data, pos, items.len()) == Ok::<int, RLibError>(end),
    decreases items.len(),
{
    if items.len() > 0 {
        let front = items.drop_last();
        let mid = after(pos, list_bytes(front));
        assert forall|k: int| 0 <= k < front.len() implies (#[trigger] front[k]).spec_fault()
            is None by {
            assert(front[k] == items[k]);
        }
        lemma_split(data, pos, end, list_bytes(front), items.last().spec_bytes());
        lemma_list_read_back(front, data, pos, mid);
        T::lemma_read_back(items.last(), data, mid, end);
        lemma_list_end_last::<T>(data, pos, items.len());
        assert(list_end::<T>(data, pos, front.len()) == Ok::<int, RLibError>(mid));
        assert((items.len() - 1) as nat == front.len());
    } else {
        lemma_stands(data, pos, end, list_bytes(items));
    }
}

/// A list without faults up to `i` has the fault that it has from `i` on.
pub proof fn lemma_list_fault_none<T: Block>(items: Seq<T>, i: int)
    requires
        0 <= i <= items.len(),
        forall|k: int| 0 <= k < items.len() ==> (#[trigger] items[k]).spec_fault() is None,
    ensures
        list_fault(items, i) is None,
    decreases items.len() - i,
{
    if i < items.len() {
        lemma_list_fault_none(items, i + 1);
    }
}

/// Reads a list of pieces with its count, in 32 bits, in front.
#[verifier::rlimit(40)]
pub fn decode_list<T: Block>(data: &[u8], index: &mut usize) -> (r: Result<Vec<T>>)
    ensures
        match counted_end::<T>(data@, *old(index) as int) {
            Ok(end) => r is Ok && *final(index) == end && *old(index) <= end <= data@.len()
                && counted_fault(r->Ok_0@) is None && counted_bytes(r->Ok_0@) == data@.subrange(
                *old(index) as int,
                end,
            ),
            Err(e) => r == Err::<Vec<T>, RLibError>(e) && *final(index) == *old(index),
        },
{
    let start: usize = *index;
    let mut at: usize = start;
    proof {
        if parse_u32(data@, start as int) is Ok {
            lemma_u32_read_write(data@, start as int);
        }
    }
    let count: u32 = match read_u32(data, &mut at) {
        Ok(v) => v,
        Err(e) => {
            return Err(e);
        },
    };
    let ghost first = at as int;
    let mut items: Vec<T> = Vec::new();
    let mut left: u32 = count;
    assert(list_bytes(items@) =~= data@.subrange(first, at as int));
    while left > 0
        invariant
            first == start + 4,
            first <= at <= data@.len(),
            items@.len() + left == count,
            parse_u32(data@, start as int) == Ok::<(u32, int), RLibError>((count, first)),
            u32_bytes(count) == data@.subrange(start as int, first),
            list_end::<T>(data@, first, count as nat) == list_end::<T>(data@, at as int, left as nat),
            list_bytes(items@) == data@.subrange(first, at as int),
            forall|k: int| 0 <= k < items@.len() ==> (#[trigger] items@[k]).spec_fault() is None,
            *index == start,
        decreases left,
    {
        let ghost before = items@;
        let ghost from = at as int;
        match T::decode(data, &mut at) {
            Ok(item) => {
                items.push(item);
                proof {
                    assert(items@.drop_last() =~= before);
                    lemma_subrange_join(data@, first, from, at as int);
                }
            },
            Err(e) => {
                return Err(e);
            },
        }
        left = left - 1;
    }
    proof {
        lemma_list_fault_none(items@, 0);
        lemma_subrange_join(data@, start as int, first, at as int);
    }
    *index = at;
    Ok(items)
}

/// Appends a list of pieces with its count, in 32 bits, in front. On failure nothing is
/// appended.
#[verifier::rlimit(40)]
pub fn encode_list<T: Block>(items: &Vec<T>, buffer: &mut Vec<u8>) -> (r: Result<()>)
    ensures
        match counted_fault(items@) {
            None => r is Ok && final(buffer)@ == old(buffer)@ + counted_bytes(items@),
            Some(e) => r == Err::<(), RLibError>(e) && final(buffer)@ == old(buffer)@,
        },
{
    let n: usize = items.len();
    if n > 0xFFFF_FFFF {
        return Err(RLibError::EncodingTooManyItems(n));
    }
    let mut out: Vec<u8> = Vec::new();
    write_u32(&mut out, n as u32);
    let ghost head = out@;
    let mut i: usize = 0;
    assert(out@ =~= head + list_bytes(items@.subrange(0, 0)));
    while i < n
        invariant
            i <= n == items@.len(),
            n <= u32::MAX,
            buffer@ == old(buffer)@,
            head == u32_bytes(n as u32),
            out@ == head + list_bytes(items@.subrange(0, i as int)),
            list_fault(items@, 0) == list_fault(items@, i as int),
        decreases n - i,
    {
        proof {
            assert(items@.subrange(0, i + 1).drop_last() =~= items@.subrange(0, i as int));
            assert(items@.subrange(0, i + 1).last() == items@[i as int]);
        }
        match items[i].encode(&mut out) {
            Ok(()) => {},
            Err(e) => {
                return Err(e);
            },
        }
        i = i + 1;
        assert(out@ =~= head + list_bytes(items@.subrange(0, i as int)));
    }
    assert(items@.subrange(0, n as int) =~= items@);
    crate::binary::write_all(buffer, out.as_slice());
    Ok(())
}

impl<T: Block> Block for Vec<T> {
    /// The bytes of the list: the count of its pieces, in 32 bits, and the pieces.
    open spec fn spec_bytes(&self) -> Seq<u8> {
        counted_bytes(self@)
    }

    /// What stands against writing the list.
    open spec fn spec_fault(&self) -> Option<RLibError> {
        counted_fault(self@)
    }

    /// Where reading a list at `pos` ends.
    open spec fn spec_end(data: Seq<u8>, pos: int) -> core::result::Result<int, RLibError> {
        counted_end::<T>(data, pos)
    }

    /// True when the two lists are as long as one another and hold the same, piece by
    /// piece.
    open spec fn spec_same(&self, other: &Self) -> bool {
        list_same(self@, other@)
    }

    proof fn lemma_same(a: Self, b: Self, x: Seq<u8>, y: Seq<u8>) {
        lemma_join(u32_bytes(a@.len() as u32), list_bytes(a@), x);
        lemma_join(u32_bytes(b@.len() as u32), list_bytes(b@), y);
        lemma_u32_prefix(
            a@.len() as u32,
            b@.len() as u32,
            list_bytes(a@) + x,
            list_bytes(b@) + y,
        );
        lemma_list_fault_each(a@, 0);
        lemma_list_fault_each(b@, 0);
        lemma_list_same(a@, b@, x, y);
    }

    proof fn lemma_read_back(a: Self, data: Seq<u8>, pos: int, end: int) {
        let mid = after(pos, u32_bytes(a@.len() as u32));
        lemma_split(data, pos, end, u32_bytes(a@.len() as u32), list_bytes(a@));
        lemma_u32_read_back(a@.len() as u32, data, pos, mid);
        lemma_list_fault_each(a@, 0);
        lemma_list_read_back(a@, data, mid, end);
    }

    fn decode(data: &[u8], index: &mut usize) -> (r: Result<Self>) {
        decode_list::<T>(data, index)
    }

    fn encode(&self, buffer: &mut Vec<u8>) -> (r: Result<()>) {
        encode_list::<T>(self, buffer)
    }
}

/// Reads one byte. What was read, written back, gives the byte that was read.
pub fn take_u8(data: &[u8], index: &mut usize) -> (r: Result<u8>)
    ensures
        match parse_u8(data@, *old(index) as int) {
            Ok((v, next)) => r == Ok::<u8, RLibError>(v) && *final(index) == next && next
                <= data@.len() && seq![v] == data@.subrange(*old(index) as int, next),
            Err(e) => r == Err::<u8, RLibError>(e) && *final(index) == *old(index),
        },
{
    proof {
        if parse_u8(data@, *index as int) is Ok {
            lemma_u8_read_write(data@, *index as int);
        }
    }
    read_u8(data, index)
}

/// Reads a boolean. What was read, written back, gives the byte that was read.
pub fn take_bool(data: &[u8], index: &mut usize) -> (r: Result<bool>)
    ensures
        match parse_bool(data@, *old(index) as int) {
            Ok((v, next)) => r == Ok::<bool, RLibError>(v) && *final(index) == next && next
                <= data@.len() && bool_bytes(v) == data@.subrange(*old(index) as int, next),
            Err(e) => r == Err::<bool, RLibError>(e) && *final(index) == *old(index),
        },
{
    proof {
        if parse_bool(data@, *index as int) is Ok {
            lemma_bool_read_write(data@, *index as int);
        }
    }
    read_bool(data, index)
}

/// Reads a 16-bit number. What was read, written back, gives the bytes that were read.
pub fn take_u16(data: &[u8], index: &mut usize) -> (r: Result<u16>)
    ensures
        match parse_u16(data@, *old(index) as int) {
            Ok((v, next)) => r == Ok::<u16, RLibError>(v) && *final(index) == next && next
                <= data@.len() && u16_bytes(v) == data@.subrange(*old(index) as int, next),
            Err(e) => r == Err::<u16, RLibError>(e) && *final(index) == *old(index),
        },
{
    proof {
        if parse_u16(data@, *index as int) is Ok {
            lemma_u16_read_write(data@, *index as int);
        }
    }
    read_u16(data, index)
}

/// Reads a 32-bit number. What was read, written back, gives the bytes that were read.
pub fn take_u32(data: &[u8], index: &mut usize) -> (r: Result<u32>)
    ensures
        match parse_u32(data@, *old(index) as int) {
            Ok((v, next)) => r == Ok::<u32, RLibError>(v) && *final(index) == next && next
                <= data@.len() && u32_bytes(v) == data@.subrange(*old(index) as int, next),
            Err(e) => r == Err::<u32, RLibError>(e) && *final(index) == *old(index),
        },
{
    proof {
        if parse_u32(data@, *index as int) is Ok {
            lemma_u32_read_write(data@, *index as int);
        }
    }
    read_u32(data, index)
}

/// Reads a 64-bit number. What was read, written back, gives the bytes that were read.
pub fn take_u64(data: &[u8], index: &mut usize) -> (r: Result<u64>)
    ensures
        match parse_u64(data@, *old(index) as int) {
            Ok((v, next)) => r == Ok::<u64, RLibError>(v) && *final(index) == next && next
                <= data@.len() && u64_bytes(v) == data@.subrange(*old(index) as int, next),
            Err(e) => r == Err::<u64, RLibError>(e) && *final(index) == *old(index),
        },
{
    proof {
        if parse_u64(data@, *index as int) is Ok {
            lemma_u64_read_write(data@, *index as int);
        }
    }
    read_u64(data, index)
}

/// Reads a signed 16-bit number. What was read, written back, gives the bytes that were
/// read.
pub fn take_i16(data: &[u8], index: &mut usize) -> (r: Result<i16>)
    ensures
        match parse_i16(data@, *old(index) as int) {
            Ok((v, next)) => r == Ok::<i16, RLibError>(v) && *final(index) == next && next
                <= data@.len() && u16_bytes(u16_of(v)) == data@.subrange(
                *old(index) as int,
                next,
            ),
            Err(e) => r == Err::<i16, RLibError>(e) && *final(index) == *old(index),
        },
{
    proof {
        lemma_signed_read_write(data@, *index as int);
    }
    read_i16(data, index)
}

/// Reads a signed 32-bit number. What was read, written back, gives the bytes that were
/// read.
pub fn take_i32(data: &[u8], index: &mut usize) -> (r: Result<i32>)
    ensures
        match parse_i32(data@, *old(index) as int) {
            Ok((v, next)) => r == Ok::<i32, RLibError>(v) && *final(index) == next && next
                <= data@.len() && u32_bytes(u32_of(v)) == data@.subrange(
                *old(index) as int,
                next,
            ),
            Err(e) => r == Err::<i32, RLibError>(e) && *final(index) == *old(index),
        },
{
    proof {
        lemma_signed_read_write(data@, *index as int);
    }
    read_i32(data, index)
}

/// Reads a text with its length in front. What was read can be written, and writing it
/// gives the bytes that were read.
pub fn take_text(data: &[u8], index: &mut usize) -> (r: Result<String>)
    ensures
        match parse_sized_string_u8(data@, *old(index) as int) {
            Ok((v, next)) => r is Ok && r->Ok_0@ == v && *final(index) == next && *old(index)
                <= next <= data@.len() && text_fault(v) is None && sized_string_u8_bytes(v)
                == data@.subrange(*old(index) as int, next),
            Err(e) => r == Err::<String, RLibError>(e) && *final(index) == *old(index),
        },
{
    proof {
        if parse_sized_string_u8(data@, *index as int) is Ok {
            lemma_sized_string_u8_read_write(data@, *index as int);
            let n = crate::binary::le_u16(data@, *index as int) as int;
            vstd::utf8::decode_utf8_encode_utf8(data@.subrange(*index + 2, *index + 2 + n));
        }
    }
    read_sized_string_u8(data, index)
}

/// Where reading `n` bytes at `pos` ends.
pub open spec fn numbers_end_bytes(data: Seq<u8>, pos: int, n: int) -> core::result::Result<
    int,
    RLibError,
> {
    if has_bytes(data, pos, n) {
        Ok(pos + n)
    } else {
        Err(RLibError::DecodingNotEnoughBytes)
    }
}

/// A transform in space: three rows of four numbers, each a float held by its bits.
#[derive(Clone, Copy, Debug, PartialEq, Eq, Structural)]
pub struct Transform {
    pub m00: u32,
    pub m01: u32,
    pub m02: u32,
    pub m10: u32,
    pub m11: u32,
    pub m12: u32,
    pub m20: u32,
    pub m21: u32,
    pub m22: u32,
    pub m30: u32,
    pub m31: u32,
    pub m32: u32,
}

/// The bytes of three numbers of 32 bits.
pub open spec fn row_bytes(a: u32, b: u32, c: u32) -> Seq<u8> {
    u32_bytes(a) + u32_bytes(b) + u32_bytes(c)
}

/// Three written numbers of 32 bits, followed by anything, tell the numbers.
pub proof fn lemma_row_prefix(a: (u32, u32, u32), b: (u32, u32, u32), x: Seq<u8>, y: Seq<u8>)
    requires
        row_bytes(a.0, a.1, a.2) + x == row_bytes(b.0, b.1, b.2) + y,
    ensures
        a == b,
        x == y,
{
    let a2 = u32_bytes(a.2) + x;
    let b2 = u32_bytes(b.2) + y;
    let a1 = u32_bytes(a.1) + a2;
    let b1 = u32_bytes(b.1) + b2;
    lemma_join(u32_bytes(a.0) + u32_bytes(a.1), u32_bytes(a.2), x);
    lemma_join(u32_bytes(b.0) + u32_bytes(b.1), u32_bytes(b.2), y);
    lemma_join(u32_bytes(a.0), u32_bytes(a.1), a2);
    lemma_join(u32_bytes(b.0), u32_bytes(b.1), b2);
    lemma_u32_prefix(a.0, b.0, a1, b1);
    lemma_u32_prefix(a.1, b.1, a2, b2);
    lemma_u32_prefix(a.2, b.2, x, y);
}

/// Reads three numbers of 32 bits. What was read, written back, gives the bytes that were
/// read.
fn take_row(data: &[u8], index: &mut usize) -> (r: (u32, u32, u32))
    requires
        *old(index) + 12 <= data@.len(),
    ensures
        *final(index) == *old(index) + 12,
        row_bytes(r.0, r.1, r.2) == data@.subrange(*old(index) as int, *old(index) + 12),
{
    let ghost mark0 = *index as int;
    let a: u32 = match take_u32(data, index) {
        Ok(v) => v,
        Err(_) => 0,
    };
    let b: u32 = match take_u32(data, index) {
        Ok(v) => v,
        Err(_) => 0,
    };
    let c: u32 = match take_u32(data, index) {
        Ok(v) => v,
        Err(_) => 0,
    };
    proof {
        lemma_subrange_join(data@, mark0, mark0 + 4, mark0 + 8);
        lemma_subrange_join(data@, mark0, mark0 + 8, mark0 + 12);
    }
    (a, b, c)
}

/// Appends three numbers of 32 bits.
fn write_row(buffer: &mut Vec<u8>, a: u32, b: u32, c: u32)
    ensures
        final(buffer)@ == old(buffer)@ + row_bytes(a, b, c),
{
    write_u32(buffer, a);
    write_u32(buffer, b);
    write_u32(buffer, c);
    assert(buffer@ =~= old(buffer)@ + row_bytes(a, b, c));
}

impl Block for Transform {
    /// The bytes of the transform: its twelve numbers, row by row.
    open spec fn spec_bytes(&self) -> Seq<u8> {
        row_bytes(self.m00, self.m01, self.m02) + row_bytes(self.m10, self.m11, self.m12)
            + row_bytes(self.m20, self.m21, self.m22) + row_bytes(self.m30, self.m31, self.m32)
    }

    /// Nothing stands against writing a transform.
    open spec fn spec_fault(&self) -> Option<RLibError> {
        None
    }

    /// Where reading a transform at `pos` ends.
    open spec fn spec_end(data: Seq<u8>, pos: int) -> core::result::Result<int, RLibError> {
        numbers_end(data, pos, 12)
    }

    /// True when the two transforms hold the same numbers.
    open spec fn spec_same(&self, other: &Self) -> bool {
        *self == *other
    }

    proof fn lemma_same(a: Self, b: Self, x: Seq<u8>, y: Seq<u8>) {
        let a3 = row_bytes(a.m30, a.m31, a.m32) + x;
        let b3 = row_bytes(b.m30, b.m31, b.m32) + y;
        let a2 = row_bytes(a.m20, a.m21, a.m22) + a3;
        let b2 = row_bytes(b.m20, b.m21, b.m22) + b3;
        let a1 = row_bytes(a.m10, a.m11, a.m12) + a2;
        let b1 = row_bytes(b.m10, b.m11, b.m12) + b2;
        let ha2 = row_bytes(a.m00, a.m01, a.m02) + row_bytes(a.m10, a.m11, a.m12);
        let hb2 = row_bytes(b.m00, b.m01, b.m02) + row_bytes(b.m10, b.m11, b.m12);
        let ha3 = ha2 + row_bytes(a.m20, a.m21, a.m22);
        let hb3 = hb2 + row_bytes(b.m20, b.m21, b.m22);
        lemma_join(ha3, row_bytes(a.m30, a.m31, a.m32), x);
        lemma_join(hb3, row_bytes(b.m30, b.m31, b.m32), y);
        lemma_join(ha2, row_bytes(a.m20, a.m21, a.m22), a3);
        lemma_join(hb2, row_bytes(b.m20, b.m21, b.m22), b3);
        lemma_join(row_bytes(a.m00, a.m01, a.m02), row_bytes(a.m10, a.m11, a.m12), a2);
        lemma_join(row_bytes(b.m00, b.m01, b.m02), row_bytes(b.m10, b.m11, b.m12), b2);
        lemma_row_prefix((a.m00, a.m01, a.m02), (b.m00, b.m01, b.m02), a1, b1);
        lemma_row_prefix((a.m10, a.m11, a.m12), (b.m10, b.m11, b.m12), a2, b2);
        lemma_row_prefix((a.m20, a.m21, a.m22), (b.m20, b.m21, b.m22), a3, b3);
        lemma_row_prefix((a.m30, a.m31, a.m32), (b.m30, b.m31, b.m32), x, y);
    }

    proof fn lemma_read_back(a: Self, data: Seq<u8>, pos: int, end: int) {
        assert(a.spec_bytes().len() == 48);
        lemma_numbers_read_back(a.spec_bytes(), 12, data, pos, end);
    }

    fn decode(data: &[u8], index: &mut usize) -> (r: Result<Transform>) {
        let start: usize = *index;
        if !(start <= data.len() && data.len() - start >= 48) {
            return Err(RLibError::DecodingNotEnoughBytes);
        }
        let ghost mark0 = start as int;
        let mut at: usize = start;
        let (m00, m01, m02) = take_row(data, &mut at);
        let (m10, m11, m12) = take_row(data, &mut at);
        let (m20, m21, m22) = take_row(data, &mut at);
        let (m30, m31, m32) = take_row(data, &mut at);
        proof {
            lemma_subrange_join(data@, mark0, mark0 + 12, mark0 + 24);
            lemma_subrange_join(data@, mark0, mark0 + 24, mark0 + 36);
            lemma_subrange_join(data@, mark0, mark0 + 36, mark0 + 48);
        }
        *index = at;
        Ok(Transform { m00, m01, m02, m10, m11, m12, m20, m21, m22, m30, m31, m32 })
    }

    fn encode(&self, buffer: &mut Vec<u8>) -> (r: Result<()>) {
        let ghost start = buffer@;
        write_row(buffer, self.m00, self.m01, self.m02);
        write_row(buffer, self.m10, self.m11, self.m12);
        write_row(buffer, self.m20, self.m21, self.m22);
        write_row(buffer, self.m30, self.m31, self.m32);
        assert(buffer@ =~= start + self.spec_bytes());
        Ok(())
    }
}

} // verus!
