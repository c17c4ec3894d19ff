//! No writing of a value is the beginning of the writing of another value: what was written
//! tells what the value was, whatever follows it.

use vstd::prelude::*;
use vstd::utf8::encode_utf8;

use crate::binary::{
    bool_bytes, lemma_u16_write_read, lemma_u32_write_read, lemma_u64_write_read,
    sized_string_u8_bytes, u16_bytes, u32_bytes, u32_of, u64_bytes,
};
use crate::fastbin::common::text_fault;
use crate::text::lemma_utf8_injective;

verus! {

/// Bytes that follow two joined runs follow the second of them.
pub proof fn lemma_join(p: Seq<u8>, e: Seq<u8>, t: Seq<u8>)
    ensures
        (p + e) + t == p + (e + t),
{
    assert((p + e) + t =~= p + (e + t));
}

/// Two runs of one length, each followed by something, that make up the same bytes are
/// the same run, followed by the same.
pub proof fn lemma_cut(e: Seq<u8>, f: Seq<u8>, x: Seq<u8>, y: Seq<u8>)
    requires
        e.len() == f.len(),
        e + x == f + y,
    ensures
        e == f,
        x == y,
{
    let n = e.len() as int;
    assert(e =~= (e + x).subrange(0, n));
    assert(f =~= (f + y).subrange(0, n));
    assert(x =~= (e + x).subrange(n, (e + x).len() as int));
    assert(y =~= (f + y).subrange(n, (f + y).len() as int));
}

/// One byte, followed by anything, tells the byte.
pub proof fn lemma_u8_prefix(a: u8, b: u8, x: Seq<u8>, y: Seq<u8>)
    requires
        seq![a] + x == seq![b] + y,
    ensures
        a == b,
        x == y,
{
    lemma_cut(seq![a], seq![b], x, y);
    assert(seq![a][0] == seq![b][0]);
}

/// A written boolean, followed by anything, tells the boolean.
pub proof fn lemma_bool_prefix(a: bool, b: bool, x: Seq<u8>, y: Seq<u8>)
    requires
        bool_bytes(a) + x == bool_bytes(b) + y,
    ensures
        a == b,
        x == y,
{
    lemma_cut(bool_bytes(a), bool_bytes(b), x, y);
    assert(bool_bytes(a)[0] == bool_bytes(b)[0]);
}

/// A written number of 16 bits, followed by anything, tells the number.
pub proof fn lemma_u16_prefix(a: u16, b: u16, x: Seq<u8>, y: Seq<u8>)
    requires
        u16_bytes(a) + x == u16_bytes(b) + y,
    ensures
        a == b,
        x == y,
{
    lemma_cut(u16_bytes(a), u16_bytes(b), x, y);
    lemma_u16_write_read(a, x);
    lemma_u16_write_read(b, y);
}

/// A written number of 32 bits, followed by anything, tells the number.
pub proof fn lemma_u32_prefix(a: u32, b: u32, x: Seq<u8>, y: Seq<u8>)
    requires
        u32_bytes(a) + x == u32_bytes(b) + y,
    ensures
        a == b,
        x == y,
{
    lemma_cut(u32_bytes(a), u32_bytes(b), x, y);
    lemma_u32_write_read(a, x);
    lemma_u32_write_read(b, y);
}

/// A written number of 64 bits, followed by anything, tells the number.
pub proof fn lemma_u64_prefix(a: u64, b: u64, x: Seq<u8>, y: Seq<u8>)
    requires
        u64_bytes(a) + x == u64_bytes(b) + y,
    ensures
        a == b,
        x == y,
{
    lemma_cut(u64_bytes(a), u64_bytes(b), x, y);
    lemma_u64_write_read(a, x);
    lemma_u64_write_read(b, y);
}

/// A written signed number of 32 bits, followed by anything, tells the number.
pub proof fn lemma_i32_prefix(a: i32, b: i32, x: Seq<u8>, y: Seq<u8>)
    requires
        u32_bytes(u32_of(a)) + x == u32_bytes(u32_of(b)) + y,
    ensures
        a == b,
        x == y,
{
    lemma_u32_prefix(u32_of(a), u32_of(b), x, y);
}

/// A written text with its length in front, followed by anything, tells the text.
pub proof fn lemma_text_prefix(a: Seq<char>, b: Seq<char>, x: Seq<u8>, y: Seq<u8>)
    requires
        text_fault(a) is None,
        text_fault(b) is None,
        sized_string_u8_bytes(a) + x == sized_string_u8_bytes(b) + y,
    ensures
        a == b,
        x == y,
{
    let ea = encode_utf8(a);
    let eb = encode_utf8(b);
    lemma_join(u16_bytes(ea.len() as u16), ea, x);
    lemma_join(u16_bytes(eb.len() as u16), eb, y);
    lemma_u16_prefix(ea.len() as u16, eb.len() as u16, ea + x, eb + y);
    lemma_cut(ea, eb, x, y);
    lemma_utf8_injective(a, b);
}

} // verus!
