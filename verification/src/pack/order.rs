//! The order in which the files of a pack are written: by their paths, letters of either
//! case alike; where two paths differ in case alone, as strings compare.

use vstd::prelude::*;
use vstd::utf8::encode_utf8;

verus! {

/// True when `a` comes before `b`, or is `b`, in the order of byte strings: at the first
/// position where they differ the smaller byte decides, and a string comes before those
/// that it starts.
pub open spec fn lex_le_from(a: Seq<u8>, b: Seq<u8>, i: int) -> bool
    decreases a.len() - i,
{
    if i < 0 || i >= a.len() {
        true
    } else if i >= b.len() {
        false
    } else if a[i] != b[i] {
        a[i] < b[i]
    } else {
        lex_le_from(a, b, i + 1)
    }
}

/// The order of byte strings.
pub open spec fn lex_le(a: Seq<u8>, b: Seq<u8>) -> bool {
    lex_le_from(a, b, 0)
}

/// The order of texts: that of their UTF-8 bytes.
pub open spec fn text_le(a: Seq<char>, b: Seq<char>) -> bool {
    lex_le(encode_utf8(a), encode_utf8(b))
}

/// True when a file with the sort key `key_a` and the path `path_a` is written before, or
/// is, one with `key_b` and `path_b`. The key of a file is its path in lower case.
pub open spec fn entry_le(
    key_a: Seq<char>,
    path_a: Seq<char>,
    key_b: Seq<char>,
    path_b: Seq<char>,
) -> bool {
    text_le(key_a, key_b) && (key_a != key_b || text_le(path_a, path_b))
}

/// Compares two byte strings.
pub fn bytes_le(a: &[u8], b: &[u8]) -> (r: bool)
    ensures
        r == lex_le(a@, b@),
{
    let mut i: usize = 0;
    while i < a.len()
        invariant
            i <= a@.len(),
            lex_le(a@, b@) == lex_le_from(a@, b@, i as int),
        decreases a@.len() - i,
    {
        if i >= b.len() {
            return false;
        }
        if a[i] != b[i] {
            return a[i] < b[i];
        }
        i = i + 1;
    }
    true
}

/// Compares two texts.
pub fn str_le(a: &str, b: &str) -> (r: bool)
    ensures
        r == text_le(a@, b@),
{
    bytes_le(a.as_bytes(), b.as_bytes())
}

/// Tells whether a file with the sort key `key_a` and the path `path_a` is written before,
/// or is, one with `key_b` and `path_b`.
pub fn entry_before(key_a: &str, path_a: &str, key_b: &str, path_b: &str) -> (r: bool)
    ensures
        r == entry_le(key_a@, path_a@, key_b@, path_b@),
{
    if !str_le(key_a, key_b) {
        false
    } else if !crate::text::str_eq(key_a, key_b) {
        true
    } else {
        str_le(path_a, path_b)
    }
}

/// From `i` on, the order looks at nothing before `i`.
pub proof fn lemma_lex_le_from_reflexive(a: Seq<u8>, i: int)
    ensures
        lex_le_from(a, a, i),
    decreases a.len() - i,
{
    if 0 <= i < a.len() {
        lemma_lex_le_from_reflexive(a, i + 1);
    }
}

/// Of two byte strings that agree up to `i`, one comes before the other or is it.
pub proof fn lemma_lex_le_from_total(a: Seq<u8>, b: Seq<u8>, i: int)
    requires
        0 <= i,
    ensures
        lex_le_from(a, b, i) || lex_le_from(b, a, i),
    decreases a.len() - i,
{
    if i < a.len() && i < b.len() && a[i] == b[i] {
        lemma_lex_le_from_total(a, b, i + 1);
    }
}

/// Two byte strings that agree up to `i` and come before each other are one string.
pub proof fn lemma_lex_le_from_antisymmetric(a: Seq<u8>, b: Seq<u8>, i: int)
    requires
        0 <= i <= a.len(),
        i <= b.len(),
        a.subrange(0, i) == b.subrange(0, i),
        lex_le_from(a, b, i),
        lex_le_from(b, a, i),
    ensures
        a == b,
    decreases a.len() - i,
{
    if i < a.len() && i < b.len() {
        assert(a[i] == b[i]);
        assert(a.subrange(0, i + 1) =~= a.subrange(0, i).push(a[i]));
        assert(b.subrange(0, i + 1) =~= b.subrange(0, i).push(b[i]));
        lemma_lex_le_from_antisymmetric(a, b, i + 1);
    } else {
        assert(a.len() == i && b.len() == i);
        assert(a =~= a.subrange(0, i));
        assert(b =~= b.subrange(0, i));
    }
}

/// The order of byte strings passes on: from `a` before `b` and `b` before `c`, `a` comes
/// before `c`.
pub proof fn lemma_lex_le_from_transitive(a: Seq<u8>, b: Seq<u8>, c: Seq<u8>, i: int)
    requires
        0 <= i,
        lex_le_from(a, b, i),
        lex_le_from(b, c, i),
    ensures
        lex_le_from(a, c, i),
    decreases a.len() - i,
{
    if i < a.len() && i < b.len() && i < c.len() && a[i] == b[i] && b[i] == c[i] {
        lemma_lex_le_from_transitive(a, b, c, i + 1);
    }
}

/// The order of the files is total: of two files one is written before the other.
pub proof fn lemma_entry_le_total(
    key_a: Seq<char>,
    path_a: Seq<char>,
    key_b: Seq<char>,
    path_b: Seq<char>,
)
    ensures
        entry_le(key_a, path_a, key_b, path_b) || entry_le(key_b, path_b, key_a, path_a),
{
    lemma_lex_le_from_total(encode_utf8(key_a), encode_utf8(key_b), 0);
    lemma_lex_le_from_total(encode_utf8(path_a), encode_utf8(path_b), 0);
    if text_le(key_a, key_b) && text_le(key_b, key_a) {
        assert(encode_utf8(key_a).subrange(0, 0) =~= encode_utf8(key_b).subrange(0, 0));
        lemma_lex_le_from_antisymmetric(encode_utf8(key_a), encode_utf8(key_b), 0);
        crate::text::lemma_utf8_injective(key_a, key_b);
    }
}

/// The order of the files passes on.
pub proof fn lemma_entry_le_transitive(
    key_a: Seq<char>,
    path_a: Seq<char>,
    key_b: Seq<char>,
    path_b: Seq<char>,
    key_c: Seq<char>,
    path_c: Seq<char>,
)
    requires
        entry_le(key_a, path_a, key_b, path_b),
        entry_le(key_b, path_b, key_c, path_c),
    ensures
        entry_le(key_a, path_a, key_c, path_c),
{
    lemma_lex_le_from_transitive(encode_utf8(key_a), encode_utf8(key_b), encode_utf8(key_c), 0);
    if key_a == key_c {
        assert(encode_utf8(key_a).subrange(0, 0) =~= encode_utf8(key_b).subrange(0, 0));
        lemma_lex_le_from_antisymmetric(encode_utf8(key_a), encode_utf8(key_b), 0);
        crate::text::lemma_utf8_injective(key_a, key_b);
        lemma_lex_le_from_transitive(
            encode_utf8(path_a),
            encode_utf8(path_b),
            encode_utf8(path_c),
            0,
        );
    }
}

} // verus!
