//! Text: conversions between strings, characters and code units, and the few operations
//! of the standard library on strings that the rest of the library builds on.

use vstd::prelude::*;
use vstd::std_specs::iter::IteratorSpec;
use vstd::string::*;
use vstd::utf8::*;

verus! {

/// The lower-case form of a text, as the standard library computes it.
pub uninterp spec fn lowercase_of(text: Seq<char>) -> Seq<char>;

/// `String::push`: the string afterwards is the string before with `c` at its end.
#[verifier::external_body]
pub(crate) fn push_char(s: &mut String, c: char)
    ensures
        final(s)@ == old(s)@.push(c),
{
    s.push(c);
}

/// `String::from_utf8`: succeeds exactly on valid UTF-8, and the string then holds the
/// characters that the bytes encode.
#[verifier::external_body]
pub(crate) fn string_from_utf8(bytes: Vec<u8>) -> (r: Option<String>)
    ensures
        r is Some <==> valid_utf8(bytes@),
        r matches Some(s) ==> s@ == decode_utf8(bytes@),
{
    match String::from_utf8(bytes) {
        Ok(s) => Some(s),
        Err(_) => None,
    }
}

/// `char::from_u32`: succeeds exactly on Unicode scalar values, and gives the character
/// with that value.
#[verifier::external_body]
pub(crate) fn char_from_u32(v: u32) -> (r: Option<char>)
    ensures
        r is Some <==> is_scalar(v),
        r matches Some(c) ==> c as u32 == v,
{
    char::from_u32(v)
}

/// `str::to_lowercase`: the result is the lower-case form of `s`.
#[verifier::external_body]
pub(crate) fn to_lowercase(s: &str) -> (r: String)
    ensures
        r@ == lowercase_of(s@),
{
    s.to_lowercase()
}

/// The characters of a string.
pub fn chars_of(s: &str) -> (r: Vec<char>)
    ensures
        r@ == s@,
{
    broadcast use {axiom_spec_iter, next_postcondition};

    let mut it = s.chars();
    let mut out: Vec<char> = Vec::new();
    loop
        invariant
            it.obeys_prophetic_iter_laws(),
            it.decrease() is Some,
            out@ + it.remaining() == s@,
        ensures
            out@ == s@,
        decreases it.decrease()->0,
    {
        let ghost before = it;
        match it.next() {
            Some(c) => {
                assert(before.remaining() =~= seq![c] + it.remaining());
                assert(out@.push(c) + it.remaining() =~= out@ + before.remaining());
                out.push(c);
            },
            None => {
                assert(out@ + it.remaining() =~= out@);
                break ;
            },
        }
    }
    out
}

/// The string made of the given characters.
pub fn string_from_chars(chars: &[char]) -> (r: String)
    ensures
        r@ == chars@,
{
    let mut s = String::new();
    let mut i: usize = 0;
    while i < chars.len()
        invariant
            i <= chars@.len(),
            s@ == chars@.subrange(0, i as int),
        decreases chars@.len() - i,
    {
        push_char(&mut s, chars[i]);
        i = i + 1;
        assert(chars@.subrange(0, i as int) =~= chars@.subrange(0, i - 1).push(chars@[i - 1]));
    }
    assert(chars@.subrange(0, chars@.len() as int) =~= chars@);
    s
}

/// True for the first unit of a surrogate pair.
pub open spec fn is_high_surrogate(u: u16) -> bool {
    0xD800 <= u <= 0xDBFF
}

/// True for the second unit of a surrogate pair.
pub open spec fn is_low_surrogate(u: u16) -> bool {
    0xDC00 <= u <= 0xDFFF
}

/// The scalar value that a surrogate pair stands for.
pub open spec fn surrogate_pair_value(high: u16, low: u16) -> u32 {
    (0x1_0000 + (high - 0xD800) * 0x400 + (low - 0xDC00)) as u32
}

/// The characters that the UTF-16 code units from position `i` on stand for, or `None`
/// where a surrogate stands alone.
pub open spec fn utf16_decode_at(units: Seq<u16>, i: int) -> Option<Seq<char>>
    decreases units.len() - i,
{
    if i < 0 || i >= units.len() {
        Some(Seq::empty())
    } else if is_high_surrogate(units[i]) {
        if i + 1 < units.len() && is_low_surrogate(units[i + 1]) {
            match utf16_decode_at(units, i + 2) {
                Some(rest) => Some(
                    seq![surrogate_pair_value(units[i], units[i + 1]) as char] + rest,
                ),
                None => None,
            }
        } else {
            None
        }
    } else if is_low_surrogate(units[i]) {
        None
    } else {
        match utf16_decode_at(units, i + 1) {
            Some(rest) => Some(seq![units[i] as char] + rest),
            None => None,
        }
    }
}

/// The characters that UTF-16 code units stand for.
pub open spec fn utf16_decode(units: Seq<u16>) -> Option<Seq<char>> {
    utf16_decode_at(units, 0)
}

/// The one or two UTF-16 code units of a character.
pub open spec fn utf16_units(c: char) -> Seq<u16> {
    let v = c as u32;
    if v < 0x1_0000 {
        seq![v as u16]
    } else {
        seq![(0xD800 + (v - 0x1_0000) / 0x400) as u16, (0xDC00 + (v - 0x1_0000) % 0x400) as u16]
    }
}

/// The UTF-16 code units of a text.
pub open spec fn utf16_encode(chars: Seq<char>) -> Seq<u16>
    decreases chars.len(),
{
    if chars.len() == 0 {
        Seq::empty()
    } else {
        utf16_encode(chars.drop_last()) + utf16_units(chars.last())
    }
}

/// Decodes UTF-16 code units.
#[verifier::rlimit(40)]
pub fn decode_utf16(units: &[u16]) -> (r: Option<String>)
    ensures
        r is Some <==> utf16_decode(units@) is Some,
        r matches Some(s) ==> Some(s@) == utf16_decode(units@),
{
    let mut out: Vec<char> = Vec::new();
    let mut i: usize = 0;
    while i < units.len()
        invariant
            i <= units@.len(),
            utf16_decode(units@) == match utf16_decode_at(units@, i as int) {
                Some(rest) => Some(out@ + rest),
                None => None,
            },
        decreases units@.len() - i,
    {
        let u: u16 = units[i];
        let ghost before = out@;
        if u >= 0xD800 && u <= 0xDBFF {
            if i + 1 < units.len() && units[i + 1] >= 0xDC00 && units[i + 1] <= 0xDFFF {
                let low: u16 = units[i + 1];
                let v: u32 = 0x1_0000 + (u as u32 - 0xD800) * 0x400 + (low as u32 - 0xDC00);
                match char_from_u32(v) {
                    Some(c) => {
                        out.push(c);
                        proof {
                            char_u32_cast(c, v);
                            assert(v == surrogate_pair_value(u, low));
                            let rest = utf16_decode_at(units@, i + 2);
                            if rest is Some {
                                assert(before.push(c) + rest->0 =~= before + (seq![c] + rest->0));
                            }
                        }
                        i = i + 2;
                    },
                    None => {
                        return None;
                    },
                }
            } else {
                return None;
            }
        } else if u >= 0xDC00 && u <= 0xDFFF {
            return None;
        } else {
            match char_from_u32(u as u32) {
                Some(c) => {
                    out.push(c);
                    proof {
                        char_u32_cast(c, u as u32);
                        assert(u as char == (u as u32) as char);
                        let rest = utf16_decode_at(units@, i + 1);
                        if rest is Some {
                            assert(before.push(c) + rest->0 =~= before + (seq![c] + rest->0));
                        }
                    }
                    i = i + 1;
                },
                None => {
                    return None;
                },
            }
        }
    }
    assert(out@ + Seq::<char>::empty() =~= out@);
    Some(string_from_chars(out.as_slice()))
}

/// Encodes a text as UTF-16 code units.
pub fn encode_utf16(s: &str) -> (r: Vec<u16>)
    ensures
        r@ == utf16_encode(s@),
{
    let chars = chars_of(s);
    let mut out: Vec<u16> = Vec::new();
    let mut i: usize = 0;
    while i < chars.len()
        invariant
            i <= chars@.len(),
            out@ == utf16_encode(chars@.subrange(0, i as int)),
        decreases chars@.len() - i,
    {
        let v: u32 = chars[i] as u32;
        proof {
            assert(chars@.subrange(0, i + 1).drop_last() =~= chars@.subrange(0, i as int));
            assert(chars@.subrange(0, i + 1).last() == chars@[i as int]);
        }
        if v < 0x1_0000 {
            out.push(v as u16);
        } else {
            out.push((0xD800 + (v - 0x1_0000) / 0x400) as u16);
            out.push((0xDC00 + (v - 0x1_0000) % 0x400) as u16);
        }
        i = i + 1;
    }
    assert(chars@.subrange(0, chars@.len() as int) =~= chars@);
    out
}

/// The upper-case hexadecimal digit for a value below 16.
pub open spec fn hex_digit(n: int) -> char {
    if n < 10 {
        (0x30 + n) as char
    } else {
        (0x41 + n - 10) as char
    }
}

/// `v` in upper-case hexadecimal, padded with zeros on the left to at least `min_width`
/// digits.
pub open spec fn hex_upper(v: nat, min_width: nat) -> Seq<char>
    decreases v, min_width,
{
    if v < 16 && min_width <= 1 {
        seq![hex_digit(v as int)]
    } else {
        hex_upper(v / 16, if min_width == 0 { 0 } else { (min_width - 1) as nat }).push(
            hex_digit((v % 16) as int),
        )
    }
}

/// The value of one hexadecimal digit, upper or lower case.
pub open spec fn hex_digit_value(c: char) -> Option<int> {
    if '0' <= c <= '9' {
        Some(c as int - 0x30)
    } else if 'a' <= c <= 'f' {
        Some(c as int - 0x61 + 10)
    } else if 'A' <= c <= 'F' {
        Some(c as int - 0x41 + 10)
    } else {
        None
    }
}

/// The value of the first `n` characters read as hexadecimal digits; digits that are none
/// count as zero.
pub open spec fn hex_value(s: Seq<char>, n: int) -> int
    decreases n,
{
    if n <= 0 {
        0
    } else {
        hex_value(s, n - 1) * 16 + match hex_digit_value(s[n - 1]) {
            Some(d) => d,
            None => 0,
        }
    }
}

/// The number that a hexadecimal text stands for: one digit at least, nothing but digits,
/// and a value that fits in 32 bits.
pub open spec fn parse_hex_u32(s: Seq<char>) -> Option<u32> {
    if s.len() > 0 && (forall|i: int| 0 <= i < s.len() ==> hex_digit_value(#[trigger] s[i]) is Some)
        && hex_value(s, s.len() as int) <= u32::MAX {
        Some(hex_value(s, s.len() as int) as u32)
    } else {
        None
    }
}

/// The character for a value below 16.
fn hex_digit_char(n: u8) -> (c: char)
    requires
        n < 16,
    ensures
        c == hex_digit(n as int),
{
    if n < 10 {
        (0x30u8 + n) as char
    } else {
        (0x41u8 + n - 10) as char
    }
}

/// Appends `v` in upper-case hexadecimal, at least `min_width` digits wide.
pub fn push_hex(out: &mut Vec<char>, v: u32, min_width: u32)
    ensures
        final(out)@ == old(out)@ + hex_upper(v as nat, min_width as nat),
    decreases v, min_width,
{
    if v < 16 && min_width <= 1 {
        out.push(hex_digit_char(v as u8));
        assert(old(out)@.push(hex_digit(v as int)) =~= old(out)@ + seq![hex_digit(v as int)]);
    } else {
        push_hex(out, v / 16, if min_width == 0 { 0 } else { min_width - 1 });
        let ghost mid = out@;
        out.push(hex_digit_char((v % 16) as u8));
        assert(mid.push(hex_digit((v % 16) as int)) =~= old(out)@ + hex_upper(
            v as nat,
            min_width as nat,
        ));
    }
}

/// Reads a hexadecimal text.
#[verifier::rlimit(40)]
pub fn hex_to_u32(s: &str) -> (r: Option<u32>)
    ensures
        r == parse_hex_u32(s@),
{
    let chars = chars_of(s);
    if chars.len() == 0 {
        return None;
    }
    let mut acc: u64 = 0;
    let mut overflow: bool = false;
    let mut i: usize = 0;
    while i < chars.len()
        invariant
            i <= chars@.len(),
            chars@ == s@,
            forall|j: int| 0 <= j < i ==> hex_digit_value(#[trigger] chars@[j]) is Some,
            !overflow ==> acc == hex_value(chars@, i as int) && acc <= u32::MAX,
            overflow ==> hex_value(chars@, i as int) > u32::MAX,
        decreases chars@.len() - i,
    {
        let c: char = chars[i];
        let d: u64 = if c >= '0' && c <= '9' {
            c as u64 - 0x30
        } else if c >= 'a' && c <= 'f' {
            c as u64 - 0x61 + 10
        } else if c >= 'A' && c <= 'F' {
            c as u64 - 0x41 + 10
        } else {
            assert(hex_digit_value(s@[i as int]) is None);
            return None;
        };
        if !overflow {
            acc = acc * 16 + d;
            if acc > 0xFFFF_FFFF {
                overflow = true;
            }
        }
        i = i + 1;
        proof {
            lemma_hex_value_grows(chars@, i as int);
        }
    }
    if overflow {
        None
    } else {
        Some(acc as u32)
    }
}

/// Adding a digit never makes the value smaller.
pub proof fn lemma_hex_value_grows(s: Seq<char>, n: int)
    requires
        0 < n,
    ensures
        hex_value(s, n) >= hex_value(s, n - 1) >= 0,
    decreases n,
{
    if n > 1 {
        lemma_hex_value_grows(s, n - 1);
    }
}

/// `v` in decimal, without leading zeros.
pub open spec fn decimal_digits(v: nat) -> Seq<char>
    decreases v,
{
    if v < 10 {
        seq![(0x30 + v) as char]
    } else {
        decimal_digits(v / 10).push((0x30 + v % 10) as char)
    }
}

/// `v` in decimal, with a minus sign where it is negative.
pub open spec fn decimal_text(v: int) -> Seq<char> {
    if v < 0 {
        seq!['-'] + decimal_digits((-v) as nat)
    } else {
        decimal_digits(v as nat)
    }
}

/// True for the ten decimal digits.
pub open spec fn is_decimal_digit(c: char) -> bool {
    '0' <= c <= '9'
}

/// The value of the characters from `from` up to `to`, read as decimal digits.
pub open spec fn decimal_value(s: Seq<char>, from: int, to: int) -> int
    decreases to - from,
{
    if to <= from {
        0
    } else {
        decimal_value(s, from, to - 1) * 10 + (s[to - 1] as int - 0x30)
    }
}

/// The number that a decimal text stands for: an optional sign, then one digit at least
/// and nothing but digits.
pub open spec fn parse_decimal(s: Seq<char>) -> Option<int> {
    let signed = s.len() > 0 && (s[0] == '-' || s[0] == '+');
    let from: int = if signed { 1 } else { 0 };
    if from < s.len()
        && (forall|i: int| from <= i < s.len() ==> is_decimal_digit(#[trigger] s[i])) {
        if signed && s[0] == '-' {
            Some(-decimal_value(s, from, s.len() as int))
        } else {
            Some(decimal_value(s, from, s.len() as int))
        }
    } else {
        None
    }
}

/// The number that a decimal text stands for, where it lies between `min` and `max`.
pub open spec fn parse_decimal_in(s: Seq<char>, min: int, max: int) -> Option<int> {
    match parse_decimal(s) {
        Some(v) => if min <= v <= max {
            Some(v)
        } else {
            None
        },
        None => None,
    }
}

/// Appends `v` in decimal.
pub fn push_decimal(out: &mut Vec<char>, v: u64)
    ensures
        final(out)@ == old(out)@ + decimal_digits(v as nat),
    decreases v,
{
    if v < 10 {
        out.push((0x30u8 + v as u8) as char);
        assert(old(out)@.push((0x30 + v) as char) =~= old(out)@ + seq![(0x30 + v) as char]);
    } else {
        push_decimal(out, v / 10);
        let ghost mid = out@;
        out.push((0x30u8 + (v % 10) as u8) as char);
        assert(mid.push((0x30 + v % 10) as char) =~= old(out)@ + decimal_digits(v as nat));
    }
}

/// The decimal text of a signed number.
pub fn i64_to_decimal(v: i64) -> (r: String)
    ensures
        r@ == decimal_text(v as int),
{
    let mut out: Vec<char> = Vec::new();
    if v < 0 {
        out.push('-');
        let magnitude: u64 = (-(v + 1)) as u64 + 1;
        push_decimal(&mut out, magnitude);
    } else {
        push_decimal(&mut out, v as u64);
        assert(out@ =~= decimal_digits(v as nat));
    }
    string_from_chars(out.as_slice())
}

/// Adding a digit never makes the value smaller.
pub proof fn lemma_decimal_value_grows(s: Seq<char>, from: int, to: int)
    requires
        from < to,
        forall|i: int| from <= i < to ==> is_decimal_digit(#[trigger] s[i]),
    ensures
        decimal_value(s, from, to) >= decimal_value(s, from, to - 1) >= 0,
    decreases to - from,
{
    if to - 1 > from {
        lemma_decimal_value_grows(s, from, to - 1);
    }
}

/// Reads a decimal text whose value lies between `-limit` and `limit`.
#[verifier::rlimit(40)]
fn decimal_magnitude(chars: &Vec<char>, limit: u64) -> (r: Option<(bool, u64)>)
    requires
        limit <= 0x8000_0000_0000_0000,
    ensures
        match parse_decimal(chars@) {
            Some(v) => if -(limit as int) <= v <= limit {
                r == Some((v < 0, (if v < 0 { -v } else { v }) as u64))
            } else {
                r is None
            },
            None => r is None,
        },
{
    let n: usize = chars.len();
    if n == 0 {
        return None;
    }
    let negative: bool = chars[0] == '-';
    let from: usize = if chars[0] == '-' || chars[0] == '+' { 1 } else { 0 };
    if from >= n {
        return None;
    }
    let mut acc: u64 = 0;
    let mut overflow: bool = false;
    let mut i: usize = from;
    while i < n
        invariant
            from <= i <= n,
            n == chars@.len(),
            from == (if chars@[0] == '-' || chars@[0] == '+' { 1int } else { 0int }),
            limit <= 0x8000_0000_0000_0000,
            forall|j: int| from <= j < i ==> is_decimal_digit(#[trigger] chars@[j]),
            !overflow ==> acc == decimal_value(chars@, from as int, i as int) && acc <= limit,
            overflow ==> decimal_value(chars@, from as int, i as int) > limit,
        decreases n - i,
    {
        let c: char = chars[i];
        if !(c >= '0' && c <= '9') {
            assert(!is_decimal_digit(chars@[i as int]));
            return None;
        }
        let d: u64 = c as u64 - 0x30;
        if !overflow {
            if d > limit || acc > (limit - d) / 10 {
                overflow = true;
            } else {
                acc = acc * 10 + d;
            }
        }
        i = i + 1;
        proof {
            lemma_decimal_value_grows(chars@, from as int, i as int);
        }
    }
    if overflow {
        None
    } else {
        Some((negative && acc != 0, acc))
    }
}

/// Reads a decimal text as a 64-bit signed number.
pub fn decimal_to_i64(s: &str) -> (r: Option<i64>)
    ensures
        r is Some <==> parse_decimal_in(s@, i64::MIN as int, i64::MAX as int) is Some,
        r matches Some(v) ==> Some(v as int) == parse_decimal_in(s@, i64::MIN as int, i64::MAX as int),
{
    let chars = chars_of(s);
    match decimal_magnitude(&chars, 0x8000_0000_0000_0000) {
        Some((negative, magnitude)) => {
            if negative {
                if magnitude == 0x8000_0000_0000_0000 {
                    Some(i64::MIN)
                } else {
                    Some(-(magnitude as i64))
                }
            } else if magnitude > 0x7FFF_FFFF_FFFF_FFFF {
                None
            } else {
                Some(magnitude as i64)
            }
        },
        None => None,
    }
}

/// Reads a decimal text as a number between `min` and `max`.
pub fn decimal_to_bounded(s: &str, min: i64, max: i64) -> (r: Option<i64>)
    ensures
        r is Some <==> parse_decimal_in(s@, min as int, max as int) is Some,
        r matches Some(v) ==> Some(v as int) == parse_decimal_in(s@, min as int, max as int),
{
    match decimal_to_i64(s) {
        Some(v) => if min <= v && v <= max {
            Some(v)
        } else {
            None
        },
        None => None,
    }
}

/// What one character becomes when a text is escaped: a line feed becomes two backslashes
/// and `n`, a tab two backslashes and `t`, anything else stays.
pub open spec fn escaped_char(c: char) -> Seq<char> {
    if c == '\n' {
        seq!['\\', '\\', 'n']
    } else if c == '\t' {
        seq!['\\', '\\', 't']
    } else {
        seq![c]
    }
}

/// A text with its line feeds and tabs escaped.
pub open spec fn escaped(s: Seq<char>) -> Seq<char>
    decreases s.len(),
{
    if s.len() == 0 {
        Seq::empty()
    } else {
        escaped(s.drop_last()) + escaped_char(s.last())
    }
}

/// True when the three characters at `i` are two backslashes and `last`.
pub open spec fn escape_at(s: Seq<char>, i: int, last: char) -> bool {
    0 <= i && i + 3 <= s.len() && s[i] == '\\' && s[i + 1] == '\\' && s[i + 2] == last
}

/// The text from `i` on where every escape that ends in `last`, found from left to right,
/// has become `with`.
pub open spec fn unescaped_one_at(s: Seq<char>, i: int, last: char, with: char) -> Seq<char>
    decreases s.len() - i,
{
    if i < 0 || i >= s.len() {
        Seq::empty()
    } else if escape_at(s, i, last) {
        seq![with] + unescaped_one_at(s, i + 3, last, with)
    } else {
        seq![s[i]] + unescaped_one_at(s, i + 1, last, with)
    }
}

/// A text with its escapes undone: first those of tabs, then those of line feeds.
pub open spec fn unescaped(s: Seq<char>) -> Seq<char> {
    unescaped_one_at(unescaped_one_at(s, 0, 't', '\t'), 0, 'n', '\n')
}

/// Escapes the line feeds and tabs of a text.
pub fn escape_special_chars(data: &str) -> (r: String)
    ensures
        r@ == escaped(data@),
{
    let chars = chars_of(data);
    let mut out: Vec<char> = Vec::new();
    let mut i: usize = 0;
    while i < chars.len()
        invariant
            i <= chars@.len(),
            out@ == escaped(chars@.subrange(0, i as int)),
        decreases chars@.len() - i,
    {
        let c: char = chars[i];
        proof {
            assert(chars@.subrange(0, i + 1).drop_last() =~= chars@.subrange(0, i as int));
            assert(chars@.subrange(0, i + 1).last() == c);
        }
        let ghost before = out@;
        if c == '\n' {
            out.push('\\');
            out.push('\\');
            out.push('n');
            assert(out@ =~= before + escaped_char(c));
        } else if c == '\t' {
            out.push('\\');
            out.push('\\');
            out.push('t');
            assert(out@ =~= before + escaped_char(c));
        } else {
            out.push(c);
            assert(out@ =~= before + escaped_char(c));
        }
        i = i + 1;
    }
    assert(chars@.subrange(0, chars@.len() as int) =~= chars@);
    string_from_chars(out.as_slice())
}

/// Replaces every escape that ends in `last` by `with`, from left to right.
fn unescape_one(chars: &Vec<char>, last: char, with: char) -> (r: Vec<char>)
    ensures
        r@ == unescaped_one_at(chars@, 0, last, with),
{
    let n: usize = chars.len();
    let mut out: Vec<char> = Vec::new();
    let mut i: usize = 0;
    while i < n
        invariant
            i <= n,
            n == chars@.len(),
            unescaped_one_at(chars@, 0, last, with) == out@ + unescaped_one_at(
                chars@,
                i as int,
                last,
                with,
            ),
        decreases n - i,
    {
        let ghost before = out@;
        if n - i >= 3 && chars[i] == '\\' && chars[i + 1] == '\\' && chars[i + 2] == last {
            out.push(with);
            assert(before.push(with) + unescaped_one_at(chars@, i + 3, last, with) =~= before + (
                seq![with] + unescaped_one_at(chars@, i + 3, last, with)));
            i = i + 3;
        } else {
            out.push(chars[i]);
            assert(before.push(chars@[i as int]) + unescaped_one_at(chars@, i + 1, last, with)
                =~= before + (seq![chars@[i as int]] + unescaped_one_at(
                chars@,
                i + 1,
                last,
                with,
            )));
            i = i + 1;
        }
    }
    assert(out@ + Seq::<char>::empty() =~= out@);
    out
}

/// Undoes the escapes of a text.
pub fn unescape_special_chars(data: &str) -> (r: String)
    ensures
        r@ == unescaped(data@),
{
    let chars = chars_of(data);
    let tabs = unescape_one(&chars, 't', '\t');
    let both = unescape_one(&tabs, 'n', '\n');
    string_from_chars(both.as_slice())
}

/// A text where every `from` has become `to`.
pub open spec fn replaced(s: Seq<char>, from: char, to: char) -> Seq<char> {
    Seq::new(s.len(), |i: int| if s[i] == from { to } else { s[i] })
}

/// Replaces every `from` of a text by `to`.
pub fn replace_char(data: &str, from: char, to: char) -> (r: String)
    ensures
        r@ == replaced(data@, from, to),
{
    let chars = chars_of(data);
    let mut out: Vec<char> = Vec::new();
    let mut i: usize = 0;
    while i < chars.len()
        invariant
            i <= chars@.len(),
            out@ == replaced(chars@, from, to).subrange(0, i as int),
        decreases chars@.len() - i,
    {
        let c: char = chars[i];
        out.push(if c == from { to } else { c });
        i = i + 1;
        assert(out@ =~= replaced(chars@, from, to).subrange(0, i as int));
    }
    assert(out@ =~= replaced(chars@, from, to));
    string_from_chars(out.as_slice())
}

/// True when `s` ends with `suffix`.
pub open spec fn has_suffix(s: Seq<char>, suffix: Seq<char>) -> bool {
    suffix.len() <= s.len() && s.subrange(s.len() - suffix.len(), s.len() as int) == suffix
}

/// True when `s` starts with `prefix`.
pub open spec fn has_prefix(s: Seq<char>, prefix: Seq<char>) -> bool {
    prefix.len() <= s.len() && s.subrange(0, prefix.len() as int) == prefix
}

/// Tells whether `s` holds `part` from position `at` on.
pub(crate) fn holds_at(s: &Vec<char>, at: usize, part: &Vec<char>) -> (r: bool)
    requires
        at + part@.len() <= s@.len(),
    ensures
        r == (s@.subrange(at as int, at + part@.len()) == part@),
{
    let n: usize = s.len();
    let mut i: usize = 0;
    while i < part.len()
        invariant
            i <= part@.len(),
            at + part@.len() <= s@.len() == n,
            forall|j: int| 0 <= j < i ==> s@[at + j] == part@[j],
        decreases part@.len() - i,
    {
        if s[at + i] != part[i] {
            assert(s@.subrange(at as int, at + part@.len())[i as int] != part@[i as int]);
            return false;
        }
        i = i + 1;
    }
    assert(s@.subrange(at as int, at + part@.len()) =~= part@);
    true
}

/// Tells whether a text ends with another.
pub fn ends_with(s: &Vec<char>, suffix: &Vec<char>) -> (r: bool)
    ensures
        r == has_suffix(s@, suffix@),
{
    if suffix.len() > s.len() {
        false
    } else {
        holds_at(s, s.len() - suffix.len(), suffix)
    }
}

/// Tells whether a text starts with another.
pub fn starts_with(s: &Vec<char>, prefix: &Vec<char>) -> (r: bool)
    ensures
        r == has_prefix(s@, prefix@),
{
    if prefix.len() > s.len() {
        false
    } else {
        holds_at(s, 0, prefix)
    }
}

/// Texts with the same UTF-8 bytes are the same text.
pub proof fn lemma_utf8_injective(a: Seq<char>, b: Seq<char>)
    requires
        encode_utf8(a) == encode_utf8(b),
    ensures
        a == b,
{
    encode_utf8_decode_utf8(a);
    encode_utf8_decode_utf8(b);
}

/// Tells whether two byte strings are equal.
pub fn bytes_eq(a: &[u8], b: &[u8]) -> (r: bool)
    ensures
        r == (a@ == b@),
{
    if a.len() != b.len() {
        return false;
    }
    let mut i: usize = 0;
    while i < a.len()
        invariant
            i <= a@.len() == b@.len(),
            forall|j: int| 0 <= j < i ==> a@[j] == b@[j],
        decreases a@.len() - i,
    {
        if a[i] != b[i] {
            return false;
        }
        i = i + 1;
    }
    assert(a@ =~= b@);
    true
}

/// Tells whether two texts are equal.
pub fn str_eq(a: &str, b: &str) -> (r: bool)
    ensures
        r == (a@ == b@),
{
    let r = bytes_eq(a.as_bytes(), b.as_bytes());
    proof {
        if r {
            lemma_utf8_injective(a@, b@);
        }
    }
    r
}

/// The number that a decimal text without a minus sign stands for, where it is at most
/// `max`.
pub open spec fn parse_unsigned_in(s: Seq<char>, max: int) -> Option<int> {
    if s.len() > 0 && s[0] == '-' {
        None
    } else {
        parse_decimal_in(s, 0, max)
    }
}

/// Reads a decimal text without a minus sign as a 32-bit number.
pub fn decimal_to_u32(s: &str) -> (r: Option<u32>)
    ensures
        r is Some <==> parse_unsigned_in(s@, u32::MAX as int) is Some,
        r matches Some(v) ==> Some(v as int) == parse_unsigned_in(s@, u32::MAX as int),
{
    let chars = chars_of(s);
    if chars.len() > 0 && chars[0] == '-' {
        return None;
    }
    match decimal_to_bounded(s, 0, 0xFFFF_FFFF) {
        Some(v) => Some(v as u32),
        None => None,
    }
}

/// The value of the first digits of a text stays what it is when the text goes on.
pub proof fn lemma_hex_value_prefix(s: Seq<char>, t: Seq<char>, n: int)
    requires
        0 <= n <= s.len(),
        n <= t.len(),
        forall|i: int| 0 <= i < n ==> s[i] == t[i],
    ensures
        hex_value(s, n) == hex_value(t, n),
    decreases n,
{
    if n > 0 {
        lemma_hex_value_prefix(s, t, n - 1);
    }
}

/// A number written in hexadecimal is read back as the number.
#[verifier::rlimit(40)]
pub proof fn lemma_hex_round_trip(v: nat, min_width: nat)
    ensures
        hex_upper(v, min_width).len() >= 1,
        forall|i: int|
            0 <= i < hex_upper(v, min_width).len() ==> hex_digit_value(
                #[trigger] hex_upper(v, min_width)[i],
            ) is Some,
        hex_value(hex_upper(v, min_width), hex_upper(v, min_width).len() as int) == v,
    decreases v, min_width,
{
    let digit = hex_digit((v % 16) as int);
    assert(hex_digit_value(digit) == Some((v % 16) as int));
    if v < 16 && min_width <= 1 {
        let s = hex_upper(v, min_width);
        assert(s.len() == 1);
        assert(hex_value(s, 0) == 0);
        assert(hex_value(s, 1) == hex_value(s, 0) * 16 + (v % 16) as int);
    } else {
        let rest: nat = if min_width == 0 { 0 } else { (min_width - 1) as nat };
        lemma_hex_round_trip(v / 16, rest);
        let head = hex_upper(v / 16, rest);
        let s = head.push(digit);
        assert(hex_upper(v, min_width) == s);
        lemma_hex_value_prefix(s, head, head.len() as int);
        assert forall|i: int| 0 <= i < s.len() implies hex_digit_value(#[trigger] s[i]) is Some by {
            if i < head.len() {
                assert(s[i] == head[i]);
            }
        }
        assert(hex_value(s, s.len() as int) == hex_value(s, head.len() as int) * 16 + (v
            % 16) as int);
    }
}

/// The code units of a text that starts with `c` are those of `c` and those of the rest.
pub proof fn lemma_utf16_encode_front(c: char, rest: Seq<char>)
    ensures
        utf16_encode(seq![c] + rest) == utf16_units(c) + utf16_encode(rest),
    decreases rest.len(),
{
    let all = seq![c] + rest;
    if rest.len() == 0 {
        assert(all =~= seq![c]);
        assert(all.drop_last() =~= Seq::<char>::empty());
        assert(utf16_encode(all.drop_last()) =~= Seq::<u16>::empty());
        assert(utf16_encode(all) =~= utf16_units(c) + utf16_encode(rest));
    } else {
        lemma_utf16_encode_front(c, rest.drop_last());
        assert(all.drop_last() =~= seq![c] + rest.drop_last());
        assert(all.last() == rest.last());
        assert(utf16_encode(all) =~= utf16_units(c) + utf16_encode(rest));
    }
}

/// The code units of the text that code units were decoded to are those code units.
#[verifier::rlimit(40)]
pub proof fn lemma_utf16_round_trip(units: Seq<u16>, i: int)
    requires
        0 <= i <= units.len(),
        utf16_decode_at(units, i) is Some,
    ensures
        utf16_encode(utf16_decode_at(units, i)->Some_0) == units.subrange(i, units.len() as int),
    decreases units.len() - i,
{
    if i >= units.len() {
        assert(units.subrange(i, units.len() as int) =~= Seq::<u16>::empty());
    } else if is_high_surrogate(units[i]) {
        let v = surrogate_pair_value(units[i], units[i + 1]);
        let c = v as char;
        let rest = utf16_decode_at(units, i + 2)->Some_0;
        lemma_utf16_round_trip(units, i + 2);
        lemma_utf16_encode_front(c, rest);
        assert(0x1_0000 <= v <= 0x10_FFFF);
        assert(c as u32 == v);
        let high = units[i] as int;
        let low = units[i + 1] as int;
        assert((v - 0x1_0000) / 0x400 == high - 0xD800 && (v - 0x1_0000) % 0x400 == low - 0xDC00)
            by {
            vstd::arithmetic::div_mod::lemma_fundamental_div_mod_converse(
                v - 0x1_0000,
                0x400,
                high - 0xD800,
                low - 0xDC00,
            );
        }
        assert(utf16_units(c) =~= seq![units[i], units[i + 1]]);
        assert(seq![units[i], units[i + 1]] + units.subrange(i + 2, units.len() as int)
            =~= units.subrange(i, units.len() as int));
    } else {
        let c = units[i] as char;
        let rest = utf16_decode_at(units, i + 1)->Some_0;
        lemma_utf16_round_trip(units, i + 1);
        lemma_utf16_encode_front(c, rest);
        assert(c as u32 == units[i]);
        assert(utf16_units(c) =~= seq![units[i]]);
        assert(seq![units[i]] + units.subrange(i + 1, units.len() as int) =~= units.subrange(
            i,
            units.len() as int,
        ));
    }
}

} // verus!
