//! The cells of a record, and what is done with the value of a field between the bytes and
//! the cell: packed booleans are taken apart, and the channels of a colour are gathered.

use vstd::prelude::*;

use crate::binary::{u16_of, u32_of, u64_of};
use crate::text::hex_upper;

verus! {

/// One cell of a record. A float is held by its bits. A sequence is held as the bytes that
/// it was read from, its count of rows included.
#[derive(Debug)]
pub enum DecodedData {
    Boolean(bool),
    F32(u32),
    F64(u64),
    I16(i16),
    I32(i32),
    I64(i64),
    ColourRGB(String),
    StringU8(String),
    StringU16(String),
    OptionalI16(i16),
    OptionalI32(i32),
    OptionalI64(i64),
    OptionalStringU8(String),
    OptionalStringU16(String),
    SequenceU16(Vec<u8>),
    SequenceU32(Vec<u8>),
}

/// What a cell holds.
pub enum Cell {
    Boolean(bool),
    F32(u32),
    F64(u64),
    I16(i16),
    I32(i32),
    I64(i64),
    ColourRGB(Seq<char>),
    StringU8(Seq<char>),
    StringU16(Seq<char>),
    OptionalI16(i16),
    OptionalI32(i32),
    OptionalI64(i64),
    OptionalStringU8(Seq<char>),
    OptionalStringU16(Seq<char>),
    SequenceU16(Seq<u8>),
    SequenceU32(Seq<u8>),
}

impl View for DecodedData {
    type V = Cell;

    open spec fn view(&self) -> Cell {
        match *self {
            DecodedData::Boolean(v) => Cell::Boolean(v),
            DecodedData::F32(v) => Cell::F32(v),
            DecodedData::F64(v) => Cell::F64(v),
            DecodedData::I16(v) => Cell::I16(v),
            DecodedData::I32(v) => Cell::I32(v),
            DecodedData::I64(v) => Cell::I64(v),
            DecodedData::ColourRGB(v) => Cell::ColourRGB(v@),
            DecodedData::StringU8(v) => Cell::StringU8(v@),
            DecodedData::StringU16(v) => Cell::StringU16(v@),
            DecodedData::OptionalI16(v) => Cell::OptionalI16(v),
            DecodedData::OptionalI32(v) => Cell::OptionalI32(v),
            DecodedData::OptionalI64(v) => Cell::OptionalI64(v),
            DecodedData::OptionalStringU8(v) => Cell::OptionalStringU8(v@),
            DecodedData::OptionalStringU16(v) => Cell::OptionalStringU16(v@),
            DecodedData::SequenceU16(v) => Cell::SequenceU16(v@),
            DecodedData::SequenceU32(v) => Cell::SequenceU32(v@),
        }
    }
}

/// What a row of cells holds.
pub open spec fn row_view(cells: Seq<DecodedData>) -> Seq<Cell> {
    Seq::new(cells.len(), |i: int| cells[i]@)
}

/// What a list of rows holds.
pub open spec fn rows_view(rows: Seq<Vec<DecodedData>>) -> Seq<Seq<Cell>> {
    Seq::new(rows.len(), |i: int| row_view(rows[i]@))
}

/// The 64 bits of an integer cell, the sign carried on to the left. Other cells have none.
pub open spec fn integer_bits(value: Cell) -> Option<u64> {
    match value {
        Cell::I16(v) => Some(u64_of(v as i64)),
        Cell::I32(v) => Some(u64_of(v as i64)),
        Cell::I64(v) => Some(u64_of(v)),
        _ => None,
    }
}

/// The lowest `n` bits of `bits`, the lowest first, as booleans.
pub open spec fn exploded(bits: nat, n: nat) -> Seq<bool>
    decreases n,
{
    if n == 0 {
        Seq::empty()
    } else {
        seq![bits % 2 == 1] + exploded(bits / 2, (n - 1) as nat)
    }
}

/// The number whose bits are the given booleans, the lowest first.
pub open spec fn assembled(bits: Seq<bool>) -> nat
    decreases bits.len(),
{
    if bits.len() == 0 {
        0
    } else {
        (if bits[0] { 1nat } else { 0nat }) + 2 * assembled(bits.drop_first())
    }
}

/// Two to the power of `n`.
pub open spec fn pow2(n: nat) -> nat
    decreases n,
{
    if n == 0 {
        1
    } else {
        2 * pow2((n - 1) as nat)
    }
}

/// Taking the lowest `n` bits apart and putting them together again gives what those bits
/// stand for.
pub proof fn lemma_assembled_exploded(bits: nat, n: nat)
    ensures
        exploded(bits, n).len() == n,
        assembled(exploded(bits, n)) == bits % pow2(n),
    decreases n,
{
    if n > 0 {
        lemma_assembled_exploded(bits / 2, (n - 1) as nat);
        let rest = exploded(bits / 2, (n - 1) as nat);
        let all = exploded(bits, n);
        assert(all.drop_first() =~= rest);
        lemma_pow2_positive((n - 1) as nat);
        let p = pow2((n - 1) as nat);
        assert(bits % (2 * p) == (bits % 2) + 2 * ((bits / 2) % p)) by {
            lemma_mod_double(bits, p);
        }
    }
}

/// Powers of two are positive.
pub proof fn lemma_pow2_positive(n: nat)
    ensures
        pow2(n) > 0,
    decreases n,
{
    if n > 0 {
        lemma_pow2_positive((n - 1) as nat);
    }
}

/// The remainder by twice `p` is made of the lowest bit and the remainder of the rest by
/// `p`.
pub proof fn lemma_mod_double(bits: nat, p: nat)
    requires
        p > 0,
    ensures
        bits % (2 * p) == (bits % 2) + 2 * ((bits / 2) % p),
{
    let q = (bits / 2) / p;
    let r = (bits / 2) % p;
    assert(bits / 2 == q * p + r) by (nonlinear_arith)
        requires
            q == (bits / 2) / p,
            r == (bits / 2) % p,
            p > 0,
    ;
    assert(bits == 2 * (bits / 2) + bits % 2);
    let low = (bits % 2) + 2 * r;
    assert(bits == q * (2 * p) + low) by (nonlinear_arith)
        requires
            bits == 2 * (bits / 2) + bits % 2,
            bits / 2 == q * p + r,
            low == (bits % 2) + 2 * r,
    ;
    assert(0 <= low < 2 * p);
    vstd::arithmetic::div_mod::lemma_fundamental_div_mod_converse(
        bits as int,
        (2 * p) as int,
        q as int,
        low as int,
    );
}

/// The channels of one colour group, as far as they were read. A channel is named by the
/// end of the name of its field, and both the short and the long names count.
#[derive(Clone, Copy, Debug, PartialEq, Eq, Structural)]
pub struct ColourGroup {
    pub r: Option<u8>,
    pub red: Option<u8>,
    pub g: Option<u8>,
    pub green: Option<u8>,
    pub b: Option<u8>,
    pub blue: Option<u8>,
}

/// A colour group of which no channel was read.
pub open spec fn empty_group() -> ColourGroup {
    ColourGroup { r: None, red: None, g: None, green: None, b: None, blue: None }
}

/// The group after the channel with the given name was read. A channel of another name
/// leaves the group as it is.
pub open spec fn with_channel(group: ColourGroup, channel: Seq<char>, value: u8) -> ColourGroup {
    if channel == "r"@ {
        ColourGroup { r: Some(value), ..group }
    } else if channel == "red"@ {
        ColourGroup { red: Some(value), ..group }
    } else if channel == "g"@ {
        ColourGroup { g: Some(value), ..group }
    } else if channel == "green"@ {
        ColourGroup { green: Some(value), ..group }
    } else if channel == "b"@ {
        ColourGroup { b: Some(value), ..group }
    } else if channel == "blue"@ {
        ColourGroup { blue: Some(value), ..group }
    } else {
        group
    }
}

/// The two hexadecimal digits of a channel, or nothing where the channel was not read.
pub open spec fn channel_hex(channel: Option<u8>) -> Seq<char> {
    match channel {
        Some(v) => hex_upper(v as nat, 2),
        None => Seq::empty(),
    }
}

/// The colour of a group as text: the digits of its channels, red first, then green, then
/// blue.
pub open spec fn group_hex(group: ColourGroup) -> Seq<char> {
    channel_hex(group.r) + channel_hex(group.red) + channel_hex(group.g) + channel_hex(
        group.green,
    ) + channel_hex(group.b) + channel_hex(group.blue)
}

/// The number of channels of a group that were read.
pub open spec fn channel_count(group: ColourGroup) -> nat {
    (if group.r is Some { 1nat } else { 0 }) + (if group.red is Some { 1nat } else { 0 }) + (
    if group.g is Some { 1nat } else { 0 }) + (if group.green is Some { 1nat } else { 0 }) + (
    if group.b is Some { 1nat } else { 0 }) + (if group.blue is Some { 1nat } else { 0 })
}

/// The value of a float, given by the bits of its single-precision form, as a number
/// between 0 and 255: what lies below is 0, what lies above is 255, what is no number is
/// 0, and a fraction is cut off.
pub open spec fn f32_bits_to_u8(bits: u32) -> u8 {
    let negative = bits >> 31 == 1;
    let exponent = (bits >> 23) & 0xFF;
    let mantissa = bits & 0x7F_FFFF;
    if negative {
        0
    } else if exponent == 255 {
        if mantissa != 0 {
            0
        } else {
            255
        }
    } else if exponent < 127 {
        0
    } else if exponent >= 135 {
        255
    } else {
        ((0x80_0000 | mantissa) >> ((150 - exponent) as u32)) as u8
    }
}

/// The value of a float, given by the bits of its double-precision form, as a number
/// between 0 and 255.
pub open spec fn f64_bits_to_u8(bits: u64) -> u8 {
    let negative = bits >> 63 == 1;
    let exponent = (bits >> 52) & 0x7FF;
    let mantissa = bits & 0xF_FFFF_FFFF_FFFF;
    if negative {
        0
    } else if exponent == 2047 {
        if mantissa != 0 {
            0
        } else {
            255
        }
    } else if exponent < 1023 {
        0
    } else if exponent >= 1031 {
        255
    } else {
        ((0x10_0000_0000_0000 | mantissa) >> ((1075 - exponent) as u64)) as u8
    }
}

/// The position of the highest bit of a number between 1 and 255.
pub open spec fn highest_bit(v: u8) -> u32 {
    if v >= 128 {
        7
    } else if v >= 64 {
        6
    } else if v >= 32 {
        5
    } else if v >= 16 {
        4
    } else if v >= 8 {
        3
    } else if v >= 4 {
        2
    } else if v >= 2 {
        1
    } else {
        0
    }
}

/// The bits of the single-precision float with the value `v`.
pub open spec fn u8_to_f32_bits(v: u8) -> u32 {
    if v == 0 {
        0
    } else {
        ((127 + highest_bit(v)) as u32) << 23 | (((v as u32) << ((23 - highest_bit(v)) as u32))
            & 0x7F_FFFF)
    }
}

/// The bits of the double-precision float with the value `v`.
pub open spec fn u8_to_f64_bits(v: u8) -> u64 {
    if v == 0 {
        0
    } else {
        ((1023 + highest_bit(v)) as u64) << 52 | (((v as u64) << ((52 - highest_bit(v)) as u64))
            & 0xF_FFFF_FFFF_FFFF)
    }
}

/// The value of a numeric cell as a channel of a colour: the lowest eight bits of an
/// integer, the value of a float between 0 and 255. Other cells have none.
pub open spec fn channel_value(value: Cell) -> Option<u8> {
    match value {
        Cell::I16(v) => Some((u16_of(v) % 0x100) as u8),
        Cell::I32(v) => Some((u32_of(v) % 0x100) as u8),
        Cell::I64(v) => Some((u64_of(v) % 0x100) as u8),
        Cell::F32(bits) => Some(f32_bits_to_u8(bits)),
        Cell::F64(bits) => Some(f64_bits_to_u8(bits)),
        _ => None,
    }
}

/// The value of a float as a number between 0 and 255.
pub fn f32_to_channel(bits: u32) -> (r: u8)
    ensures
        r == f32_bits_to_u8(bits),
{
    let negative: bool = bits >> 31 == 1;
    let exponent: u32 = (bits >> 23) & 0xFF;
    let mantissa: u32 = bits & 0x7F_FFFF;
    assert(((bits >> 23) & 0xFF) <= 255) by (bit_vector);
    if negative {
        0
    } else if exponent == 255 {
        if mantissa != 0 {
            0
        } else {
            255
        }
    } else if exponent < 127 {
        0
    } else if exponent >= 135 {
        255
    } else {
        ((0x80_0000 | mantissa) >> (150 - exponent)) as u8
    }
}

/// The value of a float as a number between 0 and 255.
pub fn f64_to_channel(bits: u64) -> (r: u8)
    ensures
        r == f64_bits_to_u8(bits),
{
    let negative: bool = bits >> 63 == 1;
    let exponent: u64 = (bits >> 52) & 0x7FF;
    let mantissa: u64 = bits & 0xF_FFFF_FFFF_FFFF;
    assert(((bits >> 52) & 0x7FF) <= 2047) by (bit_vector);
    if negative {
        0
    } else if exponent == 2047 {
        if mantissa != 0 {
            0
        } else {
            255
        }
    } else if exponent < 1023 {
        0
    } else if exponent >= 1031 {
        255
    } else {
        ((0x10_0000_0000_0000 | mantissa) >> (1075 - exponent)) as u8
    }
}

/// The position of the highest bit of a number between 1 and 255.
fn highest_bit_of(v: u8) -> (r: u32)
    ensures
        r == highest_bit(v),
        r <= 7,
{
    if v >= 128 {
        7
    } else if v >= 64 {
        6
    } else if v >= 32 {
        5
    } else if v >= 16 {
        4
    } else if v >= 8 {
        3
    } else if v >= 4 {
        2
    } else if v >= 2 {
        1
    } else {
        0
    }
}

/// The bits of the single-precision float with the value `v`.
pub fn channel_to_f32(v: u8) -> (r: u32)
    ensures
        r == u8_to_f32_bits(v),
{
    if v == 0 {
        0
    } else {
        let p: u32 = highest_bit_of(v);
        (127 + p) << 23 | (((v as u32) << (23 - p)) & 0x7F_FFFF)
    }
}

/// The bits of the double-precision float with the value `v`.
pub fn channel_to_f64(v: u8) -> (r: u64)
    ensures
        r == u8_to_f64_bits(v),
{
    if v == 0 {
        0
    } else {
        let p: u64 = highest_bit_of(v) as u64;
        (1023 + p) << 52 | (((v as u64) << (52 - p)) & 0xF_FFFF_FFFF_FFFF)
    }
}

} // verus!
