//! What holds of decoding and encoding together.

use vstd::prelude::*;

use vstd::utf8::encode_utf8;

use crate::binary::{
    lemma_bool_read_write, lemma_signed_read_write, lemma_sized_string_u16_read_write,
    lemma_sized_string_u8_read_write, lemma_subrange_join, lemma_u32_read_write,
    lemma_u64_read_write, parse_bool, parse_optional_string_u16, parse_optional_string_u8,
    parse_sized_string_u16, parse_sized_string_u8, parse_u32, u16_of, u32_of, u64_of,
};
use crate::error::RLibError;
use crate::schema::{Definition, FieldType};
use crate::table::decode::{
    empty_row, finished_row, spec_decode_field, spec_decode_plain, spec_decode_row,
    spec_decode_rows, spec_decode_table,
};
use crate::table::encode::{
    bit_columns, colour_columns, field_bytes, field_columns, first_channel, plain_columns,
    processed_columns, row_bytes, rows_bytes, table_bytes, ProcessedFieldView,
};
use crate::table::cells::ColourGroup;
use crate::table::cells::{channel_hex, empty_group, group_hex};
use crate::table::encode::channel_of_colour;
use crate::text::{
    escaped, hex_digit, hex_digit_value, hex_upper, hex_value, lemma_hex_round_trip,
    parse_hex_u32, unescaped,
};
use crate::error::FieldKind;
use crate::schema::{Field, FieldRole};
use crate::table::cells::{
    assembled, exploded, integer_bits, lemma_assembled_exploded, lemma_pow2_positive, pow2, Cell,
};
use crate::table::decode::{bit_cells, postprocessed, RowState};
use crate::table::encode::{bitwise_bytes, boolean_cells, plain_bytes};

verus! {

/// The number of bits of an integer type.
pub open spec fn kind_width(kind: FieldKind) -> int {
    match kind {
        FieldKind::I16 => 16,
        FieldKind::I32 => 32,
        _ => 64,
    }
}

/// The number that an integer cell holds.
pub open spec fn integer_value(value: Cell) -> int {
    match value {
        Cell::I16(v) => v as int,
        Cell::I32(v) => v as int,
        Cell::I64(v) => v as int,
        _ => 0,
    }
}

/// True when the cell is an integer of the given type.
pub open spec fn is_integer_of(kind: FieldKind, value: Cell) -> bool {
    ||| kind == FieldKind::I16 && value is I16
    ||| kind == FieldKind::I32 && value is I32
    ||| kind == FieldKind::I64 && value is I64
}

/// A power of two is the product of two smaller ones.
pub proof fn lemma_pow2_split(n: nat, k: nat)
    requires
        k <= n,
    ensures
        pow2(n) == pow2(k) * pow2((n - k) as nat),
    decreases n,
{
    if k < n {
        lemma_pow2_split((n - 1) as nat, k);
        assert(pow2(n) == 2 * pow2((n - 1) as nat));
        assert(pow2((n - k) as nat) == 2 * pow2((n - 1 - k) as nat));
        assert(2 * (pow2(k) * pow2((n - 1 - k) as nat)) == pow2(k) * (2 * pow2((n - 1 - k) as nat)))
            by (nonlinear_arith);
    } else {
        assert(pow2(0) == 1);
        assert(pow2(k) * 1 == pow2(k)) by (nonlinear_arith);
    }
}

/// The powers of two that the integer types end at.
pub proof fn lemma_pow2_widths()
    ensures
        pow2(16) == 0x1_0000,
        pow2(32) == 0x1_0000_0000,
        pow2(48) == 0x1_0000_0000_0000,
        pow2(64) == 0x1_0000_0000_0000_0000,
{
    reveal_with_fuel(pow2, 17);
    assert(pow2(16) == 0x1_0000);
    lemma_pow2_split(32, 16);
    lemma_pow2_split(48, 16);
    lemma_pow2_split(64, 32);
    lemma_pow2_split(48, 32);
}

/// The cells that packed booleans became are read back as those booleans.
pub proof fn lemma_boolean_cells_of_bits(
    before: Seq<Cell>,
    bits: Seq<bool>,
    after: Seq<Cell>,
    n: int,
)
    requires
        0 <= n <= bits.len(),
    ensures
        boolean_cells(before + bit_cells(bits) + after, before.len() as int, n) == Some(
            bits.subrange(0, n),
        ),
    decreases n,
{
    let row = before + bit_cells(bits) + after;
    let c = before.len() as int;
    if n > 0 {
        lemma_boolean_cells_of_bits(before, bits, after, n - 1);
        assert(row[c + n - 1] == Cell::Boolean(bits[n - 1]));
        assert(bits.subrange(0, n - 1).push(bits[n - 1]) =~= bits.subrange(0, n));
    } else {
        assert(bits.subrange(0, 0) =~= Seq::<bool>::empty());
    }
}

/// The lowest bits of the bits of a number, the sign carried on, are the bits of the
/// number in its own width.
#[verifier::rlimit(40)]
pub proof fn lemma_low_bits(value: Cell, n: nat)
    requires
        value is I16 || value is I32 || value is I64,
        n <= 64,
        ({
            let width: int = if value is I16 { 16 } else if value is I32 { 32 } else { 64 };
            width <= n || 0 <= integer_value(value) < pow2(n)
        }),
    ensures
        value matches Cell::I16(v) ==> (integer_bits(value)->Some_0 as nat % pow2(n)) % 0x1_0000
            == u16_of(v),
        value matches Cell::I32(v) ==> (integer_bits(value)->Some_0 as nat % pow2(n))
            % 0x1_0000_0000 == u32_of(v),
        value matches Cell::I64(v) ==> integer_bits(value)->Some_0 as nat % pow2(n) == u64_of(v),
{
    lemma_pow2_widths();
    lemma_pow2_positive(n);
    let bits = integer_bits(value)->Some_0 as nat;
    let p = pow2(n);
    match value {
        Cell::I16(v) => {
            if n >= 16 {
                lemma_pow2_split(n, 16);
                lemma_pow2_positive((n - 16) as nat);
                vstd::arithmetic::div_mod::lemma_mod_mod(
                    bits as int,
                    0x1_0000,
                    pow2((n - 16) as nat) as int,
                );
                if v < 0 {
                    vstd::arithmetic::div_mod::lemma_fundamental_div_mod_converse(
                        v + 0x1_0000_0000_0000_0000,
                        0x1_0000,
                        0xFFFF_FFFF_FFFF,
                        v + 0x1_0000,
                    );
                }
            } else {
                lemma_pow2_split(16, n);
                lemma_pow2_positive((16 - n) as nat);
                assert(p <= 0x1_0000) by (nonlinear_arith)
                    requires
                        0x1_0000 == p * pow2((16 - n) as nat),
                        pow2((16 - n) as nat) > 0,
                        p > 0,
                ;
                vstd::arithmetic::div_mod::lemma_small_mod(bits, p);
            }
        },
        Cell::I32(v) => {
            if n >= 32 {
                lemma_pow2_split(n, 32);
                lemma_pow2_positive((n - 32) as nat);
                vstd::arithmetic::div_mod::lemma_mod_mod(
                    bits as int,
                    0x1_0000_0000,
                    pow2((n - 32) as nat) as int,
                );
                if v < 0 {
                    vstd::arithmetic::div_mod::lemma_fundamental_div_mod_converse(
                        v + 0x1_0000_0000_0000_0000,
                        0x1_0000_0000,
                        0xFFFF_FFFF,
                        v + 0x1_0000_0000,
                    );
                }
            } else {
                lemma_pow2_split(32, n);
                lemma_pow2_positive((32 - n) as nat);
                assert(p <= 0x1_0000_0000) by (nonlinear_arith)
                    requires
                        0x1_0000_0000 == p * pow2((32 - n) as nat),
                        pow2((32 - n) as nat) > 0,
                        p > 0,
                ;
                vstd::arithmetic::div_mod::lemma_small_mod(bits, p);
            }
        },
        Cell::I64(v) => {
            if n >= 64 {
                vstd::arithmetic::div_mod::lemma_small_mod(bits, p);
            } else {
                lemma_pow2_split(64, n);
                lemma_pow2_positive((64 - n) as nat);
                assert(p <= 0x1_0000_0000_0000_0000) by (nonlinear_arith)
                    requires
                        0x1_0000_0000_0000_0000 == p * pow2((64 - n) as nat),
                        pow2((64 - n) as nat) > 0,
                        p > 0,
                ;
                vstd::arithmetic::div_mod::lemma_small_mod(bits, p);
            }
        },
        _ => {},
    }
}

/// Bit fields come back as they were: where a field packs `n` booleans into an integer,
/// and the integer has no bit set above the `n`-th or `n` is the width of its type at
/// least, decoding the integer and encoding the cells that it became gives the bytes of the
/// integer. `st` is the row before the field, `after` the cells behind those of the field.
#[verifier::rlimit(40)]
pub proof fn lemma_bit_field_round_trip(
    field: Field,
    value: Cell,
    st: RowState,
    after: Seq<Cell>,
    i: int,
)
    requires
        field.spec_role() == FieldRole::Bitwise,
        field.is_bitwise <= 64,
        is_integer_of(field.field_type.spec_kind(), value),
        kind_width(field.field_type.spec_kind()) <= field.is_bitwise || 0 <= integer_value(value)
            < pow2(field.is_bitwise as nat),
    ensures
        bitwise_bytes(
            field,
            postprocessed(field, value, st).cells + after,
            st.cells.len() as int,
            i,
        ) == plain_bytes(field.field_type.spec_kind(), value, i),
{
    let kind = field.field_type.spec_kind();
    let n = field.is_bitwise as nat;
    let bits = integer_bits(value)->Some_0 as nat;
    let cells = exploded(bits, n);
    lemma_assembled_exploded(bits, n);
    lemma_boolean_cells_of_bits(st.cells, cells, after, n as int);
    assert(cells.subrange(0, n as int) =~= cells);
    lemma_low_bits(value, n);
    lemma_pow2_widths();
    lemma_pow2_positive(n);
    let total = assembled(cells);
    assert(total == bits % pow2(n));
    assert(total < 0x1_0000_0000_0000_0000) by {
        assert(bits < 0x1_0000_0000_0000_0000);
        vstd::arithmetic::div_mod::lemma_mod_bound(bits as int, pow2(n) as int);
        vstd::arithmetic::div_mod::lemma_mod_decreases(bits, pow2(n));
    }
    assert(postprocessed(field, value, st).cells + after =~= st.cells + bit_cells(cells) + after);
}

/// True when the text that a text field holds at `pos` can be escaped and restored.
pub open spec fn text_survives(text: Seq<char>) -> bool {
    unescaped(escaped(text)) == text
}

/// True when the value of a plain field that stands at `pos` is written as it is read:
///
/// - an optional integer has the byte in front of it set to 1;
/// - a text can be escaped and restored;
/// - an optional text that is there is not empty.
///
/// Booleans, integers, floats and colours always are.
pub open spec fn plain_is_faithful(data: Seq<u8>, kind: FieldKind, pos: int) -> bool {
    match kind {
        FieldKind::OptionalI16 | FieldKind::OptionalI32 | FieldKind::OptionalI64 => parse_bool(
            data,
            pos,
        ) matches Ok((flag, _)) && flag,
        FieldKind::StringU8 => parse_sized_string_u8(data, pos) matches Ok((text, _))
            && text_survives(text),
        FieldKind::StringU16 => parse_sized_string_u16(data, pos) matches Ok((text, _))
            && text_survives(text),
        FieldKind::OptionalStringU8 => parse_optional_string_u8(data, pos) matches Ok((text, _))
            && text_survives(text) && (parse_bool(data, pos) matches Ok((flag, _)) && (flag
            <==> text.len() > 0)),
        FieldKind::OptionalStringU16 => parse_optional_string_u16(data, pos) matches Ok((text, _))
            && text_survives(text) && (parse_bool(data, pos) matches Ok((flag, _)) && (flag
            <==> text.len() > 0)),
        _ => true,
    }
}

/// Plain fields come back as they were: decoding the value of a plain field that is
/// written as it is read, and encoding the cell, gives the bytes that the value was read
/// from.
#[verifier::rlimit(40)]
pub proof fn lemma_plain_round_trip(data: Seq<u8>, kind: FieldKind, pos: int, i: int)
    requires
        spec_decode_plain(data, kind, pos) is Some,
        plain_is_faithful(data, kind, pos),
    ensures
        ({
            let (cell, next) = spec_decode_plain(data, kind, pos)->Some_0;
            &&& pos <= next <= data.len()
            &&& plain_bytes(kind, cell, i) == Ok::<Seq<u8>, RLibError>(data.subrange(pos, next))
        }),
{
    let (cell, next) = spec_decode_plain(data, kind, pos)->Some_0;
    let goal = Ok::<Seq<u8>, RLibError>(data.subrange(pos, next));
    match kind {
        FieldKind::Boolean => {
            lemma_bool_read_write(data, pos);
            assert(plain_bytes(kind, cell, i) == goal);
        },
        FieldKind::F32 => {
            lemma_u32_read_write(data, pos);
            assert(plain_bytes(kind, cell, i) == goal);
        },
        FieldKind::F64 => {
            lemma_u64_read_write(data, pos);
            assert(plain_bytes(kind, cell, i) == goal);
        },
        FieldKind::I16 | FieldKind::I32 | FieldKind::I64 => {
            lemma_signed_read_write(data, pos);
            assert(plain_bytes(kind, cell, i) == goal);
        },
        FieldKind::ColourRGB => {
            let v = parse_u32(data, pos)->Ok_0.0;
            lemma_u32_read_write(data, pos);
            lemma_hex_round_trip(v as nat, 6);
            assert(crate::text::parse_hex_u32(crate::text::hex_upper(v as nat, 6)) == Some(v));
            assert(plain_bytes(kind, cell, i) == goal);
        },
        FieldKind::OptionalI16 | FieldKind::OptionalI32 | FieldKind::OptionalI64 => {
            lemma_bool_read_write(data, pos);
            lemma_signed_read_write(data, pos + 1);
            lemma_subrange_join(data, pos, pos + 1, next);
            assert(seq![1u8] =~= data.subrange(pos, pos + 1));
            assert(plain_bytes(kind, cell, i) == goal);
        },
        FieldKind::StringU8 => {
            lemma_sized_string_u8_read_write(data, pos);
            let text = parse_sized_string_u8(data, pos)->Ok_0.0;
            lemma_text_length(data, pos);
            assert(plain_bytes(kind, cell, i) == goal);
        },
        FieldKind::StringU16 => {
            lemma_sized_string_u16_read_write(data, pos);
            assert(plain_bytes(kind, cell, i) == goal);
        },
        FieldKind::OptionalStringU8 => {
            lemma_bool_read_write(data, pos);
            if parse_bool(data, pos)->Ok_0.0 {
                lemma_sized_string_u8_read_write(data, pos + 1);
                lemma_text_length(data, pos + 1);
                lemma_subrange_join(data, pos, pos + 1, next);
                assert(seq![1u8] =~= data.subrange(pos, pos + 1));
            } else {
                assert(seq![0u8] =~= data.subrange(pos, pos + 1));
                assert(encode_utf8(Seq::<char>::empty()) =~= Seq::<u8>::empty());
            }
            assert(plain_bytes(kind, cell, i) == goal);
        },
        FieldKind::OptionalStringU16 => {
            lemma_bool_read_write(data, pos);
            if parse_bool(data, pos)->Ok_0.0 {
                lemma_sized_string_u16_read_write(data, pos + 1);
                lemma_subrange_join(data, pos, pos + 1, next);
                assert(seq![1u8] =~= data.subrange(pos, pos + 1));
            } else {
                assert(seq![0u8] =~= data.subrange(pos, pos + 1));
                assert(crate::text::utf16_encode(Seq::<char>::empty()) =~= Seq::<u16>::empty());
            }
            assert(plain_bytes(kind, cell, i) == goal);
        },
        _ => {},
    }
}

/// A text that was read with its length in front has as many bytes as its length tells.
pub proof fn lemma_text_length(data: Seq<u8>, pos: int)
    requires
        parse_sized_string_u8(data, pos) is Ok,
    ensures
        encode_utf8(parse_sized_string_u8(data, pos)->Ok_0.0).len() <= 0xFFFF,
{
    let n = crate::binary::le_u16(data, pos) as int;
    vstd::utf8::decode_utf8_encode_utf8(data.subrange(pos + 2, pos + 2 + n));
}

/// True when every field gives its value as one cell or packs booleans, 64 at most.
pub open spec fn is_simple(definition: Definition) -> bool {
    forall|i: int|
        0 <= i < definition.fields@.len() ==> {
            let field = #[trigger] definition.fields@[i];
            field.spec_role() == FieldRole::Plain || (field.spec_role() == FieldRole::Bitwise
                && field.is_bitwise <= 64)
        }
}

/// True when the value of a field that stands at `pos` is written as it is read.
pub open spec fn field_is_faithful(data: Seq<u8>, field: Field, pos: int) -> bool {
    let kind = field.field_type.spec_kind();
    match field.spec_role() {
        FieldRole::Plain => kind == FieldKind::SequenceU16 || kind == FieldKind::SequenceU32
            || plain_is_faithful(data, kind, pos),
        FieldRole::Bitwise => match spec_decode_field(data, field, pos) {
            Some((value, _)) => kind_width(kind) <= field.is_bitwise || 0 <= integer_value(value)
                < pow2(field.is_bitwise as nat),
            None => true,
        },
        _ => false,
    }
}

/// True when the values of the fields from `i` on of a row that stands at `pos` are
/// written as they are read.
pub open spec fn row_is_faithful(definition: Definition, data: Seq<u8>, pos: int, i: int) -> bool
    decreases definition.fields@.len() - i,
{
    if i < 0 || i >= definition.fields@.len() {
        true
    } else {
        &&& field_is_faithful(data, definition.fields@[i], pos)
        &&& match spec_decode_field(data, definition.fields@[i], pos) {
            Some((_, next)) => row_is_faithful(definition, data, next, i + 1),
            None => true,
        }
    }
}

/// A row of which no channel of a colour was read ends with the cells of its fields.
pub proof fn lemma_finished_without_colours(cells: Seq<Cell>, next: int)
    requires
        0 <= next,
    ensures
        finished_row(cells, empty_row().colours, next) == Ok::<Seq<Cell>, RLibError>(cells),
    decreases 256 - next,
{
    if next < 256 {
        lemma_finished_without_colours(cells, next + 1);
    }
}

/// What decoding a field does to a row: the field ends within the data, no channel of a
/// colour is gathered, and the cells that were there stay in front.
#[verifier::rlimit(40)]
pub proof fn lemma_field_effect(data: Seq<u8>, field: Field, pos: int, st: RowState)
    requires
        field.spec_role() == FieldRole::Plain || (field.spec_role() == FieldRole::Bitwise
            && field.is_bitwise <= 64),
        field_is_faithful(data, field, pos),
        spec_decode_field(data, field, pos) is Some,
        0 <= pos <= data.len(),
    ensures
        ({
            let (value, next) = spec_decode_field(data, field, pos)->Some_0;
            let after = postprocessed(field, value, st);
            &&& pos <= next <= data.len()
            &&& after.colours == st.colours
            &&& after.cells.len() >= st.cells.len()
            &&& after.cells.subrange(0, st.cells.len() as int) == st.cells
        }),
{
    let kind = field.field_type.spec_kind();
    let (value, next) = spec_decode_field(data, field, pos)->Some_0;
    let after = postprocessed(field, value, st);
    let c = st.cells.len() as int;
    match field.spec_role() {
        FieldRole::Plain => {
            assert(after.cells == st.cells.push(value));
            assert(after.cells.subrange(0, c) =~= st.cells);
            match field.field_type {
                FieldType::SequenceU16(_) => {},
                FieldType::SequenceU32(_) => {},
                _ => {
                    lemma_plain_round_trip(data, kind, pos, 0);
                },
            }
        },
        FieldRole::Bitwise => {
            lemma_plain_round_trip(data, kind, pos, 0);
            let bits = exploded(integer_bits(value)->Some_0 as nat, field.is_bitwise as nat);
            assert(after.cells == st.cells + bit_cells(bits));
            assert(after.cells.subrange(0, c) =~= st.cells);
        },
        _ => {},
    }
}

/// The value of a field that is written as it is read, decoded and encoded, gives the
/// bytes that it was read from. `row` is any row that starts with the cells that were there
/// after the field.
#[verifier::rlimit(40)]
pub proof fn lemma_field_round_trip(
    data: Seq<u8>,
    field: Field,
    columns: Seq<ProcessedFieldView>,
    pos: int,
    st: RowState,
    row: Seq<Cell>,
    i: int,
)
    requires
        field.spec_role() == FieldRole::Plain || (field.spec_role() == FieldRole::Bitwise
            && field.is_bitwise <= 64),
        field_is_faithful(data, field, pos),
        spec_decode_field(data, field, pos) is Some,
        0 <= pos <= data.len(),
        postprocessed(field, spec_decode_field(data, field, pos)->Some_0.0, st).cells.len()
            <= row.len(),
        row.subrange(
            0,
            postprocessed(field, spec_decode_field(data, field, pos)->Some_0.0, st).cells.len() as int,
        ) == postprocessed(field, spec_decode_field(data, field, pos)->Some_0.0, st).cells,
    ensures
        field_bytes(field, columns, row, st.cells.len() as int, i) == Ok::<
            (Seq<u8>, int),
            RLibError,
        >(
            (
                data.subrange(pos, spec_decode_field(data, field, pos)->Some_0.1),
                postprocessed(
                    field,
                    spec_decode_field(data, field, pos)->Some_0.0,
                    st,
                ).cells.len() as int,
            ),
        ),
{
    let kind = field.field_type.spec_kind();
    let (value, next) = spec_decode_field(data, field, pos)->Some_0;
    let after = postprocessed(field, value, st);
    let c = st.cells.len() as int;
    lemma_field_effect(data, field, pos, st);
    match field.spec_role() {
        FieldRole::Plain => {
            assert(after.cells == st.cells.push(value));
            assert(row[c] == row.subrange(0, after.cells.len() as int)[c]);
            assert(row[c] == value);
            match field.field_type {
                FieldType::SequenceU16(_) => {},
                FieldType::SequenceU32(_) => {},
                _ => {
                    lemma_plain_round_trip(data, kind, pos, i);
                },
            }
        },
        FieldRole::Bitwise => {
            lemma_plain_round_trip(data, kind, pos, i);
            let bits = exploded(integer_bits(value)->Some_0 as nat, field.is_bitwise as nat);
            lemma_assembled_exploded(integer_bits(value)->Some_0 as nat, field.is_bitwise as nat);
            assert(after.cells == st.cells + bit_cells(bits));
            let rest = row.subrange(after.cells.len() as int, row.len() as int);
            assert(row =~= after.cells + rest);
            lemma_bit_field_round_trip(field, value, st, rest, i);
        },
        _ => {},
    }
}

/// Rows come back as they were: decoding a row whose values are written as they are read,
/// and encoding its cells, gives the bytes that the row was read from. `st` is the row
/// before field `i`, `done` the bytes of the fields before it.
#[verifier::rlimit(40)]
pub proof fn lemma_row_round_trip(
    definition: Definition,
    columns: Seq<ProcessedFieldView>,
    data: Seq<u8>,
    pos: int,
    row: u32,
    i: int,
    st: RowState,
    done: Seq<u8>,
)
    requires
        0 <= i <= definition.fields@.len(),
        0 <= pos <= data.len(),
        is_simple(definition),
        st.colours == empty_row().colours,
        row_is_faithful(definition, data, pos, i),
        spec_decode_row(definition, data, pos, row, i, st, false) is Ok,
    ensures
        ({
            let (cells, end) = spec_decode_row(definition, data, pos, row, i, st, false)->Ok_0;
            &&& pos <= end <= data.len()
            &&& cells.len() >= st.cells.len()
            &&& cells.subrange(0, st.cells.len() as int) == st.cells
            &&& row_bytes(definition.fields@, columns, cells, i, st.cells.len() as int, done)
                == Ok::<Seq<u8>, RLibError>(done + data.subrange(pos, end))
        }),
    decreases definition.fields@.len() - i,
{
    let (cells, end) = spec_decode_row(definition, data, pos, row, i, st, false)->Ok_0;
    if i >= definition.fields@.len() {
        lemma_finished_without_colours(st.cells, 0);
        assert(cells.subrange(0, st.cells.len() as int) =~= st.cells);
        assert(done + data.subrange(pos, pos) =~= done);
    } else {
        let field = definition.fields@[i];
        assert(field.spec_role() == FieldRole::Plain || (field.spec_role() == FieldRole::Bitwise
            && field.is_bitwise <= 64));
        let (value, next) = spec_decode_field(data, field, pos)->Some_0;
        let after = postprocessed(field, value, st);
        lemma_field_effect(data, field, pos, st);
        let bytes = data.subrange(pos, next);
        lemma_row_round_trip(definition, columns, data, next, row, i + 1, after, done + bytes);
        let n = after.cells.len() as int;
        let c = st.cells.len() as int;
        assert(cells.subrange(0, n) == after.cells);
        assert(cells.subrange(0, c) =~= st.cells) by {
            assert forall|k: int| 0 <= k < c implies cells[k] == st.cells[k] by {
                assert(cells[k] == cells.subrange(0, n)[k]);
                assert(after.cells[k] == after.cells.subrange(0, c)[k]);
            }
        }
        lemma_field_round_trip(data, field, columns, pos, st, cells, i);
        assert(done + bytes + data.subrange(next, end) =~= done + data.subrange(pos, end)) by {
            lemma_subrange_join(data, pos, next, end);
        }
    }
}

/// The number of cells that the fields from `i` on give.
pub open spec fn width_from(fields: Seq<Field>, i: int) -> int
    decreases fields.len() - i,
{
    if i < 0 || i >= fields.len() {
        0
    } else {
        (if fields[i].spec_role() == FieldRole::Bitwise {
            fields[i].is_bitwise as int
        } else {
            1
        }) + width_from(fields, i + 1)
    }
}

/// A field that packs `n` booleans becomes `n` columns.
pub proof fn lemma_bit_columns_len(name: Seq<char>, k: int, n: int)
    requires
        0 <= k <= n,
    ensures
        bit_columns(name, k, n).len() == n - k,
    decreases n - k,
{
    if k < n {
        lemma_bit_columns_len(name, k + 1, n);
    }
}

/// The fields of a simple definition become as many columns as they give cells.
pub proof fn lemma_plain_columns_len(
    definition: Definition,
    i: int,
    done: Seq<ProcessedFieldView>,
)
    requires
        0 <= i <= definition.fields@.len(),
        is_simple(definition),
    ensures
        plain_columns(definition.fields@, i, done).len() == done.len() + width_from(
            definition.fields@,
            i,
        ),
    decreases definition.fields@.len() - i,
{
    if i < definition.fields@.len() {
        let field = definition.fields@[i];
        assert(field.spec_role() == FieldRole::Plain || (field.spec_role() == FieldRole::Bitwise
            && field.is_bitwise <= 64));
        if field.spec_role() == FieldRole::Bitwise {
            lemma_bit_columns_len(field.name@, 0, field.is_bitwise as int);
        }
        lemma_plain_columns_len(definition, i + 1, done + field_columns(field));
    }
}

/// A simple definition has no channel of a colour.
pub proof fn lemma_no_channel(definition: Definition, group: u8, i: int)
    requires
        0 <= i <= definition.fields@.len(),
        is_simple(definition),
    ensures
        first_channel(definition.fields@, group, i) == definition.fields@.len(),
    decreases definition.fields@.len() - i,
{
    if i < definition.fields@.len() {
        let field = definition.fields@[i];
        assert(field.spec_role() == FieldRole::Plain || (field.spec_role() == FieldRole::Bitwise
            && field.is_bitwise <= 64));
        lemma_no_channel(definition, group, i + 1);
    }
}

/// A simple definition has no column for a colour.
pub proof fn lemma_no_colour_columns(
    definition: Definition,
    group: int,
    done: Seq<ProcessedFieldView>,
)
    requires
        0 <= group,
        is_simple(definition),
    ensures
        colour_columns(definition.fields@, group, done) == done,
    decreases 256 - group,
{
    if group < 256 {
        lemma_no_channel(definition, group as u8, 0);
        lemma_no_colour_columns(definition, group + 1, done);
    }
}

/// The bits of a number taken apart are as many as were asked for.
pub proof fn lemma_exploded_len(bits: nat, n: nat)
    ensures
        exploded(bits, n).len() == n,
    decreases n,
{
    if n > 0 {
        lemma_exploded_len(bits / 2, (n - 1) as nat);
    }
}

/// A row of a simple definition has one cell for each column.
#[verifier::rlimit(40)]
pub proof fn lemma_row_width(
    definition: Definition,
    data: Seq<u8>,
    pos: int,
    row: u32,
    i: int,
    st: RowState,
)
    requires
        0 <= i <= definition.fields@.len(),
        is_simple(definition),
        st.colours == empty_row().colours,
        spec_decode_row(definition, data, pos, row, i, st, false) is Ok,
    ensures
        spec_decode_row(definition, data, pos, row, i, st, false)->Ok_0.0.len() == st.cells.len()
            + width_from(definition.fields@, i),
    decreases definition.fields@.len() - i,
{
    if i >= definition.fields@.len() {
        lemma_finished_without_colours(st.cells, 0);
    } else {
        let field = definition.fields@[i];
        assert(field.spec_role() == FieldRole::Plain || (field.spec_role() == FieldRole::Bitwise
            && field.is_bitwise <= 64));
        let (value, next) = spec_decode_field(data, field, pos)->Some_0;
        let after = postprocessed(field, value, st);
        if field.spec_role() == FieldRole::Bitwise {
            assert(field.field_type.spec_kind() == FieldKind::I16 || field.field_type.spec_kind()
                == FieldKind::I32 || field.field_type.spec_kind() == FieldKind::I64);
            assert(integer_bits(value) is Some);
            lemma_exploded_len(integer_bits(value)->Some_0 as nat, field.is_bitwise as nat);
        }
        lemma_row_width(definition, data, next, row, i + 1, after);
    }
}

/// True when the values of `remaining` rows that stand at `pos` are written as they are
/// read.
pub open spec fn rows_are_faithful(
    definition: Definition,
    data: Seq<u8>,
    pos: int,
    remaining: nat,
    row: u32,
) -> bool
    decreases remaining,
{
    if remaining == 0 {
        true
    } else {
        &&& row_is_faithful(definition, data, pos, 0)
        &&& match spec_decode_row(definition, data, pos, row, 0, empty_row(), false) {
            Ok((_, next)) => rows_are_faithful(
                definition,
                data,
                next,
                (remaining - 1) as nat,
                if row < u32::MAX {
                    (row + 1) as u32
                } else {
                    row
                },
            ),
            Err(_) => true,
        }
    }
}

/// The rows that are there when more rows are read stay in front.
pub proof fn lemma_rows_prefix(
    definition: Definition,
    data: Seq<u8>,
    pos: int,
    remaining: nat,
    row: u32,
    rows: Seq<Seq<Cell>>,
)
    requires
        spec_decode_rows(definition, data, pos, remaining, row, rows, false) is Ok,
    ensures
        ({
            let all = spec_decode_rows(definition, data, pos, remaining, row, rows, false)->Ok_0.0;
            &&& all.len() == rows.len() + remaining
            &&& forall|k: int| 0 <= k < rows.len() ==> all[k] == rows[k]
        }),
    decreases remaining,
{
    if remaining > 0 {
        let (cells, next) = spec_decode_row(definition, data, pos, row, 0, empty_row(), false)->Ok_0;
        let next_row: u32 = if row < u32::MAX { (row + 1) as u32 } else { row };
        let pushed = rows.push(cells);
        lemma_rows_prefix(definition, data, next, (remaining - 1) as nat, next_row, pushed);
        assert forall|k: int| 0 <= k < rows.len() implies spec_decode_rows(
            definition,
            data,
            pos,
            remaining,
            row,
            rows,
            false,
        )->Ok_0.0[k] == rows[k] by {
            assert(pushed[k] == rows[k]);
        }
    }
}

/// Tables come back as they were: decoding the rows of a simple definition whose values are
/// written as they are read, and encoding them, gives the bytes that they were read from.
/// `rows` are the rows read before, `done` their bytes.
#[verifier::rlimit(40)]
pub proof fn lemma_rows_round_trip(
    definition: Definition,
    data: Seq<u8>,
    pos: int,
    remaining: nat,
    row: u32,
    rows: Seq<Seq<Cell>>,
    done: Seq<u8>,
)
    requires
        0 <= pos <= data.len(),
        is_simple(definition),
        rows_are_faithful(definition, data, pos, remaining, row),
        spec_decode_rows(definition, data, pos, remaining, row, rows, false) is Ok,
    ensures
        ({
            let (all, end) = spec_decode_rows(definition, data, pos, remaining, row, rows, false)->Ok_0;
            &&& pos <= end <= data.len()
            &&& rows_bytes(definition, all, rows.len() as int, done) == Ok::<Seq<u8>, RLibError>(
                done + data.subrange(pos, end),
            )
        }),
    decreases remaining,
{
    let (all, end) = spec_decode_rows(definition, data, pos, remaining, row, rows, false)->Ok_0;
    lemma_rows_prefix(definition, data, pos, remaining, row, rows);
    if remaining == 0 {
        assert(done + data.subrange(pos, pos) =~= done);
    } else {
        let columns = processed_columns(definition);
        let (cells, next) = spec_decode_row(definition, data, pos, row, 0, empty_row(), false)->Ok_0;
        let next_row: u32 = if row < u32::MAX { (row + 1) as u32 } else { row };
        let pushed = rows.push(cells);
        lemma_row_round_trip(definition, columns, data, pos, row, 0, empty_row(), Seq::empty());
        lemma_row_width(definition, data, pos, row, 0, empty_row());
        lemma_plain_columns_len(definition, 0, Seq::empty());
        lemma_no_colour_columns(
            definition,
            0,
            plain_columns(definition.fields@, 0, Seq::empty()),
        );
        assert(cells.len() == columns.len());
        let bytes = data.subrange(pos, next);
        assert(Seq::<u8>::empty() + bytes =~= bytes);
        lemma_rows_prefix(definition, data, next, (remaining - 1) as nat, next_row, pushed);
        assert(all[rows.len() as int] == pushed[rows.len() as int]);
        assert(all[rows.len() as int] == cells);
        lemma_rows_round_trip(
            definition,
            data,
            next,
            (remaining - 1) as nat,
            next_row,
            pushed,
            done + bytes,
        );
        assert(done + bytes + data.subrange(next, end) =~= done + data.subrange(pos, end)) by {
            lemma_subrange_join(data, pos, next, end);
        }
    }
}

/// Round trip of a table: where a table of a simple definition is decoded, its count of
/// rows read from the bytes, and the values of its rows are written as they are read,
/// encoding the rows with their count gives the bytes that the table was read from.
#[verifier::rlimit(40)]
pub proof fn lemma_table_round_trip(definition: Definition, data: Seq<u8>, pos: int)
    requires
        0 <= pos <= data.len(),
        is_simple(definition),
        spec_decode_table(definition, data, None, pos, false) is Ok,
        rows_are_faithful(definition, data, pos + 4, parse_u32(data, pos)->Ok_0.0 as nat, 0),
    ensures
        ({
            let (rows, end) = spec_decode_table(definition, data, None, pos, false)->Ok_0;
            &&& pos <= end <= data.len()
            &&& table_bytes(definition, rows, true) == Ok::<Seq<u8>, RLibError>(
                data.subrange(pos, end),
            )
        }),
{
    let count = parse_u32(data, pos)->Ok_0.0;
    let (rows, end) = spec_decode_table(definition, data, None, pos, false)->Ok_0;
    lemma_u32_read_write(data, pos);
    lemma_rows_prefix(definition, data, pos + 4, count as nat, 0, Seq::empty());
    lemma_rows_round_trip(
        definition,
        data,
        pos + 4,
        count as nat,
        0,
        Seq::empty(),
        data.subrange(pos, pos + 4),
    );
    lemma_subrange_join(data, pos, pos + 4, end);
}

/// The two digits of a channel.
pub proof fn lemma_channel_digits(v: u8)
    ensures
        hex_upper(v as nat, 2) == seq![hex_digit(v as int / 16), hex_digit(v as int % 16)],
        hex_digit_value(hex_digit(v as int / 16)) == Some(v as int / 16),
        hex_digit_value(hex_digit(v as int % 16)) == Some(v as int % 16),
{
    reveal_with_fuel(hex_upper, 3);
    let high = (v as nat) / 16;
    assert(high < 16);
    assert(hex_upper(high, 1) == seq![hex_digit(high as int)]);
    assert(hex_upper(v as nat, 2) =~= seq![hex_digit(v as int / 16), hex_digit(v as int % 16)]);
}

/// The short names of the channels differ from each other and from the long names.
pub proof fn lemma_channel_names()
    ensures
        "r"@ != "g"@ && "r"@ != "green"@ && "r"@ != "b"@ && "r"@ != "blue"@ && "r"@ != "red"@,
        "g"@ != "r"@ && "g"@ != "red"@ && "g"@ != "b"@ && "g"@ != "blue"@ && "g"@ != "green"@,
        "b"@ != "r"@ && "b"@ != "red"@ && "b"@ != "g"@ && "b"@ != "green"@ && "b"@ != "blue"@,
{
    reveal_strlit("r");
    reveal_strlit("g");
    reveal_strlit("b");
    reveal_strlit("red");
    reveal_strlit("green");
    reveal_strlit("blue");
    assert("r"@.len() == 1 && "g"@.len() == 1 && "b"@.len() == 1);
    assert("red"@.len() == 3 && "green"@.len() == 5 && "blue"@.len() == 4);
    assert("r"@[0] == 'r' && "g"@[0] == 'g' && "b"@[0] == 'b');
}

/// The colour that three channels merge into, read as a number, has red in its third byte,
/// green in its second and blue in its first.
#[verifier::rlimit(40)]
pub proof fn lemma_merged_colour_value(r: u8, g: u8, b: u8)
    ensures
        parse_hex_u32(
            group_hex(ColourGroup { r: Some(r), g: Some(g), b: Some(b), ..empty_group() }),
        ) == Some((r as int * 0x1_0000 + g as int * 0x100 + b as int) as u32),
{
    let group = ColourGroup { r: Some(r), g: Some(g), b: Some(b), ..empty_group() };
    lemma_channel_digits(r);
    lemma_channel_digits(g);
    lemma_channel_digits(b);
    let hex = group_hex(group);
    let expected = seq![
        hex_digit(r as int / 16),
        hex_digit(r as int % 16),
        hex_digit(g as int / 16),
        hex_digit(g as int % 16),
        hex_digit(b as int / 16),
        hex_digit(b as int % 16),
    ];
    assert(channel_hex(None) =~= Seq::<char>::empty());
    assert(hex =~= expected);
    let v = r as int * 0x1_0000 + g as int * 0x100 + b as int;
    assert(hex_value(hex, 0) == 0);
    assert(hex_value(hex, 1) == hex_value(hex, 0) * 16 + r as int / 16);
    assert(hex_value(hex, 2) == hex_value(hex, 1) * 16 + r as int % 16);
    assert(hex_value(hex, 3) == hex_value(hex, 2) * 16 + g as int / 16);
    assert(hex_value(hex, 4) == hex_value(hex, 3) * 16 + g as int % 16);
    assert(hex_value(hex, 5) == hex_value(hex, 4) * 16 + b as int / 16);
    assert(hex_value(hex, 6) == hex_value(hex, 5) * 16 + b as int % 16);
    assert(hex_value(hex, 6) == v);
    assert forall|i: int| 0 <= i < hex.len() implies hex_digit_value(#[trigger] hex[i]) is Some by {
        assert(hex[i] == expected[i]);
    }
}

/// The channels of a colour by their short names.
pub proof fn lemma_channels_of(v: u32)
    ensures
        channel_of_colour(v, "r"@) == (v / 0x1_0000 % 0x100) as u8,
        channel_of_colour(v, "g"@) == (v / 0x100 % 0x100) as u8,
        channel_of_colour(v, "b"@) == (v % 0x100) as u8,
{
    lemma_channel_names();
}

/// The bytes of a colour made of three channels are the channels.
pub proof fn lemma_channel_split(r: u8, g: u8, b: u8)
    ensures
        ({
            let v = r as int * 0x1_0000 + g as int * 0x100 + b as int;
            &&& 0 <= v <= u32::MAX
            &&& v / 0x1_0000 % 0x100 == r
            &&& v / 0x100 % 0x100 == g
            &&& v % 0x100 == b
        }),
{
    let low = g as int * 0x100 + b as int;
    let v = r as int * 0x1_0000 + low;
    assert(v / 0x1_0000 == r);
    assert(v / 0x100 == r as int * 0x100 + g as int);
}

/// Colours come back as they were: the channels red, green and blue of a colour group,
/// merged into a colour and taken apart again, are the channels.
pub proof fn lemma_colour_round_trip(r: u8, g: u8, b: u8)
    ensures
        ({
            let group = ColourGroup { r: Some(r), g: Some(g), b: Some(b), ..empty_group() };
            let colour = parse_hex_u32(group_hex(group));
            &&& colour is Some
            &&& channel_of_colour(colour->Some_0, "r"@) == r
            &&& channel_of_colour(colour->Some_0, "g"@) == g
            &&& channel_of_colour(colour->Some_0, "b"@) == b
        }),
{
    lemma_merged_colour_value(r, g, b);
    lemma_channel_split(r, g, b);
    lemma_channels_of((r as int * 0x1_0000 + g as int * 0x100 + b as int) as u32);
}

} // verus!
