//! Decoding of records: from bytes to rows of cells, field by field, as the definition
//! lays them out.

use vstd::prelude::*;

use crate::binary::{
    i32_of, parse_bool, parse_colour_rgb, parse_i16, parse_i32, parse_i64, parse_optional_i16,
    parse_optional_i32, parse_optional_i64, parse_optional_string_u16, parse_optional_string_u8,
    parse_sized_string_u16, parse_sized_string_u8, parse_u32, parse_u64, read_bool, read_i16,
    read_i32, read_i64, read_optional_i16, read_optional_i32, read_optional_i64,
    read_optional_string_u16, read_optional_string_u8, read_sized_string_u16, read_sized_string_u8,
    read_string_colour_rgb, read_u32, read_u64, u64_of,
};
use crate::error::{FieldKind, RLibError, Result};
use crate::schema::{tail_of_name, Definition, Field, FieldRole, FieldType};
use crate::table::cells::{
    channel_count, channel_value, empty_group, exploded, f32_to_channel, f64_to_channel,
    group_hex, integer_bits, row_view, rows_view, with_channel, Cell, ColourGroup, DecodedData,
};
use crate::text::{
    decimal_text, escape_special_chars, escaped, i64_to_decimal, push_hex, str_eq,
    string_from_chars, to_lowercase,
};

verus! {

broadcast use vstd::std_specs::vec::group_vec_axioms;

/// The cells of a row read so far, and the channels gathered for each colour group. There
/// are 256 groups.
pub struct RowState {
    pub cells: Seq<Cell>,
    pub colours: Seq<Option<ColourGroup>>,
}

/// The number of a row or a column as people count them: from 1.
pub open spec fn one_based(i: int) -> u32 {
    if i + 1 > u32::MAX {
        u32::MAX
    } else {
        (i + 1) as u32
    }
}

/// The name that stands for `key`: the first one listed for it.
pub open spec fn enum_name(values: Seq<(i32, String)>, key: i32, i: int) -> Option<Seq<char>>
    decreases values.len() - i,
{
    if i < 0 || i >= values.len() {
        None
    } else if values[i].0 == key {
        Some(values[i].1@)
    } else {
        enum_name(values, key, i + 1)
    }
}

/// The value of an integer cell as the key of an enumeration: its lowest 32 bits.
pub open spec fn enum_key(value: Cell) -> Option<i32> {
    match value {
        Cell::I16(v) => Some(v as i32),
        Cell::I32(v) => Some(v),
        Cell::I64(v) => Some(i32_of((u64_of(v) % 0x1_0000_0000) as u32)),
        _ => None,
    }
}

/// The text that replaces the value of an enumeration: the name that stands for the value,
/// or the value in decimal where no name does.
pub open spec fn enum_text(field: Field, value: Cell) -> Seq<char> {
    match enum_key(value) {
        Some(key) => match enum_name(field.enum_values@, key, 0) {
            Some(name) => name,
            None => decimal_text(key as int),
        },
        None => Seq::empty(),
    }
}

/// The cells that the packed booleans of a value become.
pub open spec fn bit_cells(bits: Seq<bool>) -> Seq<Cell> {
    Seq::new(bits.len(), |i: int| Cell::Boolean(bits[i]))
}

/// The state of a row after the value of a field was read.
///
/// A field that packs booleans gives one cell for each of them, the lowest bit first. An
/// enumeration gives the name of its value. A channel of a colour gives no cell and is
/// gathered with its group. Any other field gives its value.
pub open spec fn postprocessed(field: Field, value: Cell, st: RowState) -> RowState {
    match field.spec_role() {
        FieldRole::Plain => RowState { cells: st.cells.push(value), colours: st.colours },
        FieldRole::Dropped => st,
        FieldRole::Bitwise => match integer_bits(value) {
            Some(bits) => RowState {
                cells: st.cells + bit_cells(exploded(bits as nat, field.is_bitwise as nat)),
                colours: st.colours,
            },
            None => st,
        },
        FieldRole::Enumeration => RowState {
            cells: st.cells.push(Cell::StringU8(enum_text(field, value))),
            colours: st.colours,
        },
        FieldRole::Channel => match (channel_value(value), field.is_part_of_colour) {
            (Some(v), Some(group)) => RowState {
                cells: st.cells,
                colours: st.colours.update(
                    group as int,
                    Some(
                        with_channel(
                            match st.colours[group as int] {
                                Some(g) => g,
                                None => empty_group(),
                            },
                            field.spec_channel(),
                            v,
                        ),
                    ),
                ),
            },
            _ => st,
        },
    }
}

/// The cells of a row once all its fields were read: behind the cells of the fields, one
/// colour for each group of which a channel was read, from group `next` on and by rising
/// number. A group must have between one and four of its channels.
pub open spec fn finished_row(
    cells: Seq<Cell>,
    colours: Seq<Option<ColourGroup>>,
    next: int,
) -> core::result::Result<
    Seq<Cell>,
    RLibError,
>
    decreases 256 - next,
{
    if next < 0 || next >= 256 {
        Ok(cells)
    } else {
        match colours[next] {
            None => finished_row(cells, colours, next + 1),
            Some(group) => if 1 <= channel_count(group) <= 4 {
                finished_row(cells.push(Cell::ColourRGB(group_hex(group))), colours, next + 1)
            } else {
                Err(RLibError::DecodingCombinedColour)
            },
        }
    }
}

/// The state of a row of which nothing was read yet.
pub open spec fn empty_row() -> RowState {
    RowState { cells: Seq::empty(), colours: Seq::new(256, |i: int| None::<ColourGroup>) }
}

/// The value of a field of a plain type as it stands in the bytes at `pos`, and where the
/// next field starts; `None` where the bytes do not hold such a value. Texts have their
/// line feeds and tabs escaped.
pub open spec fn spec_decode_plain(
    data: Seq<u8>,
    kind: FieldKind,
    pos: int,
) -> Option<(Cell, int)> {
    match kind {
        FieldKind::Boolean => match parse_bool(data, pos) {
            Ok((v, next)) => Some((Cell::Boolean(v), next)),
            Err(_) => None,
        },
        FieldKind::F32 => match parse_u32(data, pos) {
            Ok((v, next)) => Some((Cell::F32(v), next)),
            Err(_) => None,
        },
        FieldKind::F64 => match parse_u64(data, pos) {
            Ok((v, next)) => Some((Cell::F64(v), next)),
            Err(_) => None,
        },
        FieldKind::I16 => match parse_i16(data, pos) {
            Ok((v, next)) => Some((Cell::I16(v), next)),
            Err(_) => None,
        },
        FieldKind::I32 => match parse_i32(data, pos) {
            Ok((v, next)) => Some((Cell::I32(v), next)),
            Err(_) => None,
        },
        FieldKind::I64 => match parse_i64(data, pos) {
            Ok((v, next)) => Some((Cell::I64(v), next)),
            Err(_) => None,
        },
        FieldKind::ColourRGB => match parse_colour_rgb(data, pos) {
            Ok((v, next)) => Some((Cell::ColourRGB(v), next)),
            Err(_) => None,
        },
        FieldKind::StringU8 => match parse_sized_string_u8(data, pos) {
            Ok((v, next)) => Some((Cell::StringU8(escaped(v)), next)),
            Err(_) => None,
        },
        FieldKind::StringU16 => match parse_sized_string_u16(data, pos) {
            Ok((v, next)) => Some((Cell::StringU16(escaped(v)), next)),
            Err(_) => None,
        },
        FieldKind::OptionalI16 => match parse_optional_i16(data, pos) {
            Ok((v, next)) => Some((Cell::OptionalI16(v), next)),
            Err(_) => None,
        },
        FieldKind::OptionalI32 => match parse_optional_i32(data, pos) {
            Ok((v, next)) => Some((Cell::OptionalI32(v), next)),
            Err(_) => None,
        },
        FieldKind::OptionalI64 => match parse_optional_i64(data, pos) {
            Ok((v, next)) => Some((Cell::OptionalI64(v), next)),
            Err(_) => None,
        },
        FieldKind::OptionalStringU8 => match parse_optional_string_u8(data, pos) {
            Ok((v, next)) => Some((Cell::OptionalStringU8(escaped(v)), next)),
            Err(_) => None,
        },
        FieldKind::OptionalStringU16 => match parse_optional_string_u16(data, pos) {
            Ok((v, next)) => Some((Cell::OptionalStringU16(escaped(v)), next)),
            Err(_) => None,
        },
        FieldKind::SequenceU16 => None,
        FieldKind::SequenceU32 => None,
    }
}

/// The value of a field as it stands in the bytes at `pos`, and where the next field
/// starts; `None` where the bytes do not hold such a value.
///
/// A sequence is its count of rows, in 32 bits, and its rows, which must decode by its own
/// definition; it is held as the bytes it was read from.
pub open spec fn spec_decode_field(data: Seq<u8>, field: Field, pos: int) -> Option<(Cell, int)>
    decreases field, 0nat, 0nat,
{
    match field.field_type {
        FieldType::SequenceU16(definition) => match spec_decode_table(
            *definition,
            data,
            None,
            pos,
            false,
        ) {
            Ok((_, end)) => if pos <= end <= data.len() {
                Some((Cell::SequenceU16(data.subrange(pos, end)), end))
            } else {
                None
            },
            Err(_) => None,
        },
        FieldType::SequenceU32(definition) => match spec_decode_table(
            *definition,
            data,
            None,
            pos,
            false,
        ) {
            Ok((_, end)) => if pos <= end <= data.len() {
                Some((Cell::SequenceU32(data.subrange(pos, end)), end))
            } else {
                None
            },
            Err(_) => None,
        },
        _ => spec_decode_plain(data, field.field_type.spec_kind(), pos),
    }
}

/// The cells of the row with the number `row` (from 0), read from field `i` on at `pos`,
/// and where the row ends.
///
/// Where a field cannot be read, the strict reading fails with the row, the column and the
/// type of the field; the lenient reading gives the cells read so far.
pub open spec fn spec_decode_row(
    definition: Definition,
    data: Seq<u8>,
    pos: int,
    row: u32,
    i: int,
    st: RowState,
    lenient: bool,
) -> core::result::Result<(Seq<Cell>, int), RLibError>
    decreases definition, 1nat, definition.fields@.len() - i,
{
    if i < 0 || i >= definition.fields@.len() {
        match finished_row(st.cells, st.colours, 0) {
            Ok(cells) => Ok((cells, pos)),
            Err(e) => Err(e),
        }
    } else {
        let field = definition.fields@[i];
        match spec_decode_field(data, field, pos) {
            Some((value, next)) => spec_decode_row(
                definition,
                data,
                next,
                row,
                i + 1,
                postprocessed(field, value, st),
                lenient,
            ),
            None => if lenient {
                Ok((st.cells, pos))
            } else {
                Err(
                    RLibError::TableFieldDecode(
                        one_based(row as int),
                        one_based(i),
                        field.field_type.spec_kind(),
                    ),
                )
            },
        }
    }
}

/// The rows read from `pos` on, behind the rows read before: `remaining` more rows, the
/// next with the number `row`.
pub open spec fn spec_decode_rows(
    definition: Definition,
    data: Seq<u8>,
    pos: int,
    remaining: nat,
    row: u32,
    rows: Seq<Seq<Cell>>,
    lenient: bool,
) -> core::result::Result<(Seq<Seq<Cell>>, int), RLibError>
    decreases definition, 2nat, remaining,
{
    if remaining == 0 {
        Ok((rows, pos))
    } else {
        match spec_decode_row(definition, data, pos, row, 0, empty_row(), lenient) {
            Ok((cells, next)) => spec_decode_rows(
                definition,
                data,
                next,
                (remaining - 1) as nat,
                if row < u32::MAX {
                    (row + 1) as u32
                } else {
                    row
                },
                rows.push(cells),
                lenient,
            ),
            Err(e) => Err(e),
        }
    }
}

/// The rows of a table read at `pos`, and where the table ends. The count of the rows is
/// `entry_count` where it is given, and is read from the bytes, in 32 bits, where it is
/// not.
pub open spec fn spec_decode_table(
    definition: Definition,
    data: Seq<u8>,
    entry_count: Option<u32>,
    pos: int,
    lenient: bool,
) -> core::result::Result<(Seq<Seq<Cell>>, int), RLibError>
    decreases definition, 3nat, 0nat,
{
    match entry_count {
        Some(count) => spec_decode_rows(definition, data, pos, count as nat, 0, Seq::empty(), lenient),
        None => match parse_u32(data, pos) {
            Ok((count, next)) => spec_decode_rows(
                definition,
                data,
                next,
                count as nat,
                0,
                Seq::empty(),
                lenient,
            ),
            Err(e) => Err(e),
        },
    }
}

/// The table that a decoded table belongs to, with its definition.
#[derive(Debug)]
pub struct Table {
    /// The definition that lays the rows out.
    pub definition: Definition,
    /// The name of the table.
    pub table_name: String,
    /// A number that tells this table from every other.
    pub table_unique_id: u64,
    /// The rows, each with one cell for each field as it shows after decoding.
    pub entries: Vec<Vec<DecodedData>>,
}

/// `rand::random::<u64>()`: a number drawn by the thread's generator. Nothing is known of
/// it.
#[verifier::external_body]
fn random_u64() -> u64 {
    rand::random::<u64>()
}

/// Looks up the name that stands for `key`.
fn find_enum_name(values: &Vec<(i32, String)>, key: i32) -> (r: Option<usize>)
    ensures
        match r {
            Some(at) => at < values@.len()
                && enum_name(values@, key, 0) == Some(values@[at as int].1@),
            None => enum_name(values@, key, 0) is None,
        },
{
    let mut i: usize = 0;
    while i < values.len()
        invariant
            i <= values@.len(),
            enum_name(values@, key, 0) == enum_name(values@, key, i as int),
        decreases values@.len() - i,
    {
        if values[i].0 == key {
            return Some(i);
        }
        i = i + 1;
    }
    None
}

/// The number of a row or a column as people count them.
fn number_from(i: usize) -> (r: u32)
    ensures
        r == one_based(i as int),
{
    if i >= 0xFFFF_FFFF {
        0xFFFF_FFFF
    } else {
        (i + 1) as u32
    }
}

/// Gathers a channel with its group. `channel` is the name of the channel in lower case.
pub fn set_channel(group: ColourGroup, channel: &str, value: u8) -> (r: ColourGroup)
    ensures
        r == with_channel(group, channel@, value),
{
    if str_eq(channel, "r") {
        ColourGroup { r: Some(value), ..group }
    } else if str_eq(channel, "red") {
        ColourGroup { red: Some(value), ..group }
    } else if str_eq(channel, "g") {
        ColourGroup { g: Some(value), ..group }
    } else if str_eq(channel, "green") {
        ColourGroup { green: Some(value), ..group }
    } else if str_eq(channel, "b") {
        ColourGroup { b: Some(value), ..group }
    } else if str_eq(channel, "blue") {
        ColourGroup { blue: Some(value), ..group }
    } else {
        group
    }
}

/// Appends the two digits of a channel, where the channel was read.
fn push_channel(out: &mut Vec<char>, channel: Option<u8>) -> (n: u8)
    ensures
        final(out)@ == old(out)@ + crate::table::cells::channel_hex(channel),
        n == (if channel is Some { 1int } else { 0int }),
{
    match channel {
        Some(v) => {
            push_hex(out, v as u32, 2);
            1
        },
        None => {
            assert(old(out)@ + Seq::<char>::empty() =~= old(out)@);
            0
        },
    }
}

impl Table {
    /// A table with the given definition and name, without rows.
    pub fn new(definition: Definition, table_name: &str) -> (r: Table)
        ensures
            r.definition == definition,
            r.table_name@ == table_name@,
            r.entries@.len() == 0,
    {
        Table {
            definition,
            table_name: string_from_chars(crate::text::chars_of(table_name).as_slice()),
            table_unique_id: random_u64(),
            entries: Vec::new(),
        }
    }

    /// Adds to a row the colours of the groups of which a channel was read, by rising
    /// number of the group. On failure the row stays as it was.
    #[verifier::rlimit(40)]
    pub fn decode_row_postprocess(
        row_data: &mut Vec<DecodedData>,
        split_colours: &[Option<ColourGroup>; 256],
    ) -> (r: Result<()>)
        ensures
            match finished_row(row_view(old(row_data)@), split_colours@, 0) {
                Ok(cells) => r is Ok && row_view(final(row_data)@) == cells,
                Err(e) => r == Err::<(), RLibError>(e) && final(row_data)@ == old(row_data)@,
            },
    {
        let mut colours: Vec<DecodedData> = Vec::new();
        let mut next: usize = 0;
        assert(row_view(row_data@) + row_view(colours@) =~= row_view(row_data@));
        while next < 256
            invariant
                next <= 256,
                row_data@ == old(row_data)@,
                finished_row(row_view(old(row_data)@), split_colours@, 0) == finished_row(
                    row_view(row_data@) + row_view(colours@),
                    split_colours@,
                    next as int,
                ),
            decreases 256 - next,
        {
            match split_colours[next] {
                Some(group) => {
                    let mut hex: Vec<char> = Vec::new();
                    let mut count: u8 = 0;
                    count = count + push_channel(&mut hex, group.r);
                    count = count + push_channel(&mut hex, group.red);
                    count = count + push_channel(&mut hex, group.g);
                    count = count + push_channel(&mut hex, group.green);
                    count = count + push_channel(&mut hex, group.b);
                    count = count + push_channel(&mut hex, group.blue);
                    assert(hex@ =~= group_hex(group));
                    if count < 1 || count > 4 {
                        return Err(RLibError::DecodingCombinedColour);
                    }
                    let ghost before = row_view(colours@);
                    let text = string_from_chars(hex.as_slice());
                    colours.push(DecodedData::ColourRGB(text));
                    assert(row_view(row_data@) + row_view(colours@) =~= (row_view(row_data@)
                        + before).push(Cell::ColourRGB(group_hex(group))));
                },
                None => {},
            }
            next = next + 1;
        }
        let ghost cells = row_view(row_data@) + row_view(colours@);
        let ghost base = row_view(row_data@);
        let ghost all = colours@;
        let mut reversed: Vec<DecodedData> = Vec::new();
        while colours.len() > 0
            invariant
                colours@.len() + reversed@.len() == all.len(),
                forall|k: int| 0 <= k < colours@.len() ==> colours@[k] == all[k],
                forall|k: int|
                    0 <= k < reversed@.len() ==> reversed@[k] == all[all.len() - 1 - k],
            decreases colours@.len(),
        {
            match colours.pop() {
                Some(c) => {
                    reversed.push(c);
                },
                None => {},
            }
        }
        while reversed.len() > 0
            invariant
                reversed@.len() <= all.len(),
                forall|k: int|
                    0 <= k < reversed@.len() ==> reversed@[k] == all[all.len() - 1 - k],
                row_data@ == old(row_data)@ + all.subrange(0, all.len() - reversed@.len()),
            decreases reversed@.len(),
        {
            match reversed.pop() {
                Some(c) => {
                    row_data.push(c);
                    assert(row_data@ =~= old(row_data)@ + all.subrange(
                        0,
                        all.len() - reversed@.len(),
                    ));
                },
                None => {},
            }
        }
        assert(row_view(row_data@) =~= cells);
        Ok(())
    }

    /// Does with the value of a field what its role asks for: adds its cell or cells to the
    /// row, or gathers it with its colour group.
    #[verifier::rlimit(40)]
    pub fn decode_field_postprocess(
        row_data: &mut Vec<DecodedData>,
        data: DecodedData,
        field: &Field,
        split_colours: &mut [Option<ColourGroup>; 256],
    )
        ensures
            (RowState { cells: row_view(final(row_data)@), colours: final(split_colours)@ })
                == postprocessed(
                *field,
                data@,
                RowState { cells: row_view(old(row_data)@), colours: old(split_colours)@ },
            ),
    {
        broadcast use vstd::array::group_array_axioms;

        match field.role() {
            FieldRole::Plain => {
                row_data.push(data);
                assert(row_view(row_data@) =~= row_view(old(row_data)@).push(data@));
            },
            FieldRole::Dropped => {},
            FieldRole::Bitwise => {
                let bits: Option<u64> = match data {
                    DecodedData::I16(v) => Some(crate::binary::i64_to_bits(v as i64)),
                    DecodedData::I32(v) => Some(crate::binary::i64_to_bits(v as i64)),
                    DecodedData::I64(v) => Some(crate::binary::i64_to_bits(v)),
                    _ => None,
                };
                match bits {
                    Some(all) => {
                        let n: i32 = field.is_bitwise;
                        let mut rest: u64 = all;
                        let mut column: i32 = 0;
                        let ghost start = row_view(row_data@);
                        assert(start + bit_cells(exploded(all as nat, 0)) =~= start);
                        while column < n
                            invariant
                                0 <= column <= n == field.is_bitwise,
                                start == row_view(old(row_data)@),
                                exploded(all as nat, n as nat) == exploded(all as nat, column as nat)
                                    + exploded(rest as nat, (n - column) as nat),
                                row_view(row_data@) == start + bit_cells(
                                    exploded(all as nat, column as nat),
                                ),
                            decreases n - column,
                        {
                            let bit: bool = rest % 2 == 1;
                            proof {
                                let done = exploded(all as nat, column as nat);
                                let next = exploded((rest / 2) as nat, (n - column - 1) as nat);
                                assert(exploded(rest as nat, (n - column) as nat) =~= seq![bit]
                                    + next);
                                lemma_exploded_prefix(all as nat, n as nat, column as nat);
                                lemma_exploded_prefix(all as nat, n as nat, (column + 1) as nat);
                                let whole = exploded(all as nat, n as nat);
                                assert(whole.subrange(0, column as int) =~= done);
                                assert(whole[column as int] == bit);
                                assert(exploded(all as nat, (column + 1) as nat) =~= done.push(
                                    bit,
                                ));
                                assert(whole =~= done.push(bit) + next);
                            }
                            let ghost done = exploded(all as nat, column as nat);
                            row_data.push(DecodedData::Boolean(bit));
                            rest = rest / 2;
                            column = column + 1;
                            assert(bit_cells(done.push(bit)) =~= bit_cells(done).push(
                                Cell::Boolean(bit),
                            ));
                            assert(row_view(row_data@) =~= (start + bit_cells(done)).push(
                                Cell::Boolean(bit),
                            ));
                            assert(row_view(row_data@) =~= start + bit_cells(
                                exploded(all as nat, column as nat),
                            ));
                        }
                    },
                    None => {},
                }
            },
            FieldRole::Enumeration => {
                let key: Option<i32> = match data {
                    DecodedData::I16(v) => Some(v as i32),
                    DecodedData::I32(v) => Some(v),
                    DecodedData::I64(v) => Some(
                        crate::binary::i32_from_bits(
                            (crate::binary::i64_to_bits(v) % 0x1_0000_0000) as u32,
                        ),
                    ),
                    _ => None,
                };
                let text: String = match key {
                    Some(k) => match find_enum_name(&field.enum_values, k) {
                        Some(at) => field.enum_values[at].1.clone(),
                        None => i64_to_decimal(k as i64),
                    },
                    None => String::new(),
                };
                row_data.push(DecodedData::StringU8(text));
                assert(row_view(row_data@) =~= row_view(old(row_data)@).push(
                    Cell::StringU8(enum_text(*field, data@)),
                ));
            },
            FieldRole::Channel => {
                let value: Option<u8> = match data {
                    DecodedData::I16(v) => Some((crate::binary::i16_to_bits(v) % 0x100) as u8),
                    DecodedData::I32(v) => Some((crate::binary::i32_to_bits(v) % 0x100) as u8),
                    DecodedData::I64(v) => Some((crate::binary::i64_to_bits(v) % 0x100) as u8),
                    DecodedData::F32(bits) => Some(f32_to_channel(bits)),
                    DecodedData::F64(bits) => Some(f64_to_channel(bits)),
                    _ => None,
                };
                match (value, field.is_part_of_colour) {
                    (Some(v), Some(group)) => {
                        let tail = tail_of_name(field.name.as_str());
                        let channel = to_lowercase(tail.as_str());
                        let current: ColourGroup = match split_colours[group as usize] {
                            Some(g) => g,
                            None => ColourGroup {
                                r: None,
                                red: None,
                                g: None,
                                green: None,
                                b: None,
                                blue: None,
                            },
                        };
                        split_colours[group as usize] = Some(
                            set_channel(current, channel.as_str(), v),
                        );
                    },
                    _ => {},
                }
            },
        }
    }
}

/// The first bits of a number taken apart are the start of more of its bits taken apart.
pub proof fn lemma_exploded_prefix(bits: nat, n: nat, k: nat)
    requires
        k <= n,
    ensures
        exploded(bits, n).len() == n,
        exploded(bits, k) == exploded(bits, n).subrange(0, k as int),
        k < n ==> exploded(bits, n)[k as int] == (exploded(bits, (k + 1) as nat)[k as int]),
    decreases n,
{
    if n > 0 {
        if k > 0 {
            lemma_exploded_prefix(bits / 2, (n - 1) as nat, (k - 1) as nat);
            assert(exploded(bits, k) =~= exploded(bits, n).subrange(0, k as int));
        } else {
            assert(exploded(bits, k) =~= exploded(bits, n).subrange(0, k as int));
        }
        if k < n {
            lemma_exploded_prefix(bits / 2, (n - 1) as nat, k);
            if k > 0 {
                lemma_exploded_prefix(bits / 2, (n - 1) as nat, (k - 1) as nat);
                lemma_exploded_prefix(bits / 2, k, (k - 1) as nat);
            }
        }
    }
}

/// Decodes a text field and escapes it.
fn escaped_text(r: Result<String>) -> (out: Option<String>)
    ensures
        r is Ok ==> out is Some && out->Some_0@ == escaped(r->Ok_0@),
        r is Err ==> out is None,
{
    match r {
        Ok(v) => Some(escape_special_chars(v.as_str())),
        Err(_) => None,
    }
}

/// Decodes the value of a field of one of the integer, float and boolean types.
fn decode_number(data: &[u8], kind: FieldKind, index: &mut usize) -> (r: Option<DecodedData>)
    requires
        kind == FieldKind::Boolean || kind == FieldKind::F32 || kind == FieldKind::F64 || kind
            == FieldKind::I16 || kind == FieldKind::I32 || kind == FieldKind::I64 || kind
            == FieldKind::OptionalI16 || kind == FieldKind::OptionalI32 || kind
            == FieldKind::OptionalI64,
    ensures
        match spec_decode_plain(data@, kind, *old(index) as int) {
            Some((value, next)) => r is Some && r->Some_0@ == value && *final(index) == next,
            None => r is None && *final(index) == *old(index),
        },
{
    match kind {
        FieldKind::Boolean => match read_bool(data, index) {
            Ok(v) => Some(DecodedData::Boolean(v)),
            Err(_) => None,
        },
        FieldKind::F32 => match read_u32(data, index) {
            Ok(v) => Some(DecodedData::F32(v)),
            Err(_) => None,
        },
        FieldKind::F64 => match read_u64(data, index) {
            Ok(v) => Some(DecodedData::F64(v)),
            Err(_) => None,
        },
        FieldKind::I16 => match read_i16(data, index) {
            Ok(v) => Some(DecodedData::I16(v)),
            Err(_) => None,
        },
        FieldKind::I32 => match read_i32(data, index) {
            Ok(v) => Some(DecodedData::I32(v)),
            Err(_) => None,
        },
        FieldKind::I64 => match read_i64(data, index) {
            Ok(v) => Some(DecodedData::I64(v)),
            Err(_) => None,
        },
        FieldKind::OptionalI16 => match read_optional_i16(data, index) {
            Ok(v) => Some(DecodedData::OptionalI16(v)),
            Err(_) => None,
        },
        FieldKind::OptionalI32 => match read_optional_i32(data, index) {
            Ok(v) => Some(DecodedData::OptionalI32(v)),
            Err(_) => None,
        },
        _ => match read_optional_i64(data, index) {
            Ok(v) => Some(DecodedData::OptionalI64(v)),
            Err(_) => None,
        },
    }
}

/// Decodes the value of a field of one of the text types.
fn decode_text(data: &[u8], kind: FieldKind, index: &mut usize) -> (r: Option<DecodedData>)
    requires
        kind == FieldKind::ColourRGB || kind == FieldKind::StringU8 || kind == FieldKind::StringU16
            || kind == FieldKind::OptionalStringU8 || kind == FieldKind::OptionalStringU16,
    ensures
        match spec_decode_plain(data@, kind, *old(index) as int) {
            Some((value, next)) => r is Some && r->Some_0@ == value && *final(index) == next,
            None => r is None && *final(index) == *old(index),
        },
{
    match kind {
        FieldKind::ColourRGB => match read_string_colour_rgb(data, index) {
            Ok(v) => Some(DecodedData::ColourRGB(v)),
            Err(_) => None,
        },
        FieldKind::StringU8 => match escaped_text(read_sized_string_u8(data, index)) {
            Some(v) => Some(DecodedData::StringU8(v)),
            None => None,
        },
        FieldKind::StringU16 => match escaped_text(read_sized_string_u16(data, index)) {
            Some(v) => Some(DecodedData::StringU16(v)),
            None => None,
        },
        FieldKind::OptionalStringU8 => match escaped_text(read_optional_string_u8(data, index)) {
            Some(v) => Some(DecodedData::OptionalStringU8(v)),
            None => None,
        },
        _ => match escaped_text(read_optional_string_u16(data, index)) {
            Some(v) => Some(DecodedData::OptionalStringU16(v)),
            None => None,
        },
    }
}

/// The bytes of a sequence that was read from `start` to `end`.
fn sequence_blob(data: &[u8], start: usize, end: usize) -> (r: Option<Vec<u8>>)
    ensures
        start <= end <= data@.len() ==> r is Some && r->Some_0@ == data@.subrange(
            start as int,
            end as int,
        ),
        !(start <= end <= data@.len()) ==> r is None,
{
    if start <= end && end <= data.len() {
        let mut at: usize = start;
        match crate::binary::read_slice(data, &mut at, end - start) {
            Ok(blob) => Some(blob),
            Err(_) => None,
        }
    } else {
        None
    }
}

impl Table {
    /// Decodes the value of one field at `*index` and moves the cursor behind it. `row` and
    /// `column` count from 0 and are reported from 1. On failure the cursor stays where it
    /// was.
    #[verifier::rlimit(40)]
    pub fn decode_field(
        data: &[u8],
        field: &Field,
        index: &mut usize,
        row: u32,
        column: u32,
    ) -> (r: Result<DecodedData>)
        ensures
            match spec_decode_field(data@, *field, *old(index) as int) {
                Some((value, next)) => r is Ok && r->Ok_0@ == value && *final(index) == next,
                None => r == Err::<DecodedData, RLibError>(
                    RLibError::TableFieldDecode(
                        one_based(row as int),
                        one_based(column as int),
                        field.field_type.spec_kind(),
                    ),
                ) && *final(index) == *old(index),
            },
        decreases field, 0nat, 0nat,
    {
        let start: usize = *index;
        let failure = RLibError::TableFieldDecode(
            number_from(row as usize),
            number_from(column as usize),
            field.field_type.kind(),
        );
        let value: Option<DecodedData> = match &field.field_type {
            FieldType::SequenceU16(definition) => {
                match Table::decode_table(definition, data, None, index, false) {
                    Ok(_) => match sequence_blob(data, start, *index) {
                        Some(blob) => Some(DecodedData::SequenceU16(blob)),
                        None => {
                            *index = start;
                            None
                        },
                    },
                    Err(_) => None,
                }
            },
            FieldType::SequenceU32(definition) => {
                match Table::decode_table(definition, data, None, index, false) {
                    Ok(_) => match sequence_blob(data, start, *index) {
                        Some(blob) => Some(DecodedData::SequenceU32(blob)),
                        None => {
                            *index = start;
                            None
                        },
                    },
                    Err(_) => None,
                }
            },
            FieldType::ColourRGB => decode_text(data, FieldKind::ColourRGB, index),
            FieldType::StringU8 => decode_text(data, FieldKind::StringU8, index),
            FieldType::StringU16 => decode_text(data, FieldKind::StringU16, index),
            FieldType::OptionalStringU8 => decode_text(data, FieldKind::OptionalStringU8, index),
            FieldType::OptionalStringU16 => decode_text(data, FieldKind::OptionalStringU16, index),
            other => decode_number(data, other.kind(), index),
        };
        match value {
            Some(v) => Ok(v),
            None => Err(failure),
        }
    }

    /// Decodes one row at `*index` and moves the cursor behind it. Where a field cannot be
    /// read, the strict reading fails and leaves the cursor where it was; with
    /// `return_incomplete` the cells read so far are given, and the cursor stands at the
    /// field that could not be read.
    #[verifier::rlimit(40)]
    pub fn decode_row(
        data: &[u8],
        definition: &Definition,
        index: &mut usize,
        row: u32,
        return_incomplete: bool,
    ) -> (r: Result<Vec<DecodedData>>)
        ensures
            match spec_decode_row(
                *definition,
                data@,
                *old(index) as int,
                row,
                0,
                empty_row(),
                return_incomplete,
            ) {
                Ok((cells, end)) => r is Ok && row_view(r->Ok_0@) == cells && *final(index) == end,
                Err(e) => r == Err::<Vec<DecodedData>, RLibError>(e) && *final(index) == *old(
                    index,
                ),
            },
        decreases definition, 1nat, definition.fields@.len(),
    {
        broadcast use vstd::array::group_array_axioms;

        let start: usize = *index;
        let mut split_colours: [Option<ColourGroup>; 256] = vstd::array::array_fill_for_copy_types(
            None,
        );
        let mut row_data: Vec<DecodedData> = Vec::new();
        assert(row_view(row_data@) =~= empty_row().cells);
        assert(split_colours@ =~= empty_row().colours);
        let n: usize = definition.fields.len();
        let mut column: usize = 0;
        while column < n
            invariant
                column <= n == definition.fields@.len(),
                start == *old(index),
                spec_decode_row(
                    *definition,
                    data@,
                    start as int,
                    row,
                    0,
                    empty_row(),
                    return_incomplete,
                ) == spec_decode_row(
                    *definition,
                    data@,
                    *index as int,
                    row,
                    column as int,
                    RowState { cells: row_view(row_data@), colours: split_colours@ },
                    return_incomplete,
                ),
            decreases n - column,
        {
            let field = &definition.fields[column];
            let number: u32 = if column > 0xFFFF_FFFF {
                0xFFFF_FFFF
            } else {
                column as u32
            };
            match Table::decode_field(data, field, index, row, number) {
                Ok(value) => {
                    Table::decode_field_postprocess(&mut row_data, value, field, &mut split_colours);
                },
                Err(e) => {
                    if return_incomplete {
                        return Ok(row_data);
                    } else {
                        *index = start;
                        return Err(e);
                    }
                },
            }
            column = column + 1;
        }
        match Table::decode_row_postprocess(&mut row_data, &split_colours) {
            Ok(()) => Ok(row_data),
            Err(e) => {
                *index = start;
                Err(e)
            },
        }
    }

    /// Decodes a table at `*index` and moves the cursor behind it. The count of the rows is
    /// `entry_count` where it is given, and is read from the bytes where it is not. With
    /// `return_incomplete` a row that cannot be read to its end is cut short in place of
    /// failing. On failure the cursor stays where it was.
    #[verifier::rlimit(40)]
    pub fn decode_table(
        definition: &Definition,
        data: &[u8],
        entry_count: Option<u32>,
        index: &mut usize,
        return_incomplete: bool,
    ) -> (r: Result<Vec<Vec<DecodedData>>>)
        ensures
            match spec_decode_table(
                *definition,
                data@,
                entry_count,
                *old(index) as int,
                return_incomplete,
            ) {
                Ok((rows, end)) => r is Ok && rows_view(r->Ok_0@) == rows && *final(index) == end,
                Err(e) => r == Err::<Vec<Vec<DecodedData>>, RLibError>(e) && *final(index) == *old(
                    index,
                ),
            },
        decreases definition, 3nat, 0nat,
    {
        let start: usize = *index;
        let count: u32 = match entry_count {
            Some(count) => count,
            None => match read_u32(data, index) {
                Ok(count) => count,
                Err(e) => {
                    return Err(e);
                },
            },
        };
        let ghost first = *index as int;
        let mut table: Vec<Vec<DecodedData>> = Vec::new();
        let mut row: u32 = 0;
        let mut left: u32 = count;
        assert(rows_view(table@) =~= Seq::<Seq<Cell>>::empty());
        while left > 0
            invariant
                start == *old(index),
                spec_decode_table(
                    *definition,
                    data@,
                    entry_count,
                    start as int,
                    return_incomplete,
                ) == spec_decode_rows(
                    *definition,
                    data@,
                    first,
                    count as nat,
                    0,
                    Seq::empty(),
                    return_incomplete,
                ),
                spec_decode_rows(
                    *definition,
                    data@,
                    first,
                    count as nat,
                    0,
                    Seq::empty(),
                    return_incomplete,
                ) == spec_decode_rows(
                    *definition,
                    data@,
                    *index as int,
                    left as nat,
                    row,
                    rows_view(table@),
                    return_incomplete,
                ),
            decreases left,
        {
            let ghost before = rows_view(table@);
            match Table::decode_row(data, definition, index, row, return_incomplete) {
                Ok(cells) => {
                    table.push(cells);
                    assert(rows_view(table@) =~= before.push(row_view(cells@)));
                },
                Err(e) => {
                    *index = start;
                    return Err(e);
                },
            }
            if row < 0xFFFF_FFFF {
                row = row + 1;
            }
            left = left - 1;
        }
        Ok(table)
    }
}

} // verus!
