//! Encoding of records: from rows of cells back to bytes, undoing what decoding did to the
//! values of the fields.

use vstd::prelude::*;
use vstd::utf8::encode_utf8;

use crate::binary::{
    optional_string_u16_bytes, optional_string_u8_bytes, sized_string_u16_bytes,
    sized_string_u8_bytes, u16_bytes, u16_of, u32_bytes, u32_of, u64_bytes, u64_of, write_all,
    write_bool, write_i16, write_i32, write_i64, write_optional_i16, write_optional_i32,
    write_optional_i64, write_optional_string_u16, write_optional_string_u8,
    write_sized_string_u16, write_sized_string_u8, write_string_colour_rgb, write_u32, write_u64,
};
use crate::error::{FieldKind, RLibError, Result};
use crate::pack::crypto::{decrypt_packed_file, decrypted_data};
use crate::pack::{FileData, FileDataView, RFile, RFileView};
use crate::table::decode::spec_decode_table;
use crate::schema::{head_of_name, name_head, tail_of_name, Definition, Field, FieldRole};
use crate::table::cells::{
    assembled, channel_to_f32, channel_to_f64, pow2, row_view, rows_view, u8_to_f32_bits,
    u8_to_f64_bits, Cell, DecodedData,
};
use crate::table::decode::Table;
use crate::text::{
    chars_of, decimal_digits, decimal_to_bounded, hex_to_u32, lowercase_of, parse_decimal_in,
    parse_hex_u32, push_decimal, str_eq, string_from_chars, to_lowercase, unescape_special_chars,
    unescaped, utf16_encode,
};

verus! {

/// The ending of the name of the column that holds a merged colour.
pub const MERGE_COLOUR_POST: &'static str = "_hex";

/// The name of the column that holds a merged colour whose channels have no name in front.
pub const MERGE_COLOUR_NO_NAME: &'static str = "unnamed colour group";

/// A column of a table as it shows after decoding.
#[derive(Debug)]
pub struct ProcessedField {
    pub name: String,
    pub kind: FieldKind,
}

/// What a `ProcessedField` holds.
pub struct ProcessedFieldView {
    pub name: Seq<char>,
    pub kind: FieldKind,
}

impl View for ProcessedField {
    type V = ProcessedFieldView;

    open spec fn view(&self) -> ProcessedFieldView {
        ProcessedFieldView { name: self.name@, kind: self.kind }
    }
}

/// What a list of columns holds.
pub open spec fn processed_view(fields: Seq<ProcessedField>) -> Seq<ProcessedFieldView> {
    Seq::new(fields.len(), |i: int| fields[i]@)
}

/// The columns that the packed booleans of a field become: from the `k`-th on, each named
/// by the field and its number, counted from 1.
pub open spec fn bit_columns(name: Seq<char>, k: int, n: int) -> Seq<ProcessedFieldView>
    decreases n - k,
{
    if k >= n {
        Seq::empty()
    } else {
        seq![
            ProcessedFieldView {
                name: name + seq!['_'] + decimal_digits((k + 1) as nat),
                kind: FieldKind::Boolean,
            },
        ] + bit_columns(name, k + 1, n)
    }
}

/// The columns that a field becomes.
pub open spec fn field_columns(field: Field) -> Seq<ProcessedFieldView> {
    match field.spec_role() {
        FieldRole::Plain => seq![
            ProcessedFieldView { name: field.name@, kind: field.field_type.spec_kind() },
        ],
        FieldRole::Bitwise => bit_columns(field.name@, 0, field.is_bitwise as int),
        FieldRole::Enumeration => seq![
            ProcessedFieldView { name: field.name@, kind: FieldKind::StringU8 },
        ],
        FieldRole::Channel => Seq::empty(),
        FieldRole::Dropped => Seq::empty(),
    }
}

/// The columns of the fields from `i` on, behind the columns `done`.
pub open spec fn plain_columns(fields: Seq<Field>, i: int, done: Seq<ProcessedFieldView>) -> Seq<
    ProcessedFieldView,
>
    decreases fields.len() - i,
{
    if i < 0 || i >= fields.len() {
        done
    } else {
        plain_columns(fields, i + 1, done + field_columns(fields[i]))
    }
}

/// The first field at or behind `i` that is a channel of the colour group `group`, or the
/// number of fields.
pub open spec fn first_channel(fields: Seq<Field>, group: u8, i: int) -> int
    decreases fields.len() - i,
{
    if i < 0 || i >= fields.len() {
        fields.len() as int
    } else if fields[i].spec_role() == FieldRole::Channel && fields[i].is_part_of_colour == Some(
        group,
    ) {
        i
    } else {
        first_channel(fields, group, i + 1)
    }
}

/// The name of the column that holds the colour that a channel belongs to: what stands
/// before the last `_` of the channel's name, in lower case, and an ending.
pub open spec fn merged_name(field: Field) -> Seq<char> {
    match name_head(field.name@) {
        Some(head) => lowercase_of(head) + MERGE_COLOUR_POST@,
        None => MERGE_COLOUR_NO_NAME@,
    }
}

/// The columns of the colour groups from `group` on, behind the columns `done`: one for
/// each group that has a channel, named after the first of its channels.
pub open spec fn colour_columns(
    fields: Seq<Field>,
    group: int,
    done: Seq<ProcessedFieldView>,
) -> Seq<
    ProcessedFieldView,
>
    decreases 256 - group,
{
    if group < 0 || group >= 256 {
        done
    } else {
        let first = first_channel(fields, group as u8, 0);
        if first < fields.len() {
            colour_columns(
                fields,
                group + 1,
                done.push(
                    ProcessedFieldView { name: merged_name(fields[first]), kind: FieldKind::ColourRGB },
                ),
            )
        } else {
            colour_columns(fields, group + 1, done)
        }
    }
}

/// The columns of a table as it shows after decoding: those of the fields in their order,
/// then the merged colours by rising number of their group.
pub open spec fn processed_columns(definition: Definition) -> Seq<ProcessedFieldView> {
    colour_columns(definition.fields@, 0, plain_columns(definition.fields@, 0, Seq::empty()))
}

/// The position of the first column at or behind `i` with the given name, or the number of
/// columns.
pub open spec fn column_by_name(columns: Seq<ProcessedFieldView>, name: Seq<char>, i: int) -> int
    decreases columns.len() - i,
{
    if i < 0 || i >= columns.len() {
        columns.len() as int
    } else if columns[i].name == name {
        i
    } else {
        column_by_name(columns, name, i + 1)
    }
}

/// Finds the first field that is a channel of a colour group.
fn find_first_channel(fields: &Vec<Field>, group: u8) -> (r: usize)
    ensures
        r == first_channel(fields@, group, 0),
        r <= fields@.len(),
        r < fields@.len() ==> fields@[r as int].spec_role() == FieldRole::Channel,
{
    let n: usize = fields.len();
    let mut i: usize = 0;
    while i < n
        invariant
            i <= n == fields@.len(),
            first_channel(fields@, group, 0) == first_channel(fields@, group, i as int),
        decreases n - i,
    {
        let is_channel: bool = match fields[i].role() {
            FieldRole::Channel => true,
            _ => false,
        };
        let in_group: bool = match fields[i].is_part_of_colour {
            Some(g) => g == group,
            None => false,
        };
        if is_channel && in_group {
            return i;
        }
        i = i + 1;
    }
    n
}

/// The name of the column of a merged colour, from what stands before the last `_` of the
/// name of one of its channels, in lower case.
pub open spec fn merged_name_from(lower_head: Option<Seq<char>>) -> Seq<char> {
    match lower_head {
        Some(head) => head + MERGE_COLOUR_POST@,
        None => MERGE_COLOUR_NO_NAME@,
    }
}

/// The name of the column of a merged colour, from what stands before the last `_` of the
/// name of one of its channels, in lower case.
pub fn merged_name_of(lower_head: Option<String>) -> (r: String)
    ensures
        r@ == merged_name_from(
            match lower_head {
                Some(h) => Some(h@),
                None => None,
            },
        ),
{
    match lower_head {
        Some(lower) => {
            let mut chars = chars_of(lower.as_str());
            let post = chars_of(MERGE_COLOUR_POST);
            let mut i: usize = 0;
            let ghost start = chars@;
            assert(chars@ =~= start + post@.subrange(0, 0));
            while i < post.len()
                invariant
                    i <= post@.len(),
                    chars@ == start + post@.subrange(0, i as int),
                decreases post@.len() - i,
            {
                chars.push(post[i]);
                i = i + 1;
                assert(chars@ =~= start + post@.subrange(0, i as int));
            }
            assert(post@.subrange(0, post@.len() as int) =~= post@);
            string_from_chars(chars.as_slice())
        },
        None => string_from_chars(chars_of(MERGE_COLOUR_NO_NAME).as_slice()),
    }
}

/// The name of the column that holds the colour that a channel belongs to.
pub fn merged_colour_name(field: &Field) -> (r: String)
    ensures
        r@ == merged_name(*field),
{
    match head_of_name(field.name.as_str()) {
        Some(head) => merged_name_of(Some(to_lowercase(head.as_str()))),
        None => merged_name_of(None),
    }
}

/// Appends the columns that a field becomes.
#[verifier::rlimit(40)]
fn push_field_columns(out: &mut Vec<ProcessedField>, field: &Field)
    ensures
        processed_view(final(out)@) == processed_view(old(out)@) + field_columns(*field),
{
    match field.role() {
        FieldRole::Plain => {
            out.push(
                ProcessedField {
                    name: string_from_chars(chars_of(field.name.as_str()).as_slice()),
                    kind: field.field_type.kind(),
                },
            );
            assert(processed_view(out@) =~= processed_view(old(out)@) + field_columns(*field));
        },
        FieldRole::Enumeration => {
            out.push(
                ProcessedField {
                    name: string_from_chars(chars_of(field.name.as_str()).as_slice()),
                    kind: FieldKind::StringU8,
                },
            );
            assert(processed_view(out@) =~= processed_view(old(out)@) + field_columns(*field));
        },
        FieldRole::Bitwise => {
            let n: i32 = field.is_bitwise;
            let mut k: i32 = 0;
            assert(processed_view(out@) + bit_columns(field.name@, 0, n as int) =~= processed_view(
                old(out)@,
            ) + field_columns(*field));
            while k < n
                invariant
                    0 <= k <= n,
                    processed_view(out@) + bit_columns(field.name@, k as int, n as int)
                        == processed_view(old(out)@) + field_columns(*field),
                decreases n - k,
            {
                let mut name = chars_of(field.name.as_str());
                name.push('_');
                push_decimal(&mut name, (k + 1) as u64);
                let ghost before = processed_view(out@);
                let column = ProcessedField {
                    name: string_from_chars(name.as_slice()),
                    kind: FieldKind::Boolean,
                };
                assert(column@.name =~= field.name@ + seq!['_'] + decimal_digits((k + 1) as nat));
                out.push(column);
                assert(processed_view(out@) + bit_columns(field.name@, k + 1, n as int) =~= before
                    + bit_columns(field.name@, k as int, n as int));
                k = k + 1;
            }
            assert(processed_view(out@) + bit_columns(field.name@, n as int, n as int)
                =~= processed_view(out@));
        },
        FieldRole::Channel => {
            assert(processed_view(out@) =~= processed_view(old(out)@) + field_columns(*field));
        },
        FieldRole::Dropped => {
            assert(processed_view(out@) =~= processed_view(old(out)@) + field_columns(*field));
        },
    }
}

impl Definition {
    /// The columns of a table of this definition as it shows after decoding.
    #[verifier::rlimit(40)]
    pub fn fields_processed(&self) -> (r: Vec<ProcessedField>)
        ensures
            processed_view(r@) == processed_columns(*self),
    {
        let mut out: Vec<ProcessedField> = Vec::new();
        let n: usize = self.fields.len();
        let mut i: usize = 0;
        assert(processed_view(out@) =~= Seq::<ProcessedFieldView>::empty());
        while i < n
            invariant
                i <= n == self.fields@.len(),
                plain_columns(self.fields@, 0, Seq::empty()) == plain_columns(
                    self.fields@,
                    i as int,
                    processed_view(out@),
                ),
            decreases n - i,
        {
            push_field_columns(&mut out, &self.fields[i]);
            i = i + 1;
        }
        let mut group: usize = 0;
        while group < 256
            invariant
                group <= 256,
                n == self.fields@.len(),
                processed_columns(*self) == colour_columns(
                    self.fields@,
                    group as int,
                    processed_view(out@),
                ),
            decreases 256 - group,
        {
            let first: usize = find_first_channel(&self.fields, group as u8);
            if first < n {
                let ghost before = processed_view(out@);
                let column = ProcessedField {
                    name: merged_colour_name(&self.fields[first]),
                    kind: FieldKind::ColourRGB,
                };
                out.push(column);
                assert(processed_view(out@) =~= before.push(
                    ProcessedFieldView {
                        name: merged_name(self.fields@[first as int]),
                        kind: FieldKind::ColourRGB,
                    },
                ));
            }
            group = group + 1;
        }
        out
    }
}

/// Finds the first column with the given name.
pub fn find_column(columns: &Vec<ProcessedField>, name: &str) -> (r: usize)
    ensures
        r == column_by_name(processed_view(columns@), name@, 0),
        r <= columns@.len(),
{
    let n: usize = columns.len();
    let mut i: usize = 0;
    while i < n
        invariant
            i <= n == columns@.len(),
            column_by_name(processed_view(columns@), name@, 0) == column_by_name(
                processed_view(columns@),
                name@,
                i as int,
            ),
        decreases n - i,
    {
        if str_eq(columns[i].name.as_str(), name) {
            return i;
        }
        i = i + 1;
    }
    n
}

/// A length as the 32-bit number that an error reports, the largest where it does not fit.
pub open spec fn capped(n: int) -> u32 {
    if n > u32::MAX {
        u32::MAX
    } else {
        n as u32
    }
}

/// A length as a 32-bit number.
pub(crate) fn cap(n: usize) -> (r: u32)
    ensures
        r == capped(n as int),
{
    if n > 0xFFFF_FFFF {
        0xFFFF_FFFF
    } else {
        n as u32
    }
}

/// The bytes of a text with its length in front, or the failure where it is too long.
pub open spec fn sized_text_bytes(units: int, bytes: Seq<u8>) -> core::result::Result<
    Seq<u8>,
    RLibError,
> {
    if units > 0xFFFF {
        Err(RLibError::EncodingStringTooLong(units as usize))
    } else {
        Ok(bytes)
    }
}

/// The bytes that the cell of a plain field is written as. The cell must be of the type
/// of the field, a colour must be a hexadecimal number, and a text must fit its length
/// prefix. Texts have their escapes undone. A sequence is written as the bytes that it is
/// held as. `i` is the position of the field, which a failure reports.
pub open spec fn plain_bytes(kind: FieldKind, cell: Cell, i: int) -> core::result::Result<
    Seq<u8>,
    RLibError,
> {
    match (kind, cell) {
        (FieldKind::Boolean, Cell::Boolean(v)) => Ok(seq![if v { 1u8 } else { 0u8 }]),
        (FieldKind::F32, Cell::F32(v)) => Ok(u32_bytes(v)),
        (FieldKind::F64, Cell::F64(v)) => Ok(u64_bytes(v)),
        (FieldKind::I16, Cell::I16(v)) => Ok(u16_bytes(u16_of(v))),
        (FieldKind::I32, Cell::I32(v)) => Ok(u32_bytes(u32_of(v))),
        (FieldKind::I64, Cell::I64(v)) => Ok(u64_bytes(u64_of(v))),
        (FieldKind::ColourRGB, Cell::ColourRGB(hex)) => match parse_hex_u32(hex) {
            Some(v) => Ok(u32_bytes(v)),
            None => Err(RLibError::TableWrongFieldType(i as usize, kind)),
        },
        (FieldKind::StringU8, Cell::StringU8(s)) => sized_text_bytes(
            encode_utf8(unescaped(s)).len() as int,
            sized_string_u8_bytes(unescaped(s)),
        ),
        (FieldKind::StringU16, Cell::StringU16(s)) => sized_text_bytes(
            utf16_encode(unescaped(s)).len() as int,
            sized_string_u16_bytes(unescaped(s)),
        ),
        (FieldKind::OptionalI16, Cell::OptionalI16(v)) => Ok(seq![1u8] + u16_bytes(u16_of(v))),
        (FieldKind::OptionalI32, Cell::OptionalI32(v)) => Ok(seq![1u8] + u32_bytes(u32_of(v))),
        (FieldKind::OptionalI64, Cell::OptionalI64(v)) => Ok(seq![1u8] + u64_bytes(u64_of(v))),
        (FieldKind::OptionalStringU8, Cell::OptionalStringU8(s)) => sized_text_bytes(
            encode_utf8(unescaped(s)).len() as int,
            optional_string_u8_bytes(unescaped(s)),
        ),
        (FieldKind::OptionalStringU16, Cell::OptionalStringU16(s)) => sized_text_bytes(
            utf16_encode(unescaped(s)).len() as int,
            optional_string_u16_bytes(unescaped(s)),
        ),
        (FieldKind::SequenceU16, Cell::SequenceU16(blob)) => Ok(blob),
        (FieldKind::SequenceU32, Cell::SequenceU32(blob)) => Ok(blob),
        _ => Err(RLibError::TableWrongFieldType(i as usize, kind)),
    }
}

/// The bytes of a number written as a field of an integer type: its lowest 16, 32 or 64
/// bits. Fields of other types cannot hold it.
pub open spec fn integer_bytes(kind: FieldKind, bits: u64) -> Option<Seq<u8>> {
    match kind {
        FieldKind::I16 => Some(u16_bytes((bits % 0x1_0000) as u16)),
        FieldKind::I32 => Some(u32_bytes((bits % 0x1_0000_0000) as u32)),
        FieldKind::I64 => Some(u64_bytes(bits)),
        _ => None,
    }
}

/// The booleans of the `n` cells from `c` on, or `None` where one of them is no boolean.
pub open spec fn boolean_cells(row: Seq<Cell>, c: int, n: int) -> Option<Seq<bool>>
    decreases n,
{
    if n <= 0 {
        Some(Seq::empty())
    } else {
        match boolean_cells(row, c, n - 1) {
            Some(bits) => match row[c + n - 1] {
                Cell::Boolean(b) => Some(bits.push(b)),
                _ => None,
            },
            None => None,
        }
    }
}

/// The bytes that the cells of a field of packed booleans are written as: the integer
/// whose bits they are, the first cell the lowest bit. The field can pack 64 booleans at
/// most.
pub open spec fn bitwise_bytes(
    field: Field,
    row: Seq<Cell>,
    c: int,
    i: int,
) -> core::result::Result<
    Seq<u8>,
    RLibError,
> {
    let kind = field.field_type.spec_kind();
    let n = field.is_bitwise as int;
    if n > 64 || c < 0 || c + n > row.len() {
        Err(RLibError::TableWrongFieldType(i as usize, kind))
    } else {
        match boolean_cells(row, c, n) {
            Some(bits) => match integer_bytes(kind, assembled(bits) as u64) {
                Some(bytes) => Ok(bytes),
                None => Err(RLibError::TableWrongFieldType(i as usize, kind)),
            },
            None => Err(RLibError::TableWrongFieldType(i as usize, kind)),
        }
    }
}

/// The value that stands behind a name of an enumeration: that of the first name listed
/// that is the given one, letters of either case alike.
pub open spec fn enum_value(
    values: Seq<(i32, String)>,
    lower_name: Seq<char>,
    i: int,
) -> Option<i32>
    decreases values.len() - i,
{
    if i < 0 || i >= values.len() {
        None
    } else if lowercase_of(values[i].1@) == lower_name {
        Some(values[i].0)
    } else {
        enum_value(values, lower_name, i + 1)
    }
}

/// The text of a cell that holds text.
pub open spec fn cell_text(cell: Cell) -> Option<Seq<char>> {
    match cell {
        Cell::StringU8(s) => Some(s),
        Cell::StringU16(s) => Some(s),
        Cell::OptionalStringU8(s) => Some(s),
        Cell::OptionalStringU16(s) => Some(s),
        _ => None,
    }
}

/// The smallest number that a field of an integer type holds.
pub open spec fn kind_min(kind: FieldKind) -> int {
    match kind {
        FieldKind::I16 => i16::MIN as int,
        FieldKind::I32 => i32::MIN as int,
        _ => i64::MIN as int,
    }
}

/// The largest number that a field of an integer type holds.
pub open spec fn kind_max(kind: FieldKind) -> int {
    match kind {
        FieldKind::I16 => i16::MAX as int,
        FieldKind::I32 => i32::MAX as int,
        _ => i64::MAX as int,
    }
}

/// The number that the text of an enumeration is written as: the value behind the name,
/// or the text read as a number of the field's type, or the default of the field read so.
pub open spec fn enum_number(field: Field, text: Seq<char>) -> Option<i64> {
    let kind = field.field_type.spec_kind();
    match enum_value(field.enum_values@, lowercase_of(text), 0) {
        Some(v) => Some(v as i64),
        None => match parse_decimal_in(text, kind_min(kind), kind_max(kind)) {
            Some(v) => Some(v as i64),
            None => match field.default_value {
                Some(d) => match parse_decimal_in(d@, kind_min(kind), kind_max(kind)) {
                    Some(v) => Some(v as i64),
                    None => None,
                },
                None => None,
            },
        },
    }
}

/// The bytes that the cell of an enumeration is written as.
pub open spec fn enum_bytes(field: Field, cell: Cell, i: int) -> core::result::Result<
    Seq<u8>,
    RLibError,
> {
    let kind = field.field_type.spec_kind();
    match cell_text(cell) {
        Some(text) => match enum_number(field, text) {
            Some(v) => match integer_bytes(kind, u64_of(v)) {
                Some(bytes) => Ok(bytes),
                None => Err(RLibError::TableWrongFieldType(i as usize, kind)),
            },
            None => Err(RLibError::TableWrongFieldType(i as usize, kind)),
        },
        None => Err(RLibError::TableWrongFieldType(i as usize, kind)),
    }
}

/// The channel with the given name of the colour `v`: red stands in the third byte, green
/// in the second, blue in the first. A channel of another name is 0.
pub open spec fn channel_of_colour(v: u32, channel: Seq<char>) -> u8 {
    if channel == "r"@ || channel == "red"@ {
        (v / 0x1_0000 % 0x100) as u8
    } else if channel == "g"@ || channel == "green"@ {
        (v / 0x100 % 0x100) as u8
    } else if channel == "b"@ || channel == "blue"@ {
        (v % 0x100) as u8
    } else {
        0
    }
}

/// The bytes of a channel written as a field of a numeric type.
pub open spec fn channel_bytes_as(kind: FieldKind, value: u8) -> Option<Seq<u8>> {
    match kind {
        FieldKind::I16 => Some(u16_bytes(value as u16)),
        FieldKind::I32 => Some(u32_bytes(value as u32)),
        FieldKind::I64 => Some(u64_bytes(value as u64)),
        FieldKind::F32 => Some(u32_bytes(u8_to_f32_bits(value))),
        FieldKind::F64 => Some(u64_bytes(u8_to_f64_bits(value))),
        _ => None,
    }
}

/// The bytes that a channel of a colour is written as. The colour is looked up by the name
/// of its column, which is derived from the name of the field; it must be there, and be a
/// hexadecimal number.
pub open spec fn channel_bytes(
    field: Field,
    columns: Seq<ProcessedFieldView>,
    row: Seq<Cell>,
    i: int,
) -> core::result::Result<Seq<u8>, RLibError> {
    let kind = field.field_type.spec_kind();
    let at = column_by_name(columns, merged_name(field), 0);
    if at >= columns.len() || at >= row.len() {
        Err(RLibError::TableWrongFieldType(i as usize, kind))
    } else {
        match row[at] {
            Cell::ColourRGB(hex) => match parse_hex_u32(hex) {
                Some(v) => match channel_bytes_as(
                    kind,
                    channel_of_colour(v, field.spec_channel()),
                ) {
                    Some(bytes) => Ok(bytes),
                    None => Err(RLibError::TableWrongFieldType(i as usize, kind)),
                },
                None => Err(RLibError::TableWrongFieldType(i as usize, kind)),
            },
            _ => Err(RLibError::TableWrongFieldType(i as usize, kind)),
        }
    }
}

/// The bytes that field `i` is written as, from the cells of the row from `c` on, and the
/// cell that the next field starts at.
pub open spec fn field_bytes(
    field: Field,
    columns: Seq<ProcessedFieldView>,
    row: Seq<Cell>,
    c: int,
    i: int,
) -> core::result::Result<(Seq<u8>, int), RLibError> {
    let kind = field.field_type.spec_kind();
    match field.spec_role() {
        FieldRole::Plain => if 0 <= c < row.len() {
            match plain_bytes(kind, row[c], i) {
                Ok(bytes) => Ok((bytes, c + 1)),
                Err(e) => Err(e),
            }
        } else {
            Err(RLibError::TableWrongFieldType(i as usize, kind))
        },
        FieldRole::Bitwise => match bitwise_bytes(field, row, c, i) {
            Ok(bytes) => Ok((bytes, c + field.is_bitwise)),
            Err(e) => Err(e),
        },
        FieldRole::Enumeration => if 0 <= c < row.len() {
            match enum_bytes(field, row[c], i) {
                Ok(bytes) => Ok((bytes, c + 1)),
                Err(e) => Err(e),
            }
        } else {
            Err(RLibError::TableWrongFieldType(i as usize, kind))
        },
        FieldRole::Channel => match channel_bytes(field, columns, row, i) {
            Ok(bytes) => Ok((bytes, c)),
            Err(e) => Err(e),
        },
        FieldRole::Dropped => Err(RLibError::TableWrongFieldType(i as usize, kind)),
    }
}

/// The bytes of a row from field `i` on, behind the bytes `done`; `c` is the cell that
/// field `i` starts at.
pub open spec fn row_bytes(
    fields: Seq<Field>,
    columns: Seq<ProcessedFieldView>,
    row: Seq<Cell>,
    i: int,
    c: int,
    done: Seq<u8>,
) -> core::result::Result<Seq<u8>, RLibError>
    decreases fields.len() - i,
{
    if i < 0 || i >= fields.len() {
        Ok(done)
    } else {
        match field_bytes(fields[i], columns, row, c, i) {
            Ok((bytes, next)) => row_bytes(fields, columns, row, i + 1, next, done + bytes),
            Err(e) => Err(e),
        }
    }
}

/// The bytes of the rows from row `r` on, behind the bytes `done`. Each row must have one
/// cell for each column.
pub open spec fn rows_bytes(
    definition: Definition,
    rows: Seq<Seq<Cell>>,
    r: int,
    done: Seq<u8>,
) -> core::result::Result<Seq<u8>, RLibError>
    decreases rows.len() - r,
{
    let columns = processed_columns(definition);
    if r < 0 || r >= rows.len() {
        Ok(done)
    } else if rows[r].len() != columns.len() {
        Err(
            RLibError::TableRowWrongFieldCount(
                capped(columns.len() as int),
                capped(rows[r].len() as int),
            ),
        )
    } else {
        match row_bytes(definition.fields@, columns, rows[r], 0, 0, Seq::empty()) {
            Ok(bytes) => rows_bytes(definition, rows, r + 1, done + bytes),
            Err(e) => Err(e),
        }
    }
}

/// The bytes of a table: the count of its rows, in 32 bits, where it is asked for, and its
/// rows.
pub open spec fn table_bytes(
    definition: Definition,
    rows: Seq<Seq<Cell>>,
    with_count: bool,
) -> core::result::Result<
    Seq<u8>,
    RLibError,
> {
    if with_count && rows.len() > u32::MAX {
        Err(RLibError::TableTooManyRows)
    } else {
        rows_bytes(
            definition,
            rows,
            0,
            if with_count {
                u32_bytes(rows.len() as u32)
            } else {
                Seq::empty()
            },
        )
    }
}

/// Appends the bytes that the cell of a plain field is written as. On failure nothing is
/// appended.
#[verifier::rlimit(40)]
pub fn encode_plain(buffer: &mut Vec<u8>, kind: FieldKind, cell: &DecodedData, i: usize) -> (r:
    Result<()>)
    ensures
        match plain_bytes(kind, cell@, i as int) {
            Ok(bytes) => r is Ok && final(buffer)@ == old(buffer)@ + bytes,
            Err(e) => r == Err::<(), RLibError>(e) && final(buffer)@ == old(buffer)@,
        },
{
    let failure = RLibError::TableWrongFieldType(i, kind);
    match (kind, cell) {
        (FieldKind::Boolean, DecodedData::Boolean(v)) => {
            write_bool(buffer, *v);
            Ok(())
        },
        (FieldKind::F32, DecodedData::F32(v)) => {
            write_u32(buffer, *v);
            Ok(())
        },
        (FieldKind::F64, DecodedData::F64(v)) => {
            write_u64(buffer, *v);
            Ok(())
        },
        (FieldKind::I16, DecodedData::I16(v)) => {
            write_i16(buffer, *v);
            Ok(())
        },
        (FieldKind::I32, DecodedData::I32(v)) => {
            write_i32(buffer, *v);
            Ok(())
        },
        (FieldKind::I64, DecodedData::I64(v)) => {
            write_i64(buffer, *v);
            Ok(())
        },
        (FieldKind::ColourRGB, DecodedData::ColourRGB(hex)) => {
            match write_string_colour_rgb(buffer, hex.as_str()) {
                Ok(()) => Ok(()),
                Err(_) => Err(failure),
            }
        },
        (FieldKind::OptionalI16, DecodedData::OptionalI16(v)) => {
            write_optional_i16(buffer, *v);
            Ok(())
        },
        (FieldKind::OptionalI32, DecodedData::OptionalI32(v)) => {
            write_optional_i32(buffer, *v);
            Ok(())
        },
        (FieldKind::OptionalI64, DecodedData::OptionalI64(v)) => {
            write_optional_i64(buffer, *v);
            Ok(())
        },
        (FieldKind::SequenceU16, DecodedData::SequenceU16(blob)) => {
            write_all(buffer, blob.as_slice());
            Ok(())
        },
        (FieldKind::SequenceU32, DecodedData::SequenceU32(blob)) => {
            write_all(buffer, blob.as_slice());
            Ok(())
        },
        _ => encode_plain_text(buffer, kind, cell, i),
    }
}

/// Appends the bytes that the cell of a plain text field is written as.
fn encode_plain_text(buffer: &mut Vec<u8>, kind: FieldKind, cell: &DecodedData, i: usize) -> (r:
    Result<()>)
    requires
        !(kind == FieldKind::Boolean && cell@ is Boolean),
        !(kind == FieldKind::F32 && cell@ is F32),
        !(kind == FieldKind::F64 && cell@ is F64),
        !(kind == FieldKind::I16 && cell@ is I16),
        !(kind == FieldKind::I32 && cell@ is I32),
        !(kind == FieldKind::I64 && cell@ is I64),
        !(kind == FieldKind::ColourRGB && cell@ is ColourRGB),
        !(kind == FieldKind::OptionalI16 && cell@ is OptionalI16),
        !(kind == FieldKind::OptionalI32 && cell@ is OptionalI32),
        !(kind == FieldKind::OptionalI64 && cell@ is OptionalI64),
        !(kind == FieldKind::SequenceU16 && cell@ is SequenceU16),
        !(kind == FieldKind::SequenceU32 && cell@ is SequenceU32),
    ensures
        match plain_bytes(kind, cell@, i as int) {
            Ok(bytes) => r is Ok && final(buffer)@ == old(buffer)@ + bytes,
            Err(e) => r == Err::<(), RLibError>(e) && final(buffer)@ == old(buffer)@,
        },
{
    match (kind, cell) {
        (FieldKind::StringU8, DecodedData::StringU8(s)) => {
            let plain = unescape_special_chars(s.as_str());
            write_sized_string_u8(buffer, plain.as_str())
        },
        (FieldKind::StringU16, DecodedData::StringU16(s)) => {
            let plain = unescape_special_chars(s.as_str());
            write_sized_string_u16(buffer, plain.as_str())
        },
        (FieldKind::OptionalStringU8, DecodedData::OptionalStringU8(s)) => {
            let plain = unescape_special_chars(s.as_str());
            write_optional_string_u8(buffer, plain.as_str())
        },
        (FieldKind::OptionalStringU16, DecodedData::OptionalStringU16(s)) => {
            let plain = unescape_special_chars(s.as_str());
            write_optional_string_u16(buffer, plain.as_str())
        },
        _ => Err(RLibError::TableWrongFieldType(i, kind)),
    }
}

/// Appends a number as a field of an integer type. Tells whether the field is of such a
/// type; where it is not, nothing is appended.
pub fn write_integer(buffer: &mut Vec<u8>, kind: FieldKind, bits: u64) -> (r: bool)
    ensures
        match integer_bytes(kind, bits) {
            Some(bytes) => r && final(buffer)@ == old(buffer)@ + bytes,
            None => !r && final(buffer)@ == old(buffer)@,
        },
{
    match kind {
        FieldKind::I16 => {
            crate::binary::write_u16(buffer, (bits % 0x1_0000) as u16);
            true
        },
        FieldKind::I32 => {
            write_u32(buffer, (bits % 0x1_0000_0000) as u32);
            true
        },
        FieldKind::I64 => {
            write_u64(buffer, bits);
            true
        },
        _ => false,
    }
}

/// The number whose lowest bits are the given booleans grows by the weight of each bit
/// that is added at its top.
pub proof fn lemma_assembled_push(bits: Seq<bool>, b: bool)
    ensures
        assembled(bits.push(b)) == assembled(bits) + (if b { pow2(bits.len()) } else { 0 }),
        assembled(bits) < pow2(bits.len()),
    decreases bits.len(),
{
    if bits.len() == 0 {
        assert(bits.push(b).drop_first() =~= Seq::<bool>::empty());
        assert(assembled(bits.push(b).drop_first()) == 0);
    } else {
        lemma_assembled_push(bits.drop_first(), b);
        assert(bits.push(b).drop_first() =~= bits.drop_first().push(b));
    }
}

/// Appends the integer whose bits are the booleans of the cells from `c` on.
#[verifier::rlimit(40)]
fn encode_bitwise(
    buffer: &mut Vec<u8>,
    field: &Field,
    row: &Vec<DecodedData>,
    c: usize,
    i: usize,
) -> (r:
    Result<()>)
    requires
        field.is_bitwise > 1,
    ensures
        match bitwise_bytes(*field, row_view(row@), c as int, i as int) {
            Ok(bytes) => r is Ok && final(buffer)@ == old(buffer)@ + bytes,
            Err(e) => r == Err::<(), RLibError>(e) && final(buffer)@ == old(buffer)@,
        },
{
    let kind = field.field_type.kind();
    let failure = RLibError::TableWrongFieldType(i, kind);
    let n: usize = field.is_bitwise as usize;
    let len: usize = row.len();
    if n > 64 || c > len || len - c < n {
        return Err(failure);
    }
    let mut value: u64 = 0;
    let mut weight: u64 = 1;
    let mut k: usize = 0;
    let ghost cells = row_view(row@);
    proof {
        lemma_pow2_64();
    }
    while k < n
        invariant
            k <= n <= 64,
            n == field.is_bitwise,
            c + n <= len == row@.len(),
            cells == row_view(row@),
            kind == field.field_type.spec_kind(),
            failure == RLibError::TableWrongFieldType(i, kind),
            buffer@ == old(buffer)@,
            boolean_cells(cells, c as int, k as int) is Some,
            value == assembled(boolean_cells(cells, c as int, k as int)->Some_0),
            boolean_cells(cells, c as int, k as int)->Some_0.len() == k,
            k < 64 ==> weight == pow2(k as nat),
            value < pow2(k as nat),
            pow2(64) == 0x1_0000_0000_0000_0000,
        decreases n - k,
    {
        let ghost before = boolean_cells(cells, c as int, k as int)->Some_0;
        match &row[c + k] {
            DecodedData::Boolean(b) => {
                proof {
                    lemma_assembled_push(before, *b);
                    lemma_assembled_push(before.push(*b), false);
                    lemma_pow2_monotonic((k + 1) as nat, 64);
                    assert(cells[c + k] == Cell::Boolean(*b));
                    assert(boolean_cells(cells, c as int, k + 1) == Some(before.push(*b)));
                }
                if *b {
                    value = value + weight;
                }
                if k < 63 {
                    proof {
                        lemma_pow2_monotonic((k + 1) as nat, 63);
                        reveal_with_fuel(pow2, 2);
                        assert(pow2(64) == 2 * pow2(63));
                    }
                    weight = weight * 2;
                }
            },
            _ => {
                proof {
                    assert(!(cells[c + k] is Boolean));
                    assert(boolean_cells(cells, c as int, k + 1) is None);
                    lemma_boolean_cells_none(cells, c as int, k as int + 1, n as int);
                }
                return Err(failure);
            },
        }
        k = k + 1;
    }
    if write_integer(buffer, kind, value) {
        Ok(())
    } else {
        Err(failure)
    }
}

/// Two to the power of 64.
pub proof fn lemma_pow2_64()
    ensures
        pow2(64) == 0x1_0000_0000_0000_0000,
{
    reveal_with_fuel(pow2, 65);
}

/// Powers of two grow.
pub proof fn lemma_pow2_monotonic(a: nat, b: nat)
    requires
        a <= b,
    ensures
        pow2(a) <= pow2(b),
    decreases b,
{
    if a < b {
        lemma_pow2_monotonic(a, (b - 1) as nat);
    }
}

/// Where the first cells hold something that is no boolean, so do more of them.
pub proof fn lemma_boolean_cells_none(row: Seq<Cell>, c: int, k: int, n: int)
    requires
        k <= n,
        boolean_cells(row, c, k) is None,
    ensures
        boolean_cells(row, c, n) is None,
    decreases n - k,
{
    if k < n {
        lemma_boolean_cells_none(row, c, k, n - 1);
    }
}

/// The value behind the first of the names from `i` on that is `lower_name`. The names are
/// given in lower case, one for each value.
pub open spec fn value_of_name(
    values: Seq<(i32, String)>,
    lower_names: Seq<Seq<char>>,
    lower_name: Seq<char>,
    i: int,
) -> Option<i32>
    decreases values.len() - i,
{
    if i < 0 || i >= values.len() || i >= lower_names.len() {
        None
    } else if lower_names[i] == lower_name {
        Some(values[i].0)
    } else {
        value_of_name(values, lower_names, lower_name, i + 1)
    }
}

/// Looks up the value behind a name of an enumeration. The names of the values and the
/// name that is looked up are given in lower case.
pub fn find_by_lower_name(
    values: &Vec<(i32, String)>,
    lower_names: &Vec<String>,
    lower_name: &str,
) -> (r: Option<i32>)
    ensures
        r == value_of_name(values@, crate::pack::texts(lower_names@), lower_name@, 0),
{
    let mut i: usize = 0;
    while i < values.len() && i < lower_names.len()
        invariant
            value_of_name(values@, crate::pack::texts(lower_names@), lower_name@, 0)
                == value_of_name(
                values@,
                crate::pack::texts(lower_names@),
                lower_name@,
                i as int,
            ),
        decreases values@.len() - i,
    {
        if str_eq(lower_names[i].as_str(), lower_name) {
            return Some(values[i].0);
        }
        i = i + 1;
    }
    None
}

/// With the names in lower case, looking a name up by them is looking it up without regard
/// to case.
pub proof fn lemma_value_of_name(
    values: Seq<(i32, String)>,
    lower_names: Seq<Seq<char>>,
    lower_name: Seq<char>,
    i: int,
)
    requires
        0 <= i,
        lower_names.len() == values.len(),
        forall|k: int| 0 <= k < values.len() ==> lower_names[k] == lowercase_of(values[k].1@),
    ensures
        value_of_name(values, lower_names, lower_name, i) == enum_value(values, lower_name, i),
    decreases values.len() - i,
{
    if i < values.len() && lower_names[i] != lower_name {
        lemma_value_of_name(values, lower_names, lower_name, i + 1);
    }
}

/// Looks up the value behind a name of an enumeration, given in lower case.
fn find_enum_value(values: &Vec<(i32, String)>, lower_name: &str) -> (r: Option<i32>)
    ensures
        r == enum_value(values@, lower_name@, 0),
{
    let mut lower_names: Vec<String> = Vec::new();
    let mut i: usize = 0;
    while i < values.len()
        invariant
            i <= values@.len(),
            lower_names@.len() == i,
            forall|k: int| 0 <= k < i ==> (#[trigger] lower_names@[k])@ == lowercase_of(values@[k].1@),
        decreases values@.len() - i,
    {
        lower_names.push(to_lowercase(values[i].1.as_str()));
        i = i + 1;
    }
    proof {
        lemma_value_of_name(values@, crate::pack::texts(lower_names@), lower_name@, 0);
    }
    find_by_lower_name(values, &lower_names, lower_name)
}

/// The smallest and the largest number that a field of an integer type holds.
fn kind_range(kind: FieldKind) -> (r: (i64, i64))
    ensures
        r.0 == kind_min(kind),
        r.1 == kind_max(kind),
{
    match kind {
        FieldKind::I16 => (-0x8000, 0x7FFF),
        FieldKind::I32 => (-0x8000_0000, 0x7FFF_FFFF),
        _ => (i64::MIN, i64::MAX),
    }
}

/// The number that the text of an enumeration is written as.
pub fn resolve_enum(field: &Field, text: &str) -> (r: Option<i64>)
    ensures
        r == enum_number(*field, text@),
{
    let kind = field.field_type.kind();
    let lower = to_lowercase(text);
    match find_enum_value(&field.enum_values, lower.as_str()) {
        Some(v) => Some(v as i64),
        None => {
            let (min, max) = kind_range(kind);
            match decimal_to_bounded(text, min, max) {
                Some(v) => Some(v),
                None => match &field.default_value {
                    Some(d) => decimal_to_bounded(d.as_str(), min, max),
                    None => None,
                },
            }
        },
    }
}

/// Appends the bytes that the cell of an enumeration is written as.
fn encode_enum(buffer: &mut Vec<u8>, field: &Field, cell: &DecodedData, i: usize) -> (r: Result<()>)
    ensures
        match enum_bytes(*field, cell@, i as int) {
            Ok(bytes) => r is Ok && final(buffer)@ == old(buffer)@ + bytes,
            Err(e) => r == Err::<(), RLibError>(e) && final(buffer)@ == old(buffer)@,
        },
{
    let kind = field.field_type.kind();
    let failure = RLibError::TableWrongFieldType(i, kind);
    let number: Option<i64> = match cell {
        DecodedData::StringU8(s) => resolve_enum(field, s.as_str()),
        DecodedData::StringU16(s) => resolve_enum(field, s.as_str()),
        DecodedData::OptionalStringU8(s) => resolve_enum(field, s.as_str()),
        DecodedData::OptionalStringU16(s) => resolve_enum(field, s.as_str()),
        _ => None,
    };
    match number {
        Some(v) => if write_integer(buffer, kind, crate::binary::i64_to_bits(v)) {
            Ok(())
        } else {
            Err(failure)
        },
        None => Err(failure),
    }
}

/// The channel with the given name of a colour.
fn colour_channel(v: u32, channel: &str) -> (r: u8)
    ensures
        r == channel_of_colour(v, channel@),
{
    if str_eq(channel, "r") || str_eq(channel, "red") {
        (v / 0x1_0000 % 0x100) as u8
    } else if str_eq(channel, "g") || str_eq(channel, "green") {
        (v / 0x100 % 0x100) as u8
    } else if str_eq(channel, "b") || str_eq(channel, "blue") {
        (v % 0x100) as u8
    } else {
        0
    }
}

/// Appends a channel as a field of a numeric type. Tells whether the field is of such a
/// type.
fn write_channel(buffer: &mut Vec<u8>, kind: FieldKind, value: u8) -> (r: bool)
    ensures
        match channel_bytes_as(kind, value) {
            Some(bytes) => r && final(buffer)@ == old(buffer)@ + bytes,
            None => !r && final(buffer)@ == old(buffer)@,
        },
{
    match kind {
        FieldKind::I16 => {
            crate::binary::write_u16(buffer, value as u16);
            true
        },
        FieldKind::I32 => {
            write_u32(buffer, value as u32);
            true
        },
        FieldKind::I64 => {
            write_u64(buffer, value as u64);
            true
        },
        FieldKind::F32 => {
            write_u32(buffer, channel_to_f32(value));
            true
        },
        FieldKind::F64 => {
            write_u64(buffer, channel_to_f64(value));
            true
        },
        _ => false,
    }
}

/// Appends the bytes that a channel of a colour is written as.
fn encode_channel(
    buffer: &mut Vec<u8>,
    field: &Field,
    columns: &Vec<ProcessedField>,
    row: &Vec<DecodedData>,
    i: usize,
) -> (r: Result<()>)
    ensures
        match channel_bytes(*field, processed_view(columns@), row_view(row@), i as int) {
            Ok(bytes) => r is Ok && final(buffer)@ == old(buffer)@ + bytes,
            Err(e) => r == Err::<(), RLibError>(e) && final(buffer)@ == old(buffer)@,
        },
{
    let kind = field.field_type.kind();
    let failure = RLibError::TableWrongFieldType(i, kind);
    let name = merged_colour_name(field);
    let at: usize = find_column(columns, name.as_str());
    if at >= columns.len() || at >= row.len() {
        return Err(failure);
    }
    match &row[at] {
        DecodedData::ColourRGB(hex) => match hex_to_u32(hex.as_str()) {
            Some(v) => {
                let tail = tail_of_name(field.name.as_str());
                let channel = to_lowercase(tail.as_str());
                if write_channel(buffer, kind, colour_channel(v, channel.as_str())) {
                    Ok(())
                } else {
                    Err(failure)
                }
            },
            None => Err(failure),
        },
        _ => Err(failure),
    }
}

/// Appends the bytes that field `i` is written as, from the cells of the row from `c` on,
/// and gives the cell that the next field starts at.
#[verifier::rlimit(40)]
pub fn encode_field(
    buffer: &mut Vec<u8>,
    field: &Field,
    columns: &Vec<ProcessedField>,
    row: &Vec<DecodedData>,
    c: usize,
    i: usize,
) -> (r: Result<usize>)
    ensures
        match field_bytes(*field, processed_view(columns@), row_view(row@), c as int, i as int) {
            Ok((bytes, next)) => r == Ok::<usize, RLibError>(next as usize) && next <= usize::MAX
                && final(buffer)@ == old(buffer)@ + bytes,
            Err(e) => r == Err::<usize, RLibError>(e) && final(buffer)@ == old(buffer)@,
        },
{
    let kind = field.field_type.kind();
    let failure = RLibError::TableWrongFieldType(i, kind);
    let len: usize = row.len();
    match field.role() {
        FieldRole::Plain => {
            if c >= len {
                return Err(failure);
            }
            match encode_plain(buffer, kind, &row[c], i) {
                Ok(()) => Ok(c + 1),
                Err(e) => Err(e),
            }
        },
        FieldRole::Bitwise => match encode_bitwise(buffer, field, row, c, i) {
            Ok(()) => Ok(c + field.is_bitwise as usize),
            Err(e) => Err(e),
        },
        FieldRole::Enumeration => {
            if c >= len {
                return Err(failure);
            }
            match encode_enum(buffer, field, &row[c], i) {
                Ok(()) => Ok(c + 1),
                Err(e) => Err(e),
            }
        },
        FieldRole::Channel => match encode_channel(buffer, field, columns, row, i) {
            Ok(()) => Ok(c),
            Err(e) => Err(e),
        },
        FieldRole::Dropped => Err(failure),
    }
}

impl Table {
    /// Appends the bytes of one row. On failure nothing is appended.
    #[verifier::rlimit(40)]
    pub fn encode_row(
        buffer: &mut Vec<u8>,
        definition: &Definition,
        columns: &Vec<ProcessedField>,
        row: &Vec<DecodedData>,
    ) -> (r: Result<()>)
        ensures
            match row_bytes(
                definition.fields@,
                processed_view(columns@),
                row_view(row@),
                0,
                0,
                Seq::empty(),
            ) {
                Ok(bytes) => r is Ok && final(buffer)@ == old(buffer)@ + bytes,
                Err(e) => r == Err::<(), RLibError>(e) && final(buffer)@ == old(buffer)@,
            },
    {
        let mut out: Vec<u8> = Vec::new();
        let n: usize = definition.fields.len();
        let mut i: usize = 0;
        let mut c: usize = 0;
        while i < n
            invariant
                i <= n == definition.fields@.len(),
                buffer@ == old(buffer)@,
                row_bytes(
                    definition.fields@,
                    processed_view(columns@),
                    row_view(row@),
                    0,
                    0,
                    Seq::empty(),
                ) == row_bytes(
                    definition.fields@,
                    processed_view(columns@),
                    row_view(row@),
                    i as int,
                    c as int,
                    out@,
                ),
            decreases n - i,
        {
            match encode_field(&mut out, &definition.fields[i], columns, row, c, i) {
                Ok(next) => {
                    c = next;
                },
                Err(e) => {
                    return Err(e);
                },
            }
            i = i + 1;
        }
        write_all(buffer, out.as_slice());
        Ok(())
    }

    /// Appends the bytes of a table: the count of its rows where it is asked for, and its
    /// rows. On failure nothing is appended.
    #[verifier::rlimit(40)]
    pub fn encode_table(
        definition: &Definition,
        rows: &Vec<Vec<DecodedData>>,
        with_count: bool,
        buffer: &mut Vec<u8>,
    ) -> (r: Result<()>)
        ensures
            match table_bytes(*definition, rows_view(rows@), with_count) {
                Ok(bytes) => r is Ok && final(buffer)@ == old(buffer)@ + bytes,
                Err(e) => r == Err::<(), RLibError>(e) && final(buffer)@ == old(buffer)@,
            },
    {
        let n: usize = rows.len();
        if with_count && n > 0xFFFF_FFFF {
            return Err(RLibError::TableTooManyRows);
        }
        let columns = definition.fields_processed();
        let mut out: Vec<u8> = Vec::new();
        if with_count {
            write_u32(&mut out, n as u32);
        }
        let ghost start = out@;
        assert(start =~= (if with_count {
            u32_bytes(rows_view(rows@).len() as u32)
        } else {
            Seq::empty()
        }));
        let mut r: usize = 0;
        while r < n
            invariant
                r <= n == rows@.len(),
                buffer@ == old(buffer)@,
                processed_view(columns@) == processed_columns(*definition),
                table_bytes(*definition, rows_view(rows@), with_count) == rows_bytes(
                    *definition,
                    rows_view(rows@),
                    0,
                    start,
                ),
                rows_bytes(*definition, rows_view(rows@), 0, start) == rows_bytes(
                    *definition,
                    rows_view(rows@),
                    r as int,
                    out@,
                ),
            decreases n - r,
        {
            let row = &rows[r];
            if row.len() != columns.len() {
                return Err(RLibError::TableRowWrongFieldCount(cap(columns.len()), cap(row.len())));
            }
            match Table::encode_row(&mut out, definition, &columns, row) {
                Ok(()) => {},
                Err(e) => {
                    return Err(e);
                },
            }
            r = r + 1;
        }
        write_all(buffer, out.as_slice());
        Ok(())
    }

    /// Appends the bytes of the rows of the table.
    pub fn encode(&self, buffer: &mut Vec<u8>) -> (r: Result<()>)
        ensures
            match table_bytes(self.definition, rows_view(self.entries@), false) {
                Ok(bytes) => r is Ok && final(buffer)@ == old(buffer)@ + bytes,
                Err(e) => r == Err::<(), RLibError>(e) && final(buffer)@ == old(buffer)@,
            },
    {
        Table::encode_table(&self.definition, &self.entries, false, buffer)
    }
}

/// The rows of the table that the data of a file holds: a count of rows, in 32 bits, and
/// the rows, which must take the data to its last byte.
pub open spec fn spec_file_table(
    data: Seq<u8>,
    definition: Definition,
    lenient: bool,
) -> core::result::Result<
    Seq<Seq<Cell>>,
    RLibError,
> {
    match spec_decode_table(definition, data, None, 0, lenient) {
        Ok((rows, end)) => if end == data.len() {
            Ok(rows)
        } else {
            Err(RLibError::DecodingMismatchSize(end as usize, data.len() as usize))
        },
        Err(e) => Err(e),
    }
}

/// Decodes data that holds a table and nothing else.
fn decode_whole_table(data: &[u8], definition: &Definition, return_incomplete: bool) -> (r: Result<
    Vec<Vec<DecodedData>>,
>)
    ensures
        match spec_file_table(data@, *definition, return_incomplete) {
            Ok(rows) => r is Ok && rows_view(r->Ok_0@) == rows,
            Err(e) => r == Err::<Vec<Vec<DecodedData>>, RLibError>(e),
        },
{
    let mut index: usize = 0;
    let rows = Table::decode_table(definition, data, None, &mut index, return_incomplete)?;
    if index != data.len() {
        return Err(RLibError::DecodingMismatchSize(index, data.len()));
    }
    Ok(rows)
}

impl RFile {
    /// Decodes the data of the file as a table of the given definition. The file must be in
    /// memory, and its data not compressed: compressed data is refused, as this library
    /// cannot take it apart. Encrypted data is decrypted first; the file stays as it is.
    pub fn decode_table(&self, definition: &Definition, return_incomplete: bool) -> (r: Result<
        Vec<Vec<DecodedData>>,
    >)
        ensures
            match self.data@ {
                FileDataView::OnDisk { .. } => r == Err::<Vec<Vec<DecodedData>>, RLibError>(
                    RLibError::FileDataNotInMemory,
                ),
                FileDataView::OnMemory { data, is_compressed, is_encrypted } => if is_compressed {
                    r == Err::<Vec<Vec<DecodedData>>, RLibError>(RLibError::FileCompressionPending)
                } else {
                    match spec_file_table(
                        if is_encrypted is Some {
                            decrypted_data(data)
                        } else {
                            data
                        },
                        *definition,
                        return_incomplete,
                    ) {
                        Ok(rows) => r is Ok && rows_view(r->Ok_0@) == rows,
                        Err(e) => r == Err::<Vec<Vec<DecodedData>>, RLibError>(e),
                    }
                },
            },
    {
        match &self.data {
            FileData::OnDisk { .. } => Err(RLibError::FileDataNotInMemory),
            FileData::OnMemory { data, is_compressed, is_encrypted } => {
                if *is_compressed {
                    return Err(RLibError::FileCompressionPending);
                }
                if is_encrypted.is_some() {
                    let plain: Vec<u8> = decrypt_packed_file(data.as_slice());
                    decode_whole_table(plain.as_slice(), definition, return_incomplete)
                } else {
                    decode_whole_table(data.as_slice(), definition, return_incomplete)
                }
            },
        }
    }

    /// Replaces the data of the file by the given rows, encoded by the given definition
    /// with their count in front. The file is then in memory, neither compressed nor
    /// encrypted. On failure the file stays as it was.
    pub fn set_table(&mut self, definition: &Definition, rows: &Vec<Vec<DecodedData>>) -> (r:
        Result<()>)
        ensures
            match table_bytes(*definition, rows_view(rows@), true) {
                Ok(bytes) => r is Ok && final(self)@ == (RFileView {
                    data: FileDataView::OnMemory {
                        data: bytes,
                        is_compressed: false,
                        is_encrypted: None,
                    },
                    ..old(self)@
                }),
                Err(e) => r == Err::<(), RLibError>(e) && final(self)@ == old(self)@,
            },
    {
        let mut data: Vec<u8> = Vec::new();
        Table::encode_table(definition, rows, true, &mut data)?;
        assert(data@ =~= table_bytes(*definition, rows_view(rows@), true)->Ok_0);
        self.data = FileData::OnMemory { data, is_compressed: false, is_encrypted: None };
        Ok(())
    }
}

} // verus!
