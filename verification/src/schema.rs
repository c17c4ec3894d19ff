//! The schema of a record: the fields that it is made of, in the order in which they are
//! stored. The order of the fields is the layout; their names are for people and tools.

use vstd::prelude::*;

use crate::error::FieldKind;
use crate::text::{chars_of, lowercase_of, str_eq, string_from_chars};

verus! {

broadcast use vstd::std_specs::vec::group_vec_axioms;

/// The primitive type of a field. A sequence holds rows of its own, laid out by a
/// definition of its own.
#[derive(Debug)]
pub enum FieldType {
    Boolean,
    F32,
    F64,
    I16,
    I32,
    I64,
    ColourRGB,
    StringU8,
    StringU16,
    OptionalI16,
    OptionalI32,
    OptionalI64,
    OptionalStringU8,
    OptionalStringU16,
    SequenceU16(Box<Definition>),
    SequenceU32(Box<Definition>),
}

/// One field of a record.
#[derive(Debug)]
pub struct Field {
    pub name: String,
    pub field_type: FieldType,
    /// Whether the field is part of the key of the record.
    pub is_key: bool,
    /// The value that a new record has in this field, as a text.
    pub default_value: Option<String>,
    /// The number of booleans that the field packs into its integer, where it is more than
    /// one.
    pub is_bitwise: i32,
    /// The names that stand for values of the field, where the field is an enumeration.
    pub enum_values: Vec<(i32, String)>,
    /// The colour group that the field is one channel of, where it is one.
    pub is_part_of_colour: Option<u8>,
}

/// The layout of a record, in one version of it.
#[derive(Debug)]
pub struct Definition {
    pub version: i32,
    pub fields: Vec<Field>,
}

/// What is done with the value of a field after it was read.
#[derive(Clone, Copy, Debug, PartialEq, Eq, Structural)]
pub enum FieldRole {
    /// The value becomes one cell.
    Plain,
    /// The bits of the value become cells.
    Bitwise,
    /// The name that stands for the value becomes one cell.
    Enumeration,
    /// The value becomes one channel of a colour, and no cell.
    Channel,
    /// The value is dropped: the field is marked as a channel of a colour, and its type is
    /// no number.
    Dropped,
}

impl FieldType {
    /// The type without what it holds.
    pub open spec fn spec_kind(&self) -> FieldKind {
        match self {
            FieldType::Boolean => FieldKind::Boolean,
            FieldType::F32 => FieldKind::F32,
            FieldType::F64 => FieldKind::F64,
            FieldType::I16 => FieldKind::I16,
            FieldType::I32 => FieldKind::I32,
            FieldType::I64 => FieldKind::I64,
            FieldType::ColourRGB => FieldKind::ColourRGB,
            FieldType::StringU8 => FieldKind::StringU8,
            FieldType::StringU16 => FieldKind::StringU16,
            FieldType::OptionalI16 => FieldKind::OptionalI16,
            FieldType::OptionalI32 => FieldKind::OptionalI32,
            FieldType::OptionalI64 => FieldKind::OptionalI64,
            FieldType::OptionalStringU8 => FieldKind::OptionalStringU8,
            FieldType::OptionalStringU16 => FieldKind::OptionalStringU16,
            FieldType::SequenceU16(_) => FieldKind::SequenceU16,
            FieldType::SequenceU32(_) => FieldKind::SequenceU32,
        }
    }

    /// The type without what it holds.
    pub fn kind(&self) -> (r: FieldKind)
        ensures
            r == self.spec_kind(),
    {
        match self {
            FieldType::Boolean => FieldKind::Boolean,
            FieldType::F32 => FieldKind::F32,
            FieldType::F64 => FieldKind::F64,
            FieldType::I16 => FieldKind::I16,
            FieldType::I32 => FieldKind::I32,
            FieldType::I64 => FieldKind::I64,
            FieldType::ColourRGB => FieldKind::ColourRGB,
            FieldType::StringU8 => FieldKind::StringU8,
            FieldType::StringU16 => FieldKind::StringU16,
            FieldType::OptionalI16 => FieldKind::OptionalI16,
            FieldType::OptionalI32 => FieldKind::OptionalI32,
            FieldType::OptionalI64 => FieldKind::OptionalI64,
            FieldType::OptionalStringU8 => FieldKind::OptionalStringU8,
            FieldType::OptionalStringU16 => FieldKind::OptionalStringU16,
            FieldType::SequenceU16(_) => FieldKind::SequenceU16,
            FieldType::SequenceU32(_) => FieldKind::SequenceU32,
        }
    }
}

/// True for the integer types.
pub open spec fn is_integer_kind(kind: FieldKind) -> bool {
    kind == FieldKind::I16 || kind == FieldKind::I32 || kind == FieldKind::I64
}

/// True for the types that can be a channel of a colour: the integers and the floats.
pub open spec fn is_numeric_kind(kind: FieldKind) -> bool {
    is_integer_kind(kind) || kind == FieldKind::F32 || kind == FieldKind::F64
}

/// The position of the last `_` of a name, or -1.
pub open spec fn last_underscore(name: Seq<char>, n: int) -> int
    decreases n,
{
    if n <= 0 {
        -1
    } else if name[n - 1] == '_' {
        n - 1
    } else {
        last_underscore(name, n - 1)
    }
}

/// The part of a name behind its last `_`, or the whole name.
pub open spec fn name_tail(name: Seq<char>) -> Seq<char> {
    name.subrange(last_underscore(name, name.len() as int) + 1, name.len() as int)
}

/// The part of a name before its last `_`, where it has one.
pub open spec fn name_head(name: Seq<char>) -> Option<Seq<char>> {
    let at = last_underscore(name, name.len() as int);
    if at >= 0 {
        Some(name.subrange(0, at))
    } else {
        None
    }
}

impl Field {
    /// What is done with the value of the field after it was read. Only an integer packs
    /// booleans or stands for a name: on a field of another type a bit width and names for
    /// values have no effect. A field that packs booleans comes first, then an enumeration,
    /// then a channel of a colour, which asks for an integer or a float; a channel of
    /// another type gives nothing.
    pub open spec fn spec_role(&self) -> FieldRole {
        let kind = self.field_type.spec_kind();
        if self.is_bitwise > 1 && is_integer_kind(kind) {
            FieldRole::Bitwise
        } else if self.enum_values@.len() > 0 && is_integer_kind(kind) {
            FieldRole::Enumeration
        } else if self.is_part_of_colour is Some {
            if is_numeric_kind(kind) {
                FieldRole::Channel
            } else {
                FieldRole::Dropped
            }
        } else {
            FieldRole::Plain
        }
    }

    /// What is done with the value of the field after it was read.
    pub fn role(&self) -> (r: FieldRole)
        ensures
            r == self.spec_role(),
    {
        let kind = self.field_type.kind();
        let integer: bool = match kind {
            FieldKind::I16 => true,
            FieldKind::I32 => true,
            FieldKind::I64 => true,
            _ => false,
        };
        let numeric: bool = integer || match kind {
            FieldKind::F32 => true,
            FieldKind::F64 => true,
            _ => false,
        };
        if self.is_bitwise > 1 && integer {
            FieldRole::Bitwise
        } else if self.enum_values.len() > 0 && integer {
            FieldRole::Enumeration
        } else if self.is_part_of_colour.is_some() {
            if numeric {
                FieldRole::Channel
            } else {
                FieldRole::Dropped
            }
        } else {
            FieldRole::Plain
        }
    }

    /// A field with the given name and type, and nothing special about it.
    pub fn new(name: &str, field_type: FieldType) -> (r: Field)
        ensures
            r.name@ == name@,
            r.field_type == field_type,
            !r.is_key,
            r.default_value is None,
            r.is_bitwise == 0,
            r.enum_values@.len() == 0,
            r.is_part_of_colour is None,
    {
        Field {
            name: string_from_chars(chars_of(name).as_slice()),
            field_type,
            is_key: false,
            default_value: None,
            is_bitwise: 0,
            enum_values: Vec::new(),
            is_part_of_colour: None,
        }
    }

    /// The channel that the field holds: the part of its name behind the last `_`, in
    /// lower case.
    pub open spec fn spec_channel(&self) -> Seq<char> {
        lowercase_of(name_tail(self.name@))
    }
}

/// Finds the last `_` among the first `n` characters.
pub fn find_last_underscore(name: &Vec<char>) -> (r: Option<usize>)
    ensures
        match r {
            Some(at) => at == last_underscore(name@, name@.len() as int) && at < name@.len(),
            None => last_underscore(name@, name@.len() as int) == -1,
        },
{
    let mut n: usize = name.len();
    while n > 0
        invariant
            n <= name@.len(),
            last_underscore(name@, name@.len() as int) == last_underscore(name@, n as int),
        decreases n,
    {
        if name[n - 1] == '_' {
            return Some(n - 1);
        }
        n = n - 1;
    }
    None
}

/// The part of a name behind its last `_`, or the whole name.
pub fn tail_of_name(name: &str) -> (r: String)
    ensures
        r@ == name_tail(name@),
{
    let chars = chars_of(name);
    let n: usize = chars.len();
    let from: usize = match find_last_underscore(&chars) {
        Some(at) => at + 1,
        None => 0,
    };
    let tail = vstd::slice::slice_subrange(chars.as_slice(), from, n);
    string_from_chars(tail)
}

/// The part of a name before its last `_`, where it has one.
pub fn head_of_name(name: &str) -> (r: Option<String>)
    ensures
        match name_head(name@) {
            Some(head) => r is Some && r->Some_0@ == head,
            None => r is None,
        },
{
    let chars = chars_of(name);
    match find_last_underscore(&chars) {
        Some(at) => {
            let head = vstd::slice::slice_subrange(chars.as_slice(), 0, at);
            Some(string_from_chars(head))
        },
        None => None,
    }
}

impl Definition {
    /// A definition with the given version and fields.
    pub fn new(version: i32, fields: Vec<Field>) -> (r: Definition)
        ensures
            r.version == version,
            r.fields == fields,
    {
        Definition { version, fields }
    }
}

/// The definitions of one table, one for each version of it that is known.
#[derive(Debug)]
pub struct TableDefinitions {
    pub table_name: String,
    pub definitions: Vec<Definition>,
}

/// The definitions of the tables of a game. It is made elsewhere and handed in.
#[derive(Debug)]
pub struct Schema {
    pub tables: Vec<TableDefinitions>,
}

/// The position of the first table at or behind `i` with the given name, or the number of
/// tables.
pub open spec fn table_position(tables: Seq<TableDefinitions>, name: Seq<char>, i: int) -> int
    decreases tables.len() - i,
{
    if i < 0 || i >= tables.len() {
        tables.len() as int
    } else if tables[i].table_name@ == name {
        i
    } else {
        table_position(tables, name, i + 1)
    }
}

/// The position of the first definition at or behind `i` with the given version, or the
/// number of definitions.
pub open spec fn version_position(definitions: Seq<Definition>, version: i32, i: int) -> int
    decreases definitions.len() - i,
{
    if i < 0 || i >= definitions.len() {
        definitions.len() as int
    } else if definitions[i].version == version {
        i
    } else {
        version_position(definitions, version, i + 1)
    }
}

/// The definition of the table with the given name in the given version: the first one
/// listed for the first table of that name.
pub open spec fn spec_definition(
    schema: Schema,
    name: Seq<char>,
    version: i32,
) -> Option<Definition> {
    let t = table_position(schema.tables@, name, 0);
    if 0 <= t < schema.tables@.len() {
        let d = version_position(schema.tables@[t].definitions@, version, 0);
        if 0 <= d < schema.tables@[t].definitions@.len() {
            Some(schema.tables@[t].definitions@[d])
        } else {
            None
        }
    } else {
        None
    }
}

impl Schema {
    /// The definition of the table with the given name in the given version, where the
    /// schema has one.
    pub fn definition(&self, table_name: &str, version: i32) -> (r: Option<&Definition>)
        ensures
            match spec_definition(*self, table_name@, version) {
                Some(d) => r is Some && *r->Some_0 == d,
                None => r is None,
            },
    {
        let n: usize = self.tables.len();
        let mut t: usize = 0;
        while t < n
            invariant
                t <= n == self.tables@.len(),
                table_position(self.tables@, table_name@, 0) == table_position(
                    self.tables@,
                    table_name@,
                    t as int,
                ),
            decreases n - t,
        {
            if str_eq(self.tables[t].table_name.as_str(), table_name) {
                let definitions = &self.tables[t].definitions;
                let m: usize = definitions.len();
                let mut d: usize = 0;
                while d < m
                    invariant
                        d <= m == definitions@.len(),
                        t < self.tables@.len(),
                        table_position(self.tables@, table_name@, 0) == t,
                        definitions@ == self.tables@[t as int].definitions@,
                        version_position(definitions@, version, 0) == version_position(
                            definitions@,
                            version,
                            d as int,
                        ),
                    decreases m - d,
                {
                    if definitions[d].version == version {
                        return Some(&definitions[d]);
                    }
                    d = d + 1;
                }
                return None;
            }
            t = t + 1;
        }
        None
    }
}

} // verus!
