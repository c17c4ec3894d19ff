use rpfm_lib::error::{FieldKind, RLibError};
use rpfm_lib::pack::crypto::decrypt_packed_file;
use rpfm_lib::pack::{FileData, PFHVersion, RFile};
use rpfm_lib::schema::{Definition, Field, FieldType, Schema, TableDefinitions};
use rpfm_lib::table::cells::{
    channel_to_f32, channel_to_f64, f32_to_channel, f64_to_channel, DecodedData,
};
use rpfm_lib::table::decode::Table;

fn field(name: &str, field_type: FieldType) -> Field {
    Field::new(name, field_type)
}

fn five_fields() -> Definition {
    Definition::new(
        1,
        vec![
            field("a", FieldType::I32),
            field("b", FieldType::Boolean),
            field("c", FieldType::StringU8),
            field("d", FieldType::I16),
            field("e", FieldType::F32),
        ],
    )
}

fn five_field_row() -> Vec<u8> {
    let mut bytes = vec![];
    bytes.extend_from_slice(&7i32.to_le_bytes());
    bytes.push(1);
    bytes.extend_from_slice(&5u16.to_le_bytes());
    bytes.extend_from_slice(b"hello");
    bytes.extend_from_slice(&(-2i16).to_le_bytes());
    bytes.extend_from_slice(&1.5f32.to_le_bytes());
    bytes
}

#[test]
fn decode_row_of_plain_fields() {
    let definition = five_fields();
    let bytes = five_field_row();
    let mut index = 0;
    let rows = Table::decode_table(&definition, &bytes, Some(1), &mut index, false).unwrap();
    assert_eq!(index, bytes.len());
    assert_eq!(rows.len(), 1);
    assert!(matches!(rows[0][0], DecodedData::I32(7)));
    assert!(matches!(rows[0][1], DecodedData::Boolean(true)));
    assert!(matches!(&rows[0][2], DecodedData::StringU8(s) if s == "hello"));
    assert!(matches!(rows[0][3], DecodedData::I16(-2)));
    assert!(matches!(rows[0][4], DecodedData::F32(bits) if f32::from_bits(bits) == 1.5));
}

#[test]
fn truncated_row_is_cut_short_when_lenient_and_fails_when_strict() {
    let definition = five_fields();
    let bytes = five_field_row();
    // The third field is a text of five bytes behind its length: cut it in the middle.
    let truncated = &bytes[..4 + 1 + 2 + 2];

    let mut index = 0;
    let rows = Table::decode_table(&definition, truncated, Some(1), &mut index, true).unwrap();
    assert_eq!(rows.len(), 1);
    assert_eq!(rows[0].len(), 2);
    assert!(matches!(rows[0][0], DecodedData::I32(7)));
    assert!(matches!(rows[0][1], DecodedData::Boolean(true)));
    assert_eq!(index, 5);

    let mut index = 0;
    let r = Table::decode_table(&definition, truncated, Some(1), &mut index, false);
    assert_eq!(r.err(), Some(RLibError::TableFieldDecode(1, 3, FieldKind::StringU8)));
    assert_eq!(index, 0);
}

#[test]
fn table_round_trip_of_plain_fields() {
    let definition = five_fields();
    let mut bytes = five_field_row();
    bytes.extend_from_slice(&five_field_row());
    let mut index = 0;
    let rows = Table::decode_table(&definition, &bytes, Some(2), &mut index, false).unwrap();
    let mut out = vec![];
    Table::encode_table(&definition, &rows, false, &mut out).unwrap();
    assert_eq!(out, bytes);
}

#[test]
fn bit_field_is_taken_apart_lowest_bit_first() {
    let mut flags = field("flags", FieldType::I32);
    flags.is_bitwise = 4;
    let definition = Definition::new(1, vec![flags]);
    let bytes = 0b1010i32.to_le_bytes().to_vec();
    let mut index = 0;
    let rows = Table::decode_table(&definition, &bytes, Some(1), &mut index, false).unwrap();
    assert_eq!(rows[0].len(), 4);
    assert!(matches!(rows[0][0], DecodedData::Boolean(false)));
    assert!(matches!(rows[0][1], DecodedData::Boolean(true)));
    assert!(matches!(rows[0][2], DecodedData::Boolean(false)));
    assert!(matches!(rows[0][3], DecodedData::Boolean(true)));
}

#[test]
fn bit_field_round_trip_of_every_pattern() {
    let mut flags = field("flags", FieldType::I16);
    flags.is_bitwise = 5;
    let definition = Definition::new(1, vec![flags]);
    for pattern in 0..32i16 {
        let bytes = pattern.to_le_bytes().to_vec();
        let mut index = 0;
        let rows = Table::decode_table(&definition, &bytes, Some(1), &mut index, false).unwrap();
        let mut out = vec![];
        Table::encode_table(&definition, &rows, false, &mut out).unwrap();
        assert_eq!(out, bytes);
    }
}

#[test]
fn bit_field_of_full_width_keeps_negative_numbers() {
    let mut flags = field("flags", FieldType::I16);
    flags.is_bitwise = 16;
    let definition = Definition::new(1, vec![flags]);
    let bytes = (-12345i16).to_le_bytes().to_vec();
    let mut index = 0;
    let rows = Table::decode_table(&definition, &bytes, Some(1), &mut index, false).unwrap();
    let mut out = vec![];
    Table::encode_table(&definition, &rows, false, &mut out).unwrap();
    assert_eq!(out, bytes);
}

fn colour_definition() -> Definition {
    let mut r = field("colour_r", FieldType::I32);
    r.is_part_of_colour = Some(1);
    let mut g = field("colour_g", FieldType::I32);
    g.is_part_of_colour = Some(1);
    let mut b = field("colour_b", FieldType::I32);
    b.is_part_of_colour = Some(1);
    Definition::new(1, vec![r, g, b])
}

#[test]
fn colour_channels_merge_into_hex() {
    let definition = colour_definition();
    let mut bytes = vec![];
    bytes.extend_from_slice(&18i32.to_le_bytes());
    bytes.extend_from_slice(&52i32.to_le_bytes());
    bytes.extend_from_slice(&86i32.to_le_bytes());
    let mut index = 0;
    let rows = Table::decode_table(&definition, &bytes, Some(1), &mut index, false).unwrap();
    assert_eq!(rows[0].len(), 1);
    assert!(matches!(&rows[0][0], DecodedData::ColourRGB(s) if s == "123456"));
}

#[test]
fn colour_hex_splits_back_into_channels() {
    let definition = colour_definition();
    let rows = vec![vec![DecodedData::ColourRGB("123456".to_owned())]];
    let mut out = vec![];
    Table::encode_table(&definition, &rows, false, &mut out).unwrap();
    let mut expected = vec![];
    expected.extend_from_slice(&18i32.to_le_bytes());
    expected.extend_from_slice(&52i32.to_le_bytes());
    expected.extend_from_slice(&86i32.to_le_bytes());
    assert_eq!(out, expected);
}

#[test]
fn colour_channels_of_floats() {
    let mut r = field("tint_red", FieldType::F32);
    r.is_part_of_colour = Some(0);
    let mut g = field("tint_green", FieldType::F64);
    g.is_part_of_colour = Some(0);
    let mut b = field("tint_blue", FieldType::I16);
    b.is_part_of_colour = Some(0);
    let definition = Definition::new(1, vec![r, g, b]);
    let mut bytes = vec![];
    bytes.extend_from_slice(&255.0f32.to_le_bytes());
    bytes.extend_from_slice(&16.0f64.to_le_bytes());
    bytes.extend_from_slice(&1i16.to_le_bytes());
    let mut index = 0;
    let rows = Table::decode_table(&definition, &bytes, Some(1), &mut index, false).unwrap();
    assert!(matches!(&rows[0][0], DecodedData::ColourRGB(s) if s == "FF1001"));
    let mut out = vec![];
    Table::encode_table(&definition, &rows, false, &mut out).unwrap();
    assert_eq!(out, bytes);
}

#[test]
fn float_channel_conversion_matches_the_cast() {
    let samples = [
        0.0f32, -0.0, 0.4, 0.99, 1.0, 1.5, 2.0, 17.9, 127.0, 128.0, 200.7, 254.9, 255.0, 255.5,
        256.0, 1.0e9, -1.0, -300.0, f32::INFINITY, f32::NEG_INFINITY, f32::NAN, f32::MIN_POSITIVE,
    ];
    for x in samples {
        assert_eq!(f32_to_channel(x.to_bits()), x as u8, "{}", x);
        assert_eq!(f64_to_channel((x as f64).to_bits()), (x as f64) as u8, "{}", x);
    }
    for v in 0..=255u8 {
        assert_eq!(channel_to_f32(v), (v as f32).to_bits());
        assert_eq!(channel_to_f64(v), (v as f64).to_bits());
    }
}

#[test]
fn enum_values_become_names_and_back() {
    let mut kind = field("kind", FieldType::I32);
    kind.enum_values = vec![(0, "None".to_owned()), (1, "Some".to_owned())];
    let definition = Definition::new(1, vec![kind]);
    let mut bytes = vec![];
    bytes.extend_from_slice(&1i32.to_le_bytes());
    bytes.extend_from_slice(&5i32.to_le_bytes());
    let mut index = 0;
    let rows = Table::decode_table(&definition, &bytes, Some(2), &mut index, false).unwrap();
    assert!(matches!(&rows[0][0], DecodedData::StringU8(s) if s == "Some"));
    assert!(matches!(&rows[1][0], DecodedData::StringU8(s) if s == "5"));
    let mut out = vec![];
    Table::encode_table(&definition, &rows, false, &mut out).unwrap();
    assert_eq!(out, bytes);

    // The name is matched whatever the case of its letters.
    let rows = vec![vec![DecodedData::StringU8("sOME".to_owned())]];
    let mut out = vec![];
    Table::encode_table(&definition, &rows, false, &mut out).unwrap();
    assert_eq!(out, 1i32.to_le_bytes().to_vec());
}

#[test]
fn enum_falls_back_to_default_and_fails_without_one() {
    let mut kind = field("kind", FieldType::I16);
    kind.enum_values = vec![(0, "None".to_owned())];
    kind.default_value = Some("3".to_owned());
    let definition = Definition::new(1, vec![kind]);
    let rows = vec![vec![DecodedData::StringU8("unknown".to_owned())]];
    let mut out = vec![];
    Table::encode_table(&definition, &rows, false, &mut out).unwrap();
    assert_eq!(out, 3i16.to_le_bytes().to_vec());

    let mut kind = field("kind", FieldType::I16);
    kind.enum_values = vec![(0, "None".to_owned())];
    let definition = Definition::new(1, vec![kind]);
    let mut out = vec![];
    let r = Table::encode_table(&definition, &rows, false, &mut out);
    assert_eq!(r.err(), Some(RLibError::TableWrongFieldType(0, FieldKind::I16)));
    assert!(out.is_empty());
}

#[test]
fn wrong_cell_type_and_wrong_arity_are_refused() {
    let definition = Definition::new(1, vec![field("a", FieldType::I32)]);
    let mut out = vec![];
    let r = Table::encode_table(&definition, &vec![vec![DecodedData::Boolean(true)]], false, &mut out);
    assert_eq!(r.err(), Some(RLibError::TableWrongFieldType(0, FieldKind::I32)));
    let r = Table::encode_table(&definition, &vec![vec![]], false, &mut out);
    assert_eq!(r.err(), Some(RLibError::TableRowWrongFieldCount(1, 0)));
}

#[test]
fn texts_are_escaped_on_decode_and_restored_on_encode() {
    let definition = Definition::new(1, vec![field("t", FieldType::StringU16)]);
    let text = "a\tb\nc";
    let units: Vec<u16> = text.encode_utf16().collect();
    let mut bytes = (units.len() as u16).to_le_bytes().to_vec();
    for u in &units {
        bytes.extend_from_slice(&u.to_le_bytes());
    }
    let mut index = 0;
    let rows = Table::decode_table(&definition, &bytes, Some(1), &mut index, false).unwrap();
    assert!(matches!(&rows[0][0], DecodedData::StringU16(s) if s == "a\\\\tb\\\\nc"));
    let mut out = vec![];
    Table::encode_table(&definition, &rows, false, &mut out).unwrap();
    assert_eq!(out, bytes);
}

#[test]
fn nested_sequence_keeps_its_bytes() {
    let inner = Definition::new(1, vec![field("x", FieldType::I16)]);
    let definition = Definition::new(
        1,
        vec![field("items", FieldType::SequenceU32(Box::new(inner))), field("end", FieldType::Boolean)],
    );
    let mut bytes = vec![];
    bytes.extend_from_slice(&2u32.to_le_bytes());
    bytes.extend_from_slice(&10i16.to_le_bytes());
    bytes.extend_from_slice(&20i16.to_le_bytes());
    bytes.push(1);
    let mut index = 0;
    let rows = Table::decode_table(&definition, &bytes, Some(1), &mut index, false).unwrap();
    assert!(matches!(&rows[0][0], DecodedData::SequenceU32(blob) if blob == &bytes[..8]));
    assert!(matches!(rows[0][1], DecodedData::Boolean(true)));
    let mut out = vec![];
    Table::encode_table(&definition, &rows, false, &mut out).unwrap();
    assert_eq!(out, bytes);
}

#[test]
fn colour_group_without_channels_is_refused() {
    let mut a = field("tint_alpha", FieldType::I32);
    a.is_part_of_colour = Some(2);
    let definition = Definition::new(1, vec![a]);
    let bytes = 1i32.to_le_bytes().to_vec();
    let mut index = 0;
    let r = Table::decode_table(&definition, &bytes, Some(1), &mut index, false);
    assert_eq!(r.err(), Some(RLibError::DecodingCombinedColour));
}

#[test]
fn new_table_is_empty() {
    let table = Table::new(five_fields(), "units_tables");
    assert_eq!(table.table_name, "units_tables");
    assert!(table.entries.is_empty());
    assert_eq!(table.definition.fields.len(), 5);
}

#[test]
fn schema_gives_the_definition_of_a_version() {
    let schema = Schema {
        tables: vec![
            TableDefinitions {
                table_name: "units_tables".to_owned(),
                definitions: vec![Definition::new(3, vec![]), Definition::new(2, vec![field("a", FieldType::I32)])],
            },
            TableDefinitions { table_name: "land_units_tables".to_owned(), definitions: vec![] },
        ],
    };
    assert_eq!(schema.definition("units_tables", 2).unwrap().fields.len(), 1);
    assert_eq!(schema.definition("units_tables", 3).unwrap().fields.len(), 0);
    assert!(schema.definition("units_tables", 4).is_none());
    assert!(schema.definition("land_units_tables", 2).is_none());
    assert!(schema.definition("missing", 2).is_none());
}

#[test]
fn a_file_holds_a_table() {
    let definition = five_fields();
    let mut bytes = 2u32.to_le_bytes().to_vec();
    bytes.extend_from_slice(&five_field_row());
    bytes.extend_from_slice(&five_field_row());
    let mut file = RFile::new_from_vec("db/units_tables/data", bytes.clone());
    let rows = file.decode_table(&definition, false).unwrap();
    assert_eq!(rows.len(), 2);
    file.set_table(&definition, &rows[..1].iter().map(|_| decoded_row()).collect()).unwrap();
    assert_eq!(file.cached().unwrap().len(), 4 + five_field_row().len());
    let again = file.decode_table(&definition, false).unwrap();
    assert_eq!(again.len(), 1);

    // Bytes behind the last row are a fault.
    bytes.push(0);
    let file = RFile::new_from_vec("db/units_tables/data", bytes.clone());
    assert_eq!(
        file.decode_table(&definition, false).err(),
        Some(RLibError::DecodingMismatchSize(bytes.len() - 1, bytes.len()))
    );
    // A row that does not fit the definition leaves the file as it was.
    let mut file = RFile::new_from_vec("db/units_tables/data", vec![1, 2, 3]);
    assert!(file.set_table(&definition, &vec![vec![]]).is_err());
    assert_eq!(file.cached().unwrap(), &vec![1, 2, 3]);
}

fn decoded_row() -> Vec<DecodedData> {
    let definition = five_fields();
    let bytes = five_field_row();
    let mut index = 0;
    Table::decode_table(&definition, &bytes, Some(1), &mut index, false).unwrap().remove(0)
}

#[test]
fn new_rows_are_held_against_the_columns() {
    let mut table = Table::new(five_fields(), "units_tables");
    assert_eq!(table.get_entry_count(), 0);
    assert_eq!(table.get_column_position_by_name("c"), Some(2));
    assert_eq!(table.get_column_position_by_name("zz"), None);

    let good = vec![
        DecodedData::I32(1),
        DecodedData::Boolean(false),
        DecodedData::StringU8("x".to_owned()),
        DecodedData::I16(2),
        DecodedData::F32(0),
    ];
    let short = vec![DecodedData::I32(1), DecodedData::Boolean(false)];
    let wrong = vec![
        DecodedData::I32(1),
        DecodedData::Boolean(false),
        DecodedData::StringU8("x".to_owned()),
        DecodedData::I32(2),
        DecodedData::F32(0),
    ];
    assert_eq!(
        table.set_table_data(vec![short]),
        Err(RLibError::TableRowWrongFieldCount(5, 2))
    );
    assert_eq!(table.get_entry_count(), 0);
    assert_eq!(
        table.set_table_data(vec![wrong]),
        Err(RLibError::TableWrongFieldType(3, FieldKind::I16))
    );
    assert_eq!(table.get_entry_count(), 0);
    assert_eq!(table.set_table_data(vec![good]), Ok(()));
    assert_eq!(table.get_entry_count(), 1);
    assert!(DecodedData::I16(2).is_field_type_correct(FieldKind::I16));
    assert!(!DecodedData::I16(2).is_field_type_correct(FieldKind::OptionalI16));

    let mut bytes = vec![];
    assert_eq!(table.encode(&mut bytes), Ok(()));
    let mut index = 0;
    let rows =
        Table::decode_table(&table.definition, &bytes, Some(1), &mut index, false).unwrap();
    assert_eq!(rows.len(), 1);
    assert!(matches!(rows[0][3], DecodedData::I16(2)));
}

#[test]
fn sequence_that_ends_with_the_data_is_read() {
    let inner = Definition::new(1, vec![field("x", FieldType::I32)]);
    let items = field("items", FieldType::SequenceU32(Box::new(inner)));
    let bytes = vec![1, 0, 0, 0, 5, 0, 0, 0];
    let mut index = 0;
    let cell = Table::decode_field(&bytes, &items, &mut index, 0, 0).unwrap();
    assert!(matches!(&cell, DecodedData::SequenceU32(blob) if blob == &bytes));
    assert_eq!(index, 8);
}

#[test]
fn names_and_bit_widths_have_no_effect_on_fields_that_are_no_integers() {
    let mut named = field("kind", FieldType::StringU8);
    named.enum_values = vec![(1, "one".to_owned())];
    let mut wide = field("flags", FieldType::F32);
    wide.is_bitwise = 3;
    let definition = Definition::new(1, vec![named, wide, field("end", FieldType::Boolean)]);
    let mut bytes = vec![];
    bytes.extend_from_slice(&1u16.to_le_bytes());
    bytes.push(b'x');
    bytes.extend_from_slice(&2.5f32.to_le_bytes());
    bytes.push(0);
    let mut index = 0;
    let rows = Table::decode_table(&definition, &bytes, Some(1), &mut index, false).unwrap();
    assert_eq!(rows[0].len(), 3);
    assert!(matches!(&rows[0][0], DecodedData::StringU8(s) if s == "x"));
    assert!(matches!(rows[0][1], DecodedData::F32(bits) if f32::from_bits(bits) == 2.5));
    assert!(matches!(rows[0][2], DecodedData::Boolean(false)));
    let mut out = vec![];
    Table::encode_table(&definition, &rows, false, &mut out).unwrap();
    assert_eq!(out, bytes);
}

#[test]
fn table_of_a_file_that_is_compressed_or_encrypted() {
    let definition = Definition::new(1, vec![field("a", FieldType::I32)]);
    let mut bytes = vec![];
    bytes.extend_from_slice(&1u32.to_le_bytes());
    bytes.extend_from_slice(&9i32.to_le_bytes());

    let mut file = RFile::new_from_vec("db/units_tables/data", bytes.clone());
    let rows = file.decode_table(&definition, false).unwrap();
    assert!(matches!(rows[0][0], DecodedData::I32(9)));

    file.data = FileData::OnMemory { data: bytes.clone(), is_compressed: true, is_encrypted: None };
    assert_eq!(file.decode_table(&definition, false).err(), Some(RLibError::FileCompressionPending));

    file.data = FileData::OnMemory {
        data: decrypt_packed_file(&bytes),
        is_compressed: false,
        is_encrypted: Some(PFHVersion::PFH6),
    };
    let rows = file.decode_table(&definition, false).unwrap();
    assert_eq!(rows.len(), 1);
    assert!(matches!(rows[0][0], DecodedData::I32(9)));
}
