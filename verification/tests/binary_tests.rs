use rpfm_lib::binary::{
    read_bool, read_i16, read_i32, read_i64, read_optional_i32, read_optional_string_u8,
    read_sized_string_u16, read_sized_string_u8, read_slice, read_string_colour_rgb,
    read_string_u8_0padded, read_string_u8_0terminated, read_u16, read_u32, read_u64, read_u8,
    write_bool, write_i16, write_i32, write_i64, write_optional_i16, write_optional_string_u16,
    write_optional_string_u8, write_sized_string_u16, write_sized_string_u8,
    write_string_colour_rgb, write_string_u8_0padded, write_string_u8_0terminated, write_u16,
    write_u32, write_u64,
};
use rpfm_lib::error::RLibError;
use rpfm_lib::text::{
    decimal_to_i64, decimal_to_u32, decode_utf16, encode_utf16, escape_special_chars, hex_to_u32,
    i64_to_decimal, push_hex, replace_char, unescape_special_chars,
};

#[test]
fn integers_are_little_endian() {
    let data = [0x01, 0x02, 0x03, 0x04, 0x05, 0x06, 0x07, 0x08];
    let mut index = 0;
    assert_eq!(read_u16(&data, &mut index), Ok(0x0201));
    assert_eq!(index, 2);
    let mut index = 0;
    assert_eq!(read_u32(&data, &mut index), Ok(0x04030201));
    let mut index = 0;
    assert_eq!(read_u64(&data, &mut index), Ok(0x0807060504030201));
    assert_eq!(index, 8);
    let mut index = 3;
    assert_eq!(read_u8(&data, &mut index), Ok(4));
}

#[test]
fn signed_integers_are_twos_complement() {
    let mut index = 0;
    assert_eq!(read_i16(&[0xFF, 0xFF], &mut index), Ok(-1));
    let mut index = 0;
    assert_eq!(read_i16(&[0x00, 0x80], &mut index), Ok(i16::MIN));
    let mut index = 0;
    assert_eq!(read_i32(&[0xFE, 0xFF, 0xFF, 0xFF], &mut index), Ok(-2));
    let mut index = 0;
    assert_eq!(read_i64(&[0, 0, 0, 0, 0, 0, 0, 0x80], &mut index), Ok(i64::MIN));
    let mut out = vec![];
    write_i16(&mut out, -2);
    write_i32(&mut out, i32::MIN);
    write_i64(&mut out, -1);
    assert_eq!(out, [0xFE, 0xFF, 0, 0, 0, 0x80, 0xFF, 0xFF, 0xFF, 0xFF, 0xFF, 0xFF, 0xFF, 0xFF]);
}

#[test]
fn reading_beyond_the_end_fails_and_keeps_the_cursor() {
    let mut index = 1;
    assert_eq!(read_u32(&[1, 2, 3, 4], &mut index), Err(RLibError::DecodingNotEnoughBytes));
    assert_eq!(index, 1);
    let mut index = 9;
    assert_eq!(read_u8(&[1], &mut index), Err(RLibError::DecodingNotEnoughBytes));
    let mut index = 0;
    assert_eq!(read_slice(&[1, 2], &mut index, 3), Err(RLibError::DecodingNotEnoughBytes));
    let mut index = 1;
    assert_eq!(read_slice(&[1, 2, 3], &mut index, 2), Ok(vec![2, 3]));
    assert_eq!(index, 3);
}

#[test]
fn booleans_are_zero_or_one() {
    let mut index = 0;
    assert_eq!(read_bool(&[0], &mut index), Ok(false));
    let mut index = 0;
    assert_eq!(read_bool(&[1], &mut index), Ok(true));
    let mut index = 0;
    assert_eq!(read_bool(&[4], &mut index), Err(RLibError::DecodingBoolError(4)));
    assert_eq!(index, 0);
    let mut out = vec![];
    write_bool(&mut out, true);
    write_bool(&mut out, false);
    assert_eq!(out, [1, 0]);
}

#[test]
fn writers_and_readers_agree() {
    let mut out = vec![];
    write_u16(&mut out, 0xBEEF);
    write_u32(&mut out, 0xDEADBEEF);
    write_u64(&mut out, 0x0123456789ABCDEF);
    let mut index = 0;
    assert_eq!(read_u16(&out, &mut index), Ok(0xBEEF));
    assert_eq!(read_u32(&out, &mut index), Ok(0xDEADBEEF));
    assert_eq!(read_u64(&out, &mut index), Ok(0x0123456789ABCDEF));
    assert_eq!(index, out.len());
}

#[test]
fn sized_strings() {
    let mut out = vec![];
    write_sized_string_u8(&mut out, "héllo").unwrap();
    assert_eq!(out, [6, 0, b'h', 0xC3, 0xA9, b'l', b'l', b'o']);
    let mut index = 0;
    assert_eq!(read_sized_string_u8(&out, &mut index), Ok("héllo".to_owned()));
    assert_eq!(index, 8);

    let mut out = vec![];
    write_sized_string_u16(&mut out, "a€𝄞").unwrap();
    assert_eq!(out, [4, 0, 0x61, 0, 0xAC, 0x20, 0x34, 0xD8, 0x1E, 0xDD]);
    let mut index = 0;
    assert_eq!(read_sized_string_u16(&out, &mut index), Ok("a€𝄞".to_owned()));
    assert_eq!(index, 10);
}

#[test]
fn broken_texts_are_refused() {
    let mut index = 0;
    assert_eq!(
        read_sized_string_u8(&[2, 0, 0xC3, 0x28], &mut index),
        Err(RLibError::DecodingStringU8Error)
    );
    assert_eq!(index, 0);
    // A surrogate that stands alone.
    let mut index = 0;
    assert_eq!(
        read_sized_string_u16(&[1, 0, 0x34, 0xD8], &mut index),
        Err(RLibError::DecodingStringU16Error)
    );
    let mut index = 0;
    assert_eq!(
        read_sized_string_u8(&[5, 0, b'a'], &mut index),
        Err(RLibError::DecodingNotEnoughBytes)
    );
    assert_eq!(decode_utf16(&[0xDC00]), None);
    assert_eq!(decode_utf16(&[0xD834, 0xDD1E]), Some("𝄞".to_owned()));
    assert_eq!(encode_utf16("𝄞"), vec![0xD834, 0xDD1E]);
}

#[test]
fn too_long_text_is_refused() {
    let long = "x".repeat(0x10000);
    let mut out = vec![7];
    assert_eq!(
        write_sized_string_u8(&mut out, &long),
        Err(RLibError::EncodingStringTooLong(0x10000))
    );
    assert_eq!(out, [7]);
    assert_eq!(
        write_string_u8_0padded(&mut out, "toolongname", 8),
        Err(RLibError::EncodingStringTooLong(11))
    );
}

#[test]
fn terminated_and_padded_strings() {
    let data = b"abc\0def\0";
    let mut index = 0;
    assert_eq!(read_string_u8_0terminated(data, &mut index), Ok("abc".to_owned()));
    assert_eq!(index, 4);
    assert_eq!(read_string_u8_0terminated(data, &mut index), Ok("def".to_owned()));
    assert_eq!(index, 8);
    assert_eq!(
        read_string_u8_0terminated(b"abc", &mut 0),
        Err(RLibError::DecodingNotEnoughBytes)
    );
    let mut index = 0;
    assert_eq!(read_string_u8_0padded(b"RPFM\0\0\0\0rest", &mut index, 8), Ok("RPFM".to_owned()));
    assert_eq!(index, 8);
    let mut out = vec![];
    write_string_u8_0terminated(&mut out, "ab");
    write_string_u8_0padded(&mut out, "RPFM", 8).unwrap();
    assert_eq!(out, b"ab\0RPFM\0\0\0\0");
}

#[test]
fn optional_values() {
    let mut out = vec![];
    write_optional_string_u8(&mut out, "").unwrap();
    write_optional_string_u8(&mut out, "a").unwrap();
    write_optional_string_u16(&mut out, "b").unwrap();
    write_optional_i16(&mut out, 5);
    assert_eq!(out, [0, 1, 1, 0, b'a', 1, 1, 0, b'b', 0, 1, 5, 0]);
    let mut index = 0;
    assert_eq!(read_optional_string_u8(&out, &mut index), Ok(String::new()));
    assert_eq!(read_optional_string_u8(&out, &mut index), Ok("a".to_owned()));
    assert_eq!(index, 5);
    let mut index = 0;
    assert_eq!(read_optional_i32(&[0, 9, 0, 0, 0], &mut index), Ok(9));
    assert_eq!(index, 5);
}

#[test]
fn colours_are_hexadecimal() {
    let mut index = 0;
    assert_eq!(read_string_colour_rgb(&[0x56, 0x34, 0x12, 0], &mut index), Ok("123456".to_owned()));
    let mut index = 0;
    assert_eq!(read_string_colour_rgb(&[0x0A, 0, 0, 0], &mut index), Ok("00000A".to_owned()));
    let mut index = 0;
    assert_eq!(
        read_string_colour_rgb(&[0x78, 0x56, 0x34, 0x12], &mut index),
        Ok("12345678".to_owned())
    );
    let mut out = vec![];
    write_string_colour_rgb(&mut out, "00ff0A").unwrap();
    assert_eq!(out, [0x0A, 0xFF, 0, 0]);
    assert_eq!(write_string_colour_rgb(&mut out, "xyz"), Err(RLibError::DecodingNumberError));
    assert_eq!(hex_to_u32("FFFFFFFF"), Some(u32::MAX));
    assert_eq!(hex_to_u32("100000000"), None);
    assert_eq!(hex_to_u32(""), None);
    let mut chars = vec![];
    push_hex(&mut chars, 0xAB, 2);
    push_hex(&mut chars, 5, 2);
    assert_eq!(chars, vec!['A', 'B', '0', '5']);
}

#[test]
fn decimal_numbers() {
    assert_eq!(i64_to_decimal(0), "0");
    assert_eq!(i64_to_decimal(-120), "-120");
    assert_eq!(i64_to_decimal(i64::MIN), i64::MIN.to_string());
    assert_eq!(i64_to_decimal(i64::MAX), i64::MAX.to_string());
    assert_eq!(decimal_to_i64("+42"), Some(42));
    assert_eq!(decimal_to_i64("-0"), Some(0));
    assert_eq!(decimal_to_i64("007"), Some(7));
    assert_eq!(decimal_to_i64("-9223372036854775808"), Some(i64::MIN));
    assert_eq!(decimal_to_i64("9223372036854775808"), None);
    assert_eq!(decimal_to_i64("99999999999999999999999"), None);
    assert_eq!(decimal_to_i64(""), None);
    assert_eq!(decimal_to_i64("-"), None);
    assert_eq!(decimal_to_i64("1a"), None);
    assert_eq!(decimal_to_u32("4294967295"), Some(u32::MAX));
    assert_eq!(decimal_to_u32("4294967296"), None);
    assert_eq!(decimal_to_u32("-0"), None);
    for s in ["12", "+12", "-12", "x", "", "-", "0000"] {
        assert_eq!(decimal_to_i64(s), s.parse::<i64>().ok(), "{}", s);
        assert_eq!(decimal_to_u32(s), s.parse::<u32>().ok(), "{}", s);
    }
}

#[test]
fn escapes() {
    assert_eq!(escape_special_chars("a\nb\tc"), "a\\\\nb\\\\tc");
    assert_eq!(unescape_special_chars("a\\\\nb\\\\tc"), "a\nb\tc");
    assert_eq!(unescape_special_chars("\\\\\\n"), "\\\n");
    assert_eq!(unescape_special_chars(&escape_special_chars("\\\n\\\t")), "\\\n\\\t");
    assert_eq!(replace_char("a\\b\\c", '\\', '/'), "a/b/c");
}
