use msldecomp::bytes::{index_width, read_compressed_u32, u16_at, u32_at, variable_index, zigzag_decode};
use msldecomp::error::Error;
use msldecomp::packets::packet_prefix;
use msldecomp::render::{decimal, proto_type, sanitize_field, sanitize_ident};
use msldecomp::text::lower_first;
use msldecomp::wire::{decode_message, read_varint, WireValue};

#[test]
fn reads_little_endian() {
    let d = [0x01, 0x02, 0x03, 0x04, 0x05];
    assert_eq!(u16_at(&d, 0), Ok(0x0201));
    assert_eq!(u32_at(&d, 1), Ok(0x0504_0302));
    assert_eq!(u32_at(&d, 2), Err(Error::U32Truncated));
    assert_eq!(u16_at(&d, 4), Err(Error::U16Truncated));
}

#[test]
fn reads_variable_indices() {
    let d = [0xff, 0xff, 0x34, 0x12, 0xff, 0xff, 0xff, 0xff];
    assert_eq!(variable_index(&d, 0, 1), Ok(-1));
    assert_eq!(variable_index(&d, 0, 2), Ok(-1));
    assert_eq!(variable_index(&d, 2, 2), Ok(0x1234));
    assert_eq!(variable_index(&d, 4, 4), Ok(-1));
    assert_eq!(variable_index(&d, 2, 1), Ok(0x34));
    assert_eq!(variable_index(&d, 0, 3), Err(Error::UnsupportedIndexWidth(3)));
    assert_eq!(variable_index(&d, 8, 1), Err(Error::IndexTruncated));
    assert_eq!(index_width(255), 1);
    assert_eq!(index_width(256), 2);
    assert_eq!(index_width(65535), 2);
    assert_eq!(index_width(65536), 4);
}

#[test]
fn reads_compressed_integers() {
    assert_eq!(read_compressed_u32(&[0x05], 0), Ok((5, 1)));
    assert_eq!(read_compressed_u32(&[0x81, 0x02], 0), Ok((0x102, 2)));
    assert_eq!(read_compressed_u32(&[0xc1, 0x02, 0x03, 0x04], 0), Ok((0x0102_0304, 4)));
    assert_eq!(read_compressed_u32(&[0xf0, 0x78, 0x56, 0x34, 0x12], 0), Ok((0x1234_5678, 5)));
    assert_eq!(read_compressed_u32(&[0xfe], 0), Ok((u32::MAX - 1, 1)));
    assert_eq!(read_compressed_u32(&[0xff], 0), Ok((u32::MAX, 1)));
    assert_eq!(read_compressed_u32(&[0xe5], 0), Err(Error::CompressedPrefix(0xe5)));
    assert_eq!(read_compressed_u32(&[0x81], 0), Err(Error::CompressedTruncated));
    assert_eq!(read_compressed_u32(&[], 0), Err(Error::CompressedTruncated));
    assert_eq!(read_compressed_u32(&[0xf0, 1, 2], 0), Err(Error::U32Truncated));
}

#[test]
fn decodes_zigzag_defaults() {
    assert_eq!(zigzag_decode(0), 0);
    assert_eq!(zigzag_decode(2), 1);
    assert_eq!(zigzag_decode(100), 50);
    assert_eq!(zigzag_decode(1), -1);
    assert_eq!(zigzag_decode(5), -3);
    assert_eq!(zigzag_decode(u32::MAX), i32::MIN);
    assert_eq!(zigzag_decode(u32::MAX - 1), i32::MAX);
    assert_eq!(zigzag_decode(u32::MAX - 2), -i32::MAX);
}

#[test]
fn varint_edges() {
    let mut p = 0;
    assert_eq!(read_varint(&[0x7f], &mut p), Ok(127));
    let max = [0xff, 0xff, 0xff, 0xff, 0xff, 0xff, 0xff, 0xff, 0xff, 0x01];
    let mut p = 0;
    assert_eq!(read_varint(&max, &mut p), Ok(u64::MAX));
    assert_eq!(p, 10);
    let over = [0xff, 0xff, 0xff, 0xff, 0xff, 0xff, 0xff, 0xff, 0xff, 0x02];
    let mut p = 0;
    assert_eq!(read_varint(&over, &mut p), Err(Error::VarintOverflow));
    assert_eq!(p, 10);
    let mut p = 0;
    assert_eq!(read_varint(&[0x80, 0x80], &mut p), Err(Error::VarintTruncated));
    assert_eq!(p, 2);
    let mut p = 5;
    assert_eq!(read_varint(&[0x01], &mut p), Err(Error::VarintTruncated));
    assert_eq!(p, 5);
}

#[test]
fn decodes_fixed_widths() {
    let data = [0x09, 1, 2, 3, 4, 5, 6, 7, 8, 0x15, 0x78, 0x56, 0x34, 0x12];
    let fields = decode_message(&data, None).unwrap();
    assert!(matches!(fields[0].value, WireValue::Fixed64(0x0807_0605_0403_0201)));
    assert_eq!(fields[1].number, 2);
    assert!(matches!(fields[1].value, WireValue::Fixed32(0x1234_5678)));
}

#[test]
fn wire_errors() {
    assert_eq!(decode_message(&[0x09, 1, 2], None).unwrap_err(), Error::Fixed64Truncated(1));
    assert_eq!(decode_message(&[0x15, 1], None).unwrap_err(), Error::Fixed32Truncated(2));
    assert_eq!(decode_message(&[0x0a, 0x05, 1], None).unwrap_err(), Error::LengthDelimitedTruncated(1));
    assert_eq!(decode_message(&[0x0b], None).unwrap_err(), Error::GroupWireType(3));
    assert_eq!(decode_message(&[0x0c], None).unwrap_err(), Error::GroupWireType(4));
    assert_eq!(decode_message(&[0x0e], None).unwrap_err(), Error::InvalidWireType(6));
    assert_eq!(decode_message(&[0x07], None).unwrap_err(), Error::ZeroFieldNumber);
    // key 2^35: its field number cut to 32 bits is zero
    assert_eq!(decode_message(&[0x80, 0x80, 0x80, 0x80, 0x80, 0x01], None).unwrap_err(), Error::ZeroFieldNumber);
    assert_eq!(decode_message(&[0x08], None).unwrap_err(), Error::VarintTruncated);
}

#[test]
fn binary_payload_has_no_text() {
    let fields = decode_message(&[0x0a, 0x02, 0x00, 0xff], None).unwrap();
    match &fields[0].value {
        WireValue::LengthDelimited { len, utf8, hex } => {
            assert_eq!(*len, 2);
            assert_eq!(*utf8, None);
            assert_eq!(hex, "00ff");
        }
        other => panic!("unexpected {other:?}"),
    }
    let fields = decode_message(&[0x0a, 0x03, b'a', b'\n', b'b'], None).unwrap();
    assert!(matches!(&fields[0].value, WireValue::LengthDelimited { utf8: Some(t), .. } if t == "a\nb"));
    let fields = decode_message(&[0x0a, 0x01, 0x07], None).unwrap();
    assert!(matches!(&fields[0].value, WireValue::LengthDelimited { utf8: None, .. }));
    assert!(decode_message(&[], None).unwrap().is_empty());
}

#[test]
fn names_and_prefixes() {
    assert_eq!(lower_first("UserLogin"), "userLogin");
    assert_eq!(lower_first(""), "");
    assert_eq!(lower_first("FbJwtToken"), "fbJwtToken");
    assert_eq!(lower_first("uuid"), "uuid");
    assert_eq!(lower_first("A"), "a");
    assert_eq!(lower_first("_x"), "_x");
    assert_eq!(lower_first("Élan"), "élan");
    assert!(packet_prefix("ReqUserLogin", "Req"));
    assert!(!packet_prefix("Requester", "Req"));
    assert!(!packet_prefix("Req", "Req"));
    assert!(packet_prefix("MsgRspBattleEnd", "MsgRsp"));
}

#[test]
fn sanitizes_identifiers() {
    assert_eq!(sanitize_ident("Req.User-Login"), "Req_User_Login");
    assert_eq!(sanitize_ident("3d"), "_3d");
    assert_eq!(sanitize_field("platformUserId"), "platform_user_id");
    assert_eq!(sanitize_field("URL"), "u_r_l");
    assert_eq!(sanitize_field("void"), "void");
}

#[test]
fn maps_proto_types() {
    assert_eq!(proto_type(Some("System.String"), Some(1)), ("string", String::new()));
    assert_eq!(proto_type(Some("System.Double"), None), ("double", String::new()));
    assert_eq!(proto_type(Some("BattleType"), Some(31944)), ("bytes", " // IL2CPP direct type: BattleType".to_string()));
    assert_eq!(proto_type(None, Some(25460)), ("bytes", " // unresolved TypeIndex 25460".to_string()));
    assert_eq!(proto_type(None, Some(-1)), ("bytes", " // unresolved TypeIndex -1".to_string()));
    assert_eq!(proto_type(None, None), ("bytes", String::new()));
}

#[test]
fn formats_decimals() {
    assert_eq!(decimal(0), "0");
    assert_eq!(decimal(3004), "3004");
    assert_eq!(decimal(-42), "-42");
    assert_eq!(decimal(i64::MIN), "-9223372036854775808");
}
