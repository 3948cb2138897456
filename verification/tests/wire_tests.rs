use std::collections::HashMap;

use msldecomp::error::Error;
use msldecomp::payload::parse_hex_payload;
use msldecomp::wire::{decode_message, read_varint, WireValue};

#[test]
fn decodes_string_and_varint_fields() {
    let data = parse_hex_payload("0a05616c6963651001").unwrap();
    let fields = decode_message(&data, None).unwrap();
    assert_eq!(fields.len(), 2);
    assert_eq!(fields[0].number, 1);
    assert_eq!(fields[0].wire_type, 2);
    match &fields[0].value {
        WireValue::LengthDelimited { len, utf8, hex } => {
            assert_eq!(*len, 5);
            assert_eq!(utf8.as_deref(), Some("alice"));
            assert_eq!(hex, "616c696365");
        }
        other => panic!("unexpected value {other:?}"),
    }
    assert_eq!(fields[1].number, 2);
    assert_eq!(fields[1].wire_type, 0);
    assert!(matches!(fields[1].value, WireValue::Varint(1)));
}

#[test]
fn names_fields_from_map() {
    let mut names = HashMap::new();
    names.insert(1u32, "uuid".to_string());
    let data = [0x0a, 0x01, 0x41, 0x10, 0x07];
    let fields = decode_message(&data, Some(&names)).unwrap();
    assert_eq!(fields[0].name.as_deref(), Some("uuid"));
    assert_eq!(fields[1].name, None);
}

#[test]
fn reads_multibyte_varint() {
    let data = [0xac, 0x02];
    let mut p = 0usize;
    assert_eq!(read_varint(&data, &mut p), Ok(300));
    assert_eq!(p, 2);
}

#[test]
fn rejects_zero_key() {
    assert_eq!(decode_message(&[0x00], None).unwrap_err(), Error::ZeroKey);
}

#[test]
fn names_change_only_names() {
    let mut names = HashMap::new();
    names.insert(2u32, "count".to_string());
    let data = [0x0a, 0x02, 0x68, 0x69, 0x10, 0x07, 0x1d, 1, 2, 3, 4];
    let plain = decode_message(&data, None).unwrap();
    let named = decode_message(&data, Some(&names)).unwrap();
    assert_eq!(plain.len(), named.len());
    for (a, b) in plain.iter().zip(named.iter()) {
        assert_eq!(a.name, None);
        assert_eq!(b.name, names.get(&a.number).cloned());
        assert_eq!((a.number, a.wire_type), (b.number, b.wire_type));
        assert_eq!(format!("{:?}", a.value), format!("{:?}", b.value));
    }
    let bad = [0x0a, 0x05, 0x68];
    assert_eq!(decode_message(&bad, None).unwrap_err(), decode_message(&bad, Some(&names)).unwrap_err());
}
