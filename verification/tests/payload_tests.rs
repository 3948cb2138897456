use msldecomp::error::Error;
use msldecomp::payload::parse_hex_payload;
use msldecomp::wire::{decode_message, WireValue};

#[test]
fn reads_plain_hex() {
    assert_eq!(parse_hex_payload("08960108"), Ok(vec![0x08, 0x96, 0x01, 0x08]));
    assert_eq!(parse_hex_payload("DEADbeef"), Ok(vec![0xde, 0xad, 0xbe, 0xef]));
    assert_eq!(parse_hex_payload(""), Ok(vec![]));
}

#[test]
fn drops_prefix_and_separators() {
    assert_eq!(parse_hex_payload("  0x08 96:01-08\n"), Ok(vec![0x08, 0x96, 0x01, 0x08]));
    assert_eq!(parse_hex_payload("0x0x0a"), Ok(vec![0x0a]));
    assert_eq!(parse_hex_payload("\u{3000}0a\u{a0}0b"), Ok(vec![0x0a, 0x0b]));
}

#[test]
fn refuses_bad_hex() {
    assert_eq!(parse_hex_payload("123"), Err(Error::InvalidHex));
    assert_eq!(parse_hex_payload("zz"), Err(Error::InvalidHex));
    assert_eq!(parse_hex_payload("0g"), Err(Error::InvalidHex));
    assert_eq!(parse_hex_payload("é1"), Err(Error::InvalidHex));
    assert_eq!(parse_hex_payload("x0a"), Err(Error::InvalidHex));
}

#[test]
fn shown_hex_reads_back() {
    let payload = [0x12, 0x03, 0x00, 0xff, 0x7f];
    let fields = decode_message(&payload, None).unwrap();
    match &fields[0].value {
        WireValue::LengthDelimited { hex, .. } => {
            assert_eq!(hex, "00ff7f");
            assert_eq!(parse_hex_payload(hex), Ok(vec![0x00, 0xff, 0x7f]));
        }
        other => panic!("unexpected value {other:?}"),
    }
}

#[test]
fn separators_are_exactly_unicode_white_space() {
    for n in 0u32..0x1_0000 {
        let Some(c) = char::from_u32(n) else { continue };
        let text = format!("0a{c}0b");
        let expected = if c.is_whitespace() || c == ':' || c == '-' {
            Ok(vec![0x0a, 0x0b])
        } else {
            Err(Error::InvalidHex)
        };
        if c.is_ascii_hexdigit() {
            continue;
        }
        assert_eq!(parse_hex_payload(&text), expected, "U+{n:04X}");
    }
}
