use msldecomp::error::Error;
use msldecomp::metadata::{divides_by_zero_type_count, MetadataV39, HEADER_ENTRIES};
use msldecomp::packets::{envelope_entries, PacketCatalog};
use msldecomp::render::{proto_skeleton, report};

/// Builds a small metadata v39 file: a string table, field records, type records and
/// field defaults, with every other section empty.
pub struct Builder {
    strings: Vec<u8>,
    fields: Vec<u8>,
    field_count: u32,
    types: Vec<u8>,
    type_count: u32,
    defaults: Vec<u8>,
    default_count: u32,
    default_data: Vec<u8>,
}

impl Builder {
    pub fn new() -> Self {
        Builder {
            strings: vec![0],
            fields: Vec::new(),
            field_count: 0,
            types: Vec::new(),
            type_count: 0,
            defaults: Vec::new(),
            default_count: 0,
            default_data: Vec::new(),
        }
    }

    fn string(&mut self, s: &str) -> u32 {
        if s.is_empty() {
            return 0;
        }
        let at = self.strings.len() as u32;
        self.strings.extend_from_slice(s.as_bytes());
        self.strings.push(0);
        at
    }

    /// Adds a field and returns its index.
    pub fn field(&mut self, name: &str, type_index: u32) -> u32 {
        let n = self.string(name);
        self.fields.extend_from_slice(&n.to_le_bytes());
        self.fields.extend_from_slice(&type_index.to_le_bytes());
        self.fields.extend_from_slice(&0x0400_0000u32.to_le_bytes());
        self.field_count += 1;
        self.field_count - 1
    }

    /// Gives a field a constant, written compressed after zig-zag encoding.
    pub fn default_value(&mut self, field: u32, value: i32) {
        let encoded: u32 = if value >= 0 { (value as u32) * 2 } else { ((-(value + 1)) as u32) * 2 + 1 };
        let at = self.default_data.len() as i32;
        if encoded < 0x80 {
            self.default_data.push(encoded as u8);
        } else {
            self.default_data.push(0x80 | (encoded >> 8) as u8);
            self.default_data.push(encoded as u8);
        }
        self.defaults.extend_from_slice(&(field as i32).to_le_bytes());
        self.defaults.extend_from_slice(&0i32.to_le_bytes());
        self.defaults.extend_from_slice(&at.to_le_bytes());
        self.default_count += 1;
    }

    pub fn type_def(&mut self, name: &str, namespace: &str, byval: u32, field_start: i32, field_count: u16) {
        let n = self.string(name);
        let ns = self.string(namespace);
        let t = &mut self.types;
        t.extend_from_slice(&n.to_le_bytes());
        t.extend_from_slice(&ns.to_le_bytes());
        t.extend_from_slice(&byval.to_le_bytes());
        t.extend_from_slice(&u32::MAX.to_le_bytes());
        t.extend_from_slice(&u32::MAX.to_le_bytes());
        t.push(0xff);
        t.extend_from_slice(&0u32.to_le_bytes());
        t.extend_from_slice(&field_start.to_le_bytes());
        t.extend_from_slice(&7i32.to_le_bytes());
        t.extend_from_slice(&[0u8; 24]);
        t.extend_from_slice(&3u16.to_le_bytes());
        t.extend_from_slice(&0u16.to_le_bytes());
        t.extend_from_slice(&field_count.to_le_bytes());
        t.extend_from_slice(&[0u8; 10]);
        t.extend_from_slice(&0u32.to_le_bytes());
        t.extend_from_slice(&(0x0200_0000u32 + self.type_count).to_le_bytes());
        self.type_count += 1;
    }

    pub fn build(&self) -> Vec<u8> {
        let mut out = vec![0u8; 380];
        out[0..4].copy_from_slice(&0xFAB1_1BAFu32.to_le_bytes());
        out[4..8].copy_from_slice(&39u32.to_le_bytes());
        let mut put = |out: &mut Vec<u8>, index: usize, bytes: &[u8], count: u32| {
            let offset = out.len() as u32;
            out.extend_from_slice(bytes);
            let p = 8 + index * 12;
            out[p..p + 4].copy_from_slice(&offset.to_le_bytes());
            out[p + 4..p + 8].copy_from_slice(&(bytes.len() as u32).to_le_bytes());
            out[p + 8..p + 12].copy_from_slice(&count.to_le_bytes());
        };
        put(&mut out, 2, &self.strings, 0);
        put(&mut out, 11, &self.fields, self.field_count);
        put(&mut out, 19, &self.types, self.type_count);
        put(&mut out, 7, &self.defaults, self.default_count);
        put(&mut out, 8, &self.default_data, 0);
        out
    }
}

/// A metadata file with a `Request`/`Response` envelope and two packets.
pub fn sample() -> Vec<u8> {
    let mut b = Builder::new();
    // Request envelope: fields 0..4
    let f = b.field("UserLoginFieldNumber", 0);
    b.default_value(f, 50);
    b.field("userLogin_", 101);
    let f = b.field("SequenceFieldNumber", 0);
    b.default_value(f, 2);
    b.field("sequence_", 201);
    // ReqUserLogin: fields 4..8
    let f = b.field("UuidFieldNumber", 0);
    b.default_value(f, 1);
    b.field("uuid_", 201);
    let f = b.field("PlatformTypeFieldNumber", 0);
    b.default_value(f, 3);
    b.field("platformType_", 999);
    // RspUserLogin: fields 8..10
    let f = b.field("ResultFieldNumber", 0);
    b.default_value(f, 1);
    b.field("<Result>k__BackingField", 201);
    // Response envelope: fields 10..12
    let f = b.field("UserLoginFieldNumber", 0);
    b.default_value(f, 50);
    b.field("userLogin_", 102);
    b.type_def("Request", "", 90, 0, 4);
    b.type_def("ReqUserLogin", "", 100, 4, 4);
    b.type_def("String", "System", 200, -1, 0);
    b.type_def("RspUserLogin", "", 101, 8, 2);
    b.type_def("Response", "", 91, 10, 2);
    b.type_def("Requester", "", 300, -1, 0);
    b.build()
}

#[test]
fn parses_sample_metadata() {
    let m = MetadataV39::parse(sample()).unwrap();
    assert_eq!(m.version(), 39);
    assert_eq!(m.fields.len(), 12);
    assert_eq!(m.types.len(), 6);
    assert_eq!(m.type_index_width, 4);
    assert_eq!(m.generic_container_index_width, 1);
    assert_eq!(m.fields[5].name, "uuid_");
    assert_eq!(m.fields[5].type_index, 201);
    assert_eq!(m.types[2].namespace, "System");
    assert_eq!(m.types[1].field_start, 4);
    assert_eq!(m.types[1].field_count, 4);
    assert_eq!(m.types[1].method_start, 7);
    assert_eq!(m.types[1].method_count, 3);
    assert_eq!(m.types[0].byval_type_index, 90);
    assert_eq!(m.types[2].token, 0x0200_0002);
    assert_eq!(m.field_defaults.get(&0), Some(&50));
    assert_eq!(m.field_defaults.get(&4), Some(&1));
    assert_eq!(m.resolve_direct_type(201), Some("System.String"));
    assert_eq!(m.resolve_direct_type(101), Some("ReqUserLogin"));
    assert_eq!(m.resolve_direct_type(200), None);
    let summary = m.summary();
    assert_eq!(summary.version, 39);
    assert_eq!(summary.sections.len(), 31);
    assert_eq!(summary.sections[19].count, 6);
    assert_eq!(summary.sections[11].count, 12);
}

#[test]
fn rejects_bad_headers() {
    assert_eq!(MetadataV39::parse(vec![0; 10]).unwrap_err(), Error::HeaderTruncated);
    let mut data = sample();
    data[0] = 0;
    assert!(matches!(MetadataV39::parse(data).unwrap_err(), Error::BadMagic(_)));
    let mut data = sample();
    data[4] = 24;
    assert_eq!(MetadataV39::parse(data).unwrap_err(), Error::UnsupportedVersion(24));
    let mut data = sample();
    // the string section now claims to run past the end of the data
    data[8 + 2 * 12 + 4..8 + 2 * 12 + 8].copy_from_slice(&0x00ff_ffffu32.to_le_bytes());
    assert_eq!(MetadataV39::parse(data).unwrap_err(), Error::SectionPastEof(2));
}

#[test]
fn rejects_empty_field_table() {
    let mut b = Builder::new();
    b.type_def("A", "", 1, -1, 0);
    assert_eq!(MetadataV39::parse(b.build()).unwrap_err(), Error::NoFields);
}

#[test]
fn recovers_packet_catalog() {
    let m = MetadataV39::parse(sample()).unwrap();
    let c = PacketCatalog::from_metadata(&m).unwrap();
    let names: Vec<&str> = c.packets.iter().map(|p| p.name.as_str()).collect();
    assert_eq!(names, vec!["ReqUserLogin", "RspUserLogin"]);
    let req = &c.packets[0];
    assert_eq!(req.direction, "request");
    assert_eq!(req.type_definition_index, 1);
    assert_eq!(req.fields.len(), 2);
    assert_eq!(req.fields[0].name, "uuid");
    assert_eq!(req.fields[0].number, 1);
    assert_eq!(req.fields[0].constant_field, "UuidFieldNumber");
    assert_eq!(req.fields[0].backing_field.as_deref(), Some("uuid_"));
    assert_eq!(req.fields[0].type_index, Some(201));
    assert_eq!(req.fields[0].resolved_type.as_deref(), Some("System.String"));
    assert_eq!(req.fields[1].name, "platformType");
    assert_eq!(req.fields[1].number, 3);
    assert_eq!(req.fields[1].resolved_type, None);
    let rsp = &c.packets[1];
    assert_eq!(rsp.direction, "response");
    assert_eq!(rsp.fields[0].name, "result");
    assert_eq!(rsp.fields[0].backing_field.as_deref(), Some("<Result>k__BackingField"));
    assert_eq!(c.request_envelope.len(), 1);
    assert_eq!(c.request_envelope[0].tag, 50);
    assert_eq!(c.request_envelope[0].field_name, "userLogin");
    assert_eq!(c.request_envelope[0].payload_type.as_deref(), Some("ReqUserLogin"));
    assert_eq!(c.response_envelope[0].payload_type.as_deref(), Some("RspUserLogin"));
}

#[test]
fn envelope_skips_header_tags() {
    let m = MetadataV39::parse(sample()).unwrap();
    let entries = envelope_entries(&m, "Request").unwrap();
    assert!(entries.iter().all(|e| e.tag >= 50));
    assert!(envelope_entries(&m, "Missing").unwrap().is_empty());
}

#[test]
fn field_name_map_by_number() {
    let m = MetadataV39::parse(sample()).unwrap();
    let c = PacketCatalog::from_metadata(&m).unwrap();
    let map = c.field_name_map("ReqUserLogin").unwrap();
    assert_eq!(map.len(), 2);
    assert_eq!(map.get(&1).map(String::as_str), Some("uuid"));
    assert_eq!(map.get(&3).map(String::as_str), Some("platformType"));
    assert!(matches!(c.field_name_map("Nope"), Err(Error::PacketNotFound(p)) if p == "Nope"));
}

#[test]
fn writes_proto_skeleton() {
    let m = MetadataV39::parse(sample()).unwrap();
    let c = PacketCatalog::from_metadata(&m).unwrap();
    let proto = proto_skeleton(&c);
    assert!(proto.starts_with("syntax = \"proto3\";\npackage msl.recovered;\n"));
    assert!(proto.contains(
        "message ReqUserLogin {\n  string uuid = 1;\n  bytes platform_type = 3; // unresolved TypeIndex 999\n}\n\n"
    ));
    assert!(proto.contains("message RspUserLogin {\n  string result = 1;\n}\n\n"));
}

#[test]
fn writes_report() {
    let m = MetadataV39::parse(sample()).unwrap();
    let c = PacketCatalog::from_metadata(&m).unwrap();
    let text = report(m.summary(), &c, Some("6000.3.12f1"));
    assert!(text.starts_with("# Monster Super League IL2CPP / packet report\n\n- Unity: `6000.3.12f1`\n"));
    assert!(text.contains("- IL2CPP metadata version: `39`\n"));
    assert!(text.contains("- Type definitions: `6`\n"));
    assert!(text.contains("- Fields: `12`\n"));
    assert!(text.contains("- Request-like protobuf types: `1`\n"));
    assert!(text.contains("- Response-like protobuf types: `1`\n"));
    assert!(text.contains("| 50 | `ReqUserLogin` | `RspUserLogin` |\n"));
    assert!(!text.contains("| 60 |"));
    assert!(text.contains("## `ReqUserLogin`\n\n| # | field | resolved type | TypeIndex |\n|---:|---|---|---:|\n| 1 | `uuid` | `System.String` | 201 |\n| 3 | `platformType` | `` | 999 |\n\n"));
}

#[test]
fn spots_an_empty_type_table() {
    let mut b = Builder::new();
    b.field("x", 0);
    assert!(divides_by_zero_type_count(&b.build()));
    assert!(!divides_by_zero_type_count(&sample()));
    assert!(!divides_by_zero_type_count(&vec![0u8; 10]));
    let empty = Builder::new().build();
    assert!(!divides_by_zero_type_count(&empty));
    assert_eq!(MetadataV39::parse(empty).unwrap_err(), Error::NoFields);
}

#[test]
fn looks_up_sections_by_name() {
    let m = MetadataV39::parse(sample()).unwrap();
    let s = m.summary();
    assert_eq!(s.section("typeDefinitions"), Some(s.sections[19]));
    assert_eq!(s.section("typeDefinitions").unwrap().count, 6);
    assert_eq!(s.section("fields").unwrap().count, 12);
    assert_eq!(s.section("stringLiteral"), Some(s.sections[0]));
    assert_eq!(s.section("exportedTypeDefinitions"), Some(s.sections[30]));
    assert_eq!(s.section("nope"), None);
    assert_eq!(HEADER_ENTRIES.len(), 31);
}

#[test]
fn last_usable_default_wins() {
    let mut b = Builder::new();
    let f = b.field("AFieldNumber", 0);
    b.default_value(f, 5);
    b.default_value(f, 9);
    let g = b.field("BFieldNumber", 0);
    b.default_value(g, -3);
    b.default_value(7, 1);
    b.type_def("T", "", 1, 0, 2);
    let m = MetadataV39::parse(b.build()).unwrap();
    assert_eq!(m.field_defaults.get(&0), Some(&9));
    assert_eq!(m.field_defaults.get(&1), Some(&-3));
    assert_eq!(m.field_defaults.get(&7), None);
    assert_eq!(m.field_defaults.len(), 2);
}
