//! A self-contained reader for Unity IL2CPP `global-metadata.dat`, version 39.
use std::collections::HashMap;
use vstd::prelude::*;
use crate::bytes::{
    compressed_u32_spec, i32_at, index_width, index_width_spec, le16, le32, read_compressed_u32,
    u16_at, u32_at, variable_index, variable_index_spec, zigzag_decode, zigzag_spec,
};
use crate::error::Error;
use crate::text::{append_chars, chars_of, lossy_utf8, utf8_lossy};

verus! {

broadcast use vstd::std_specs::hash::group_hash_axioms;

/// The magic number that opens every `global-metadata.dat`.
pub const MAGIC: u32 = 0xFAB1_1BAF;

/// The number of sections that the v39 header lists.
pub const HEADER_ENTRY_COUNT: usize = 31;

/// The names of the header entries, in header order.
pub const HEADER_ENTRIES: [&'static str; 31] = [
    "stringLiteral", "stringLiteralData", "string", "events", "properties", "methods",
    "parameterDefaultValues", "fieldDefaultValues", "fieldAndParameterDefaultValueData",
    "fieldMarshaledSizes", "parameters", "fields", "genericParameters",
    "genericParameterConstraints", "genericContainers", "nestedTypes", "interfaces",
    "vtableMethods", "interfaceOffsets", "typeDefinitions", "images", "assemblies",
    "fieldRefs", "referencedAssemblies", "attributeData", "attributeDataRange",
    "unresolvedVirtualCallParameterTypes", "unresolvedVirtualCallParameterRanges",
    "windowsRuntimeTypeNames", "windowsRuntimeStrings", "exportedTypeDefinitions",
];

/// The name of header entry `i`.
pub open spec fn header_entry_name(i: int) -> Seq<char> {
    HEADER_ENTRIES@[i]@
}

/// The first header position from `i` on whose entry is named `name`.
pub open spec fn header_index_from(name: Seq<char>, i: nat) -> Option<nat>
    decreases 31 - i,
{
    if i >= 31 {
        None
    } else if header_entry_name(i as int) == name {
        Some(i)
    } else {
        header_index_from(name, i + 1)
    }
}

/// The header position of the entry named `name`, when there is one.
pub open spec fn header_index(name: Seq<char>) -> Option<nat> {
    header_index_from(name, 0)
}

/// The sections that the reader uses stand in the header at their named positions.
pub proof fn law_header_positions()
    ensures
        header_entry_name(SEC_STRING as int) == "string"@,
        header_entry_name(SEC_METHODS as int) == "methods"@,
        header_entry_name(SEC_FIELD_DEFAULTS as int) == "fieldDefaultValues"@,
        header_entry_name(SEC_DEFAULT_DATA as int) == "fieldAndParameterDefaultValueData"@,
        header_entry_name(SEC_PARAMETERS as int) == "parameters"@,
        header_entry_name(SEC_FIELDS as int) == "fields"@,
        header_entry_name(SEC_GENERIC_CONTAINERS as int) == "genericContainers"@,
        header_entry_name(SEC_TYPES as int) == "typeDefinitions"@,
        header_index("methods"@) == Some(SEC_METHODS as nat),
        header_index("fields"@) == Some(SEC_FIELDS as nat),
        header_index("typeDefinitions"@) == Some(SEC_TYPES as nat),
{
    reveal_strlit("stringLiteral");
    reveal_strlit("stringLiteralData");
    reveal_strlit("string");
    reveal_strlit("events");
    reveal_strlit("properties");
    reveal_strlit("methods");
    reveal_strlit("parameterDefaultValues");
    reveal_strlit("fieldDefaultValues");
    reveal_strlit("fieldAndParameterDefaultValueData");
    reveal_strlit("fieldMarshaledSizes");
    reveal_strlit("parameters");
    reveal_strlit("fields");
    reveal_strlit("genericParameters");
    reveal_strlit("genericParameterConstraints");
    reveal_strlit("genericContainers");
    reveal_strlit("nestedTypes");
    reveal_strlit("interfaces");
    reveal_strlit("vtableMethods");
    reveal_strlit("interfaceOffsets");
    reveal_strlit("typeDefinitions");
    assert(header_index_from("methods"@, 5) == Some(5nat));
    assert(header_entry_name(4) == "properties"@ && "properties"@.len() == 10 && "methods"@.len() == 7);
    assert(header_index_from("methods"@, 4) == Some(5nat));
    assert(header_entry_name(3) == "events"@ && "events"@.len() == 6 && "methods"@.len() == 7);
    assert(header_index_from("methods"@, 3) == Some(5nat));
    assert(header_entry_name(2) == "string"@ && "string"@.len() == 6 && "methods"@.len() == 7);
    assert(header_index_from("methods"@, 2) == Some(5nat));
    assert(header_entry_name(1) == "stringLiteralData"@ && "stringLiteralData"@.len() == 17 && "methods"@.len() == 7);
    assert(header_index_from("methods"@, 1) == Some(5nat));
    assert(header_entry_name(0) == "stringLiteral"@ && "stringLiteral"@.len() == 13 && "methods"@.len() == 7);
    assert(header_index_from("methods"@, 0) == Some(5nat));
    assert(header_index_from("fields"@, 11) == Some(11nat));
    assert(header_entry_name(10) == "parameters"@ && "parameters"@.len() == 10 && "fields"@.len() == 6);
    assert(header_index_from("fields"@, 10) == Some(11nat));
    assert(header_entry_name(9) == "fieldMarshaledSizes"@ && "fieldMarshaledSizes"@.len() == 19 && "fields"@.len() == 6);
    assert(header_index_from("fields"@, 9) == Some(11nat));
    assert(header_entry_name(8) == "fieldAndParameterDefaultValueData"@ && "fieldAndParameterDefaultValueData"@.len() == 33 && "fields"@.len() == 6);
    assert(header_index_from("fields"@, 8) == Some(11nat));
    assert(header_entry_name(7) == "fieldDefaultValues"@ && "fieldDefaultValues"@.len() == 18 && "fields"@.len() == 6);
    assert(header_index_from("fields"@, 7) == Some(11nat));
    assert(header_entry_name(6) == "parameterDefaultValues"@ && "parameterDefaultValues"@.len() == 22 && "fields"@.len() == 6);
    assert(header_index_from("fields"@, 6) == Some(11nat));
    assert(header_entry_name(5) == "methods"@ && "methods"@.len() == 7 && "fields"@.len() == 6);
    assert(header_index_from("fields"@, 5) == Some(11nat));
    assert(header_entry_name(4) == "properties"@ && "properties"@.len() == 10 && "fields"@.len() == 6);
    assert(header_index_from("fields"@, 4) == Some(11nat));
    assert(header_entry_name(3) == "events"@ && "events"@.len() == 6 && "fields"@.len() == 6);
    assert("events"@[0] != "fields"@[0]);
    assert(header_index_from("fields"@, 3) == Some(11nat));
    assert(header_entry_name(2) == "string"@ && "string"@.len() == 6 && "fields"@.len() == 6);
    assert("string"@[0] != "fields"@[0]);
    assert(header_index_from("fields"@, 2) == Some(11nat));
    assert(header_entry_name(1) == "stringLiteralData"@ && "stringLiteralData"@.len() == 17 && "fields"@.len() == 6);
    assert(header_index_from("fields"@, 1) == Some(11nat));
    assert(header_entry_name(0) == "stringLiteral"@ && "stringLiteral"@.len() == 13 && "fields"@.len() == 6);
    assert(header_index_from("fields"@, 0) == Some(11nat));
    assert(header_index_from("typeDefinitions"@, 19) == Some(19nat));
    assert(header_entry_name(18) == "interfaceOffsets"@ && "interfaceOffsets"@.len() == 16 && "typeDefinitions"@.len() == 15);
    assert(header_index_from("typeDefinitions"@, 18) == Some(19nat));
    assert(header_entry_name(17) == "vtableMethods"@ && "vtableMethods"@.len() == 13 && "typeDefinitions"@.len() == 15);
    assert(header_index_from("typeDefinitions"@, 17) == Some(19nat));
    assert(header_entry_name(16) == "interfaces"@ && "interfaces"@.len() == 10 && "typeDefinitions"@.len() == 15);
    assert(header_index_from("typeDefinitions"@, 16) == Some(19nat));
    assert(header_entry_name(15) == "nestedTypes"@ && "nestedTypes"@.len() == 11 && "typeDefinitions"@.len() == 15);
    assert(header_index_from("typeDefinitions"@, 15) == Some(19nat));
    assert(header_entry_name(14) == "genericContainers"@ && "genericContainers"@.len() == 17 && "typeDefinitions"@.len() == 15);
    assert(header_index_from("typeDefinitions"@, 14) == Some(19nat));
    assert(header_entry_name(13) == "genericParameterConstraints"@ && "genericParameterConstraints"@.len() == 27 && "typeDefinitions"@.len() == 15);
    assert(header_index_from("typeDefinitions"@, 13) == Some(19nat));
    assert(header_entry_name(12) == "genericParameters"@ && "genericParameters"@.len() == 17 && "typeDefinitions"@.len() == 15);
    assert(header_index_from("typeDefinitions"@, 12) == Some(19nat));
    assert(header_entry_name(11) == "fields"@ && "fields"@.len() == 6 && "typeDefinitions"@.len() == 15);
    assert(header_index_from("typeDefinitions"@, 11) == Some(19nat));
    assert(header_entry_name(10) == "parameters"@ && "parameters"@.len() == 10 && "typeDefinitions"@.len() == 15);
    assert(header_index_from("typeDefinitions"@, 10) == Some(19nat));
    assert(header_entry_name(9) == "fieldMarshaledSizes"@ && "fieldMarshaledSizes"@.len() == 19 && "typeDefinitions"@.len() == 15);
    assert(header_index_from("typeDefinitions"@, 9) == Some(19nat));
    assert(header_entry_name(8) == "fieldAndParameterDefaultValueData"@ && "fieldAndParameterDefaultValueData"@.len() == 33 && "typeDefinitions"@.len() == 15);
    assert(header_index_from("typeDefinitions"@, 8) == Some(19nat));
    assert(header_entry_name(7) == "fieldDefaultValues"@ && "fieldDefaultValues"@.len() == 18 && "typeDefinitions"@.len() == 15);
    assert(header_index_from("typeDefinitions"@, 7) == Some(19nat));
    assert(header_entry_name(6) == "parameterDefaultValues"@ && "parameterDefaultValues"@.len() == 22 && "typeDefinitions"@.len() == 15);
    assert(header_index_from("typeDefinitions"@, 6) == Some(19nat));
    assert(header_entry_name(5) == "methods"@ && "methods"@.len() == 7 && "typeDefinitions"@.len() == 15);
    assert(header_index_from("typeDefinitions"@, 5) == Some(19nat));
    assert(header_entry_name(4) == "properties"@ && "properties"@.len() == 10 && "typeDefinitions"@.len() == 15);
    assert(header_index_from("typeDefinitions"@, 4) == Some(19nat));
    assert(header_entry_name(3) == "events"@ && "events"@.len() == 6 && "typeDefinitions"@.len() == 15);
    assert(header_index_from("typeDefinitions"@, 3) == Some(19nat));
    assert(header_entry_name(2) == "string"@ && "string"@.len() == 6 && "typeDefinitions"@.len() == 15);
    assert(header_index_from("typeDefinitions"@, 2) == Some(19nat));
    assert(header_entry_name(1) == "stringLiteralData"@ && "stringLiteralData"@.len() == 17 && "typeDefinitions"@.len() == 15);
    assert(header_index_from("typeDefinitions"@, 1) == Some(19nat));
    assert(header_entry_name(0) == "stringLiteral"@ && "stringLiteral"@.len() == 13 && "typeDefinitions"@.len() == 15);
    assert(header_index_from("typeDefinitions"@, 0) == Some(19nat));
}

/// Header positions of the sections that the reader uses.
pub const SEC_STRING: usize = 2;
pub const SEC_METHODS: usize = 5;
pub const SEC_FIELD_DEFAULTS: usize = 7;
pub const SEC_DEFAULT_DATA: usize = 8;
pub const SEC_PARAMETERS: usize = 10;
pub const SEC_FIELDS: usize = 11;
pub const SEC_GENERIC_CONTAINERS: usize = 14;
pub const SEC_TYPES: usize = 19;

/// One header entry: where a section starts, how many bytes and records it has.
#[derive(Clone, Copy, Debug, PartialEq, Eq, Structural)]
pub struct Section {
    pub offset: u32,
    pub size: u32,
    pub count: u32,
}

/// One field definition.
#[derive(Debug, Clone)]
pub struct FieldDef {
    pub index: usize,
    pub name: String,
    pub type_index: i32,
    pub token: u32,
}

/// One type definition.
#[derive(Debug, Clone)]
pub struct TypeDef {
    pub index: usize,
    pub name: String,
    pub namespace: String,
    pub byval_type_index: i32,
    pub field_start: i32,
    pub method_start: i32,
    pub method_count: u16,
    pub field_count: u16,
    pub token: u32,
}

/// A field definition with its name as characters.
pub ghost struct FieldDefModel {
    pub index: usize,
    pub name: Seq<char>,
    pub type_index: i32,
    pub token: u32,
}

/// A type definition with its names as characters.
pub ghost struct TypeDefModel {
    pub index: usize,
    pub name: Seq<char>,
    pub namespace: Seq<char>,
    pub byval_type_index: i32,
    pub field_start: i32,
    pub method_start: i32,
    pub method_count: u16,
    pub field_count: u16,
    pub token: u32,
}

impl View for FieldDef {
    type V = FieldDefModel;

    open spec fn view(&self) -> FieldDefModel {
        FieldDefModel {
            index: self.index,
            name: self.name@,
            type_index: self.type_index,
            token: self.token,
        }
    }
}

impl View for TypeDef {
    type V = TypeDefModel;

    open spec fn view(&self) -> TypeDefModel {
        TypeDefModel {
            index: self.index,
            name: self.name@,
            namespace: self.namespace@,
            byval_type_index: self.byval_type_index,
            field_start: self.field_start,
            method_start: self.method_start,
            method_count: self.method_count,
            field_count: self.field_count,
            token: self.token,
        }
    }
}

/// The header entry at position `i`.
pub open spec fn section_at(data: Seq<u8>, i: int) -> Section {
    Section {
        offset: le32(data, 8 + 12 * i) as u32,
        size: le32(data, 8 + 12 * i + 4) as u32,
        count: le32(data, 8 + 12 * i + 8) as u32,
    }
}

/// The first header entry from position `i` on whose section runs past the data.
pub open spec fn first_section_past_eof(data: Seq<u8>, i: nat) -> Option<nat>
    decreases 31 - i,
{
    if i >= 31 {
        None
    } else if section_at(data, i as int).offset + section_at(data, i as int).size > data.len() {
        Some(i)
    } else {
        first_section_past_eof(data, i + 1)
    }
}

/// The position of the first zero byte of `bytes`, or its length when it has none.
pub open spec fn first_zero(bytes: Seq<u8>) -> nat
    decreases bytes.len(),
{
    if bytes.len() == 0 {
        0
    } else if bytes[0] == 0 {
        0
    } else {
        1 + first_zero(bytes.drop_first())
    }
}

/// The zero-terminated string at `index` in the string section `s`.
pub open spec fn string_in(data: Seq<u8>, s: Section, index: u32) -> Result<Seq<char>, Error> {
    if index == 0 {
        Ok(Seq::empty())
    } else {
        let start = s.offset + index;
        let end = s.offset + s.size;
        if !(start < end && end <= data.len()) {
            Err(Error::StringIndexOutOfRange(index))
        } else {
            let region = data.subrange(start, end);
            Ok(lossy_utf8(region.take(first_zero(region) as int)))
        }
    }
}

/// The metadata string at `index`.
pub open spec fn string_at(data: Seq<u8>, index: u32) -> Result<Seq<char>, Error> {
    string_in(data, section_at(data, SEC_STRING as int), index)
}

/// The bytes per field record.
pub open spec fn field_record_size(data: Seq<u8>) -> int {
    section_at(data, SEC_FIELDS as int).size as int / section_at(data, SEC_FIELDS as int).count as int
}

/// The width of a `TypeIndex`.
pub open spec fn type_index_width(data: Seq<u8>) -> int {
    field_record_size(data) - 8
}

/// Where field record `i` starts.
pub open spec fn field_pos(data: Seq<u8>, i: int) -> int {
    section_at(data, SEC_FIELDS as int).offset + i * field_record_size(data)
}

/// The name of field `i`.
pub open spec fn field_name_at(data: Seq<u8>, i: int) -> Result<Seq<char>, Error> {
    string_at(data, le32(data, field_pos(data, i)) as u32)
}

/// Field record `i`.
pub open spec fn field_model(data: Seq<u8>, i: int) -> FieldDefModel {
    let p = field_pos(data, i);
    let tw = type_index_width(data);
    FieldDefModel {
        index: i as usize,
        name: match field_name_at(data, i) {
            Ok(n) => n,
            Err(_) => Seq::empty(),
        },
        type_index: match variable_index_spec(data, p + 4, tw as usize) {
            Ok(v) => v,
            Err(_) => 0,
        },
        token: le32(data, p + 4 + tw) as u32,
    }
}

/// The first error among the names of the first `n` field records.
pub open spec fn fields_error(data: Seq<u8>, n: nat) -> Option<Error>
    decreases n,
{
    if n == 0 {
        None
    } else {
        match fields_error(data, (n - 1) as nat) {
            Some(e) => Some(e),
            None => match field_name_at(data, n - 1) {
                Err(e) => Some(e),
                Ok(_) => None,
            },
        }
    }
}

/// All field records.
pub open spec fn fields_spec(data: Seq<u8>) -> Seq<FieldDefModel> {
    Seq::new(section_at(data, SEC_FIELDS as int).count as nat, |i: int| field_model(data, i))
}

/// The width of an index into the generic containers.
pub open spec fn generic_container_width(data: Seq<u8>) -> int {
    index_width_spec(section_at(data, SEC_GENERIC_CONTAINERS as int).count) as int
}

/// The bytes per type record.
pub open spec fn type_record_size(data: Seq<u8>) -> int {
    section_at(data, SEC_TYPES as int).size as int / section_at(data, SEC_TYPES as int).count as int
}

/// The type record size that the index widths give.
pub open spec fn expected_type_record_size(data: Seq<u8>) -> int {
    8 + type_index_width(data) * 3 + generic_container_width(data) + 4 + 32 + 16 + 8
}

/// Where type record `i` starts.
pub open spec fn type_pos(data: Seq<u8>, i: int) -> int {
    section_at(data, SEC_TYPES as int).offset + i * type_record_size(data)
}

/// Where the field start of type record `i` is.
pub open spec fn type_field_start_pos(data: Seq<u8>, i: int) -> int {
    type_pos(data, i) + 8 + 3 * type_index_width(data) + generic_container_width(data) + 4
}

/// The name of type `i`.
pub open spec fn type_name_at(data: Seq<u8>, i: int) -> Result<Seq<char>, Error> {
    string_at(data, le32(data, type_pos(data, i)) as u32)
}

/// The namespace of type `i`.
pub open spec fn type_namespace_at(data: Seq<u8>, i: int) -> Result<Seq<char>, Error> {
    string_at(data, le32(data, type_pos(data, i) + 4) as u32)
}

/// The by-value `TypeIndex` of type `i`.
pub open spec fn type_byval_at(data: Seq<u8>, i: int) -> i32 {
    match variable_index_spec(data, type_pos(data, i) + 8, type_index_width(data) as usize) {
        Ok(v) => v,
        Err(_) => 0,
    }
}

/// Type record `i`.
pub open spec fn type_model(data: Seq<u8>, i: int) -> TypeDefModel {
    let q = type_field_start_pos(data, i);
    TypeDefModel {
        index: i as usize,
        name: match type_name_at(data, i) {
            Ok(n) => n,
            Err(_) => Seq::empty(),
        },
        namespace: match type_namespace_at(data, i) {
            Ok(n) => n,
            Err(_) => Seq::empty(),
        },
        byval_type_index: type_byval_at(data, i),
        field_start: (le32(data, q) as u32) as i32,
        method_start: (le32(data, q + 4) as u32) as i32,
        method_count: le16(data, q + 32) as u16,
        field_count: le16(data, q + 36) as u16,
        token: le32(data, q + 52) as u32,
    }
}

/// The first error among the names and namespaces of the first `n` type records.
pub open spec fn types_error(data: Seq<u8>, n: nat) -> Option<Error>
    decreases n,
{
    if n == 0 {
        None
    } else {
        match types_error(data, (n - 1) as nat) {
            Some(e) => Some(e),
            None => match type_name_at(data, n - 1) {
                Err(e) => Some(e),
                Ok(_) => match type_namespace_at(data, n - 1) {
                    Err(e) => Some(e),
                    Ok(_) => None,
                },
            },
        }
    }
}

/// All type records.
pub open spec fn types_spec(data: Seq<u8>) -> Seq<TypeDefModel> {
    Seq::new(section_at(data, SEC_TYPES as int).count as nat, |i: int| type_model(data, i))
}

/// The name of a type qualified by its namespace.
pub open spec fn full_name(namespace: Seq<char>, name: Seq<char>) -> Seq<char> {
    if namespace.len() == 0 {
        name
    } else {
        namespace + seq!['.'] + name
    }
}

/// `v + 1`, saturating at `i32::MAX`.
pub open spec fn saturating_inc(v: i32) -> i32 {
    if v == i32::MAX {
        v
    } else {
        (v + 1) as i32
    }
}

/// The direct type names that the first `n` type records register: each type's
/// qualified name under its by-value `TypeIndex` plus one, later types winning.
pub open spec fn direct_names_upto(types: Seq<TypeDefModel>, n: nat) -> Map<i32, Seq<char>>
    decreases n,
{
    if n == 0 {
        Map::empty()
    } else {
        let t = types[n - 1];
        direct_names_upto(types, (n - 1) as nat).insert(
            saturating_inc(t.byval_type_index),
            full_name(t.namespace, t.name),
        )
    }
}

/// Whether the field-default section has records of a size other than twelve bytes.
pub open spec fn defaults_error(data: Seq<u8>) -> Option<Error> {
    let d = section_at(data, SEC_FIELD_DEFAULTS as int);
    if d.count != 0 && d.size as int / d.count as int != 12 {
        Some(Error::FieldDefaultRecordSize)
    } else {
        None
    }
}

/// Field-default record `i`: the field it belongs to and its decoded value, when
/// the record is usable.
pub open spec fn default_entry(data: Seq<u8>, i: int) -> Option<(usize, i32)> {
    let d = section_at(data, SEC_FIELD_DEFAULTS as int);
    let v = section_at(data, SEC_DEFAULT_DATA as int);
    let p = d.offset + i * 12;
    let field_index = (le32(data, p) as u32) as i32;
    let data_index = (le32(data, p + 8) as u32) as i32;
    let field_count = section_at(data, SEC_FIELDS as int).count;
    if field_index < 0 || field_index >= field_count || data_index < 0 {
        None
    } else {
        let value_pos = v.offset + data_index;
        if value_pos >= v.offset + v.size {
            None
        } else {
            match compressed_u32_spec(data, value_pos) {
                Ok((encoded, _)) => Some((field_index as usize, zigzag_spec(encoded))),
                Err(_) => None,
            }
        }
    }
}

/// The field defaults that the first `n` records give, later records winning.
pub open spec fn defaults_upto(data: Seq<u8>, n: nat) -> Map<usize, i32>
    decreases n,
{
    if n == 0 {
        Map::empty()
    } else {
        match default_entry(data, n - 1) {
            Some((k, v)) => defaults_upto(data, (n - 1) as nat).insert(k, v),
            None => defaults_upto(data, (n - 1) as nat),
        }
    }
}

/// The field defaults: field index to the decoded constant.
pub open spec fn defaults_spec(data: Seq<u8>) -> Map<usize, i32> {
    defaults_upto(data, section_at(data, SEC_FIELD_DEFAULTS as int).count as nat)
}

/// Whether reading gets as far as the type records: every check up to and
/// including the field names passes.
pub open spec fn reaches_type_records(data: Seq<u8>) -> bool {
    &&& data.len() >= 380
    &&& le32(data, 0) == MAGIC
    &&& le32(data, 4) == 39
    &&& first_section_past_eof(data, 0) is None
    &&& section_at(data, SEC_FIELDS as int).count != 0
    &&& field_record_size(data) >= 8
    &&& (type_index_width(data) == 2 || type_index_width(data) == 4)
    &&& fields_error(data, section_at(data, SEC_FIELDS as int).count as nat) is None
}

/// The error that reading `data` ends in, or `None` when it succeeds.
pub open spec fn parse_error(data: Seq<u8>) -> Option<Error> {
    if data.len() < 380 {
        Some(Error::HeaderTruncated)
    } else if le32(data, 0) != MAGIC {
        Some(Error::BadMagic(le32(data, 0) as u32))
    } else if le32(data, 4) != 39 {
        Some(Error::UnsupportedVersion(le32(data, 4) as u32))
    } else if first_section_past_eof(data, 0) is Some {
        Some(Error::SectionPastEof(first_section_past_eof(data, 0)->Some_0 as usize))
    } else if section_at(data, SEC_FIELDS as int).count == 0 {
        Some(Error::NoFields)
    } else if field_record_size(data) < 8 {
        Some(Error::FieldRecordSize(field_record_size(data) as usize))
    } else if type_index_width(data) != 2 && type_index_width(data) != 4 {
        Some(Error::TypeIndexWidth(type_index_width(data) as usize))
    } else if fields_error(data, section_at(data, SEC_FIELDS as int).count as nat) is Some {
        fields_error(data, section_at(data, SEC_FIELDS as int).count as nat)
    } else if type_record_size(data) != expected_type_record_size(data) {
        Some(
            Error::TypeRecordSize {
                found: type_record_size(data) as usize,
                expected: expected_type_record_size(data) as usize,
            },
        )
    } else if types_error(data, section_at(data, SEC_TYPES as int).count as nat) is Some {
        types_error(data, section_at(data, SEC_TYPES as int).count as nat)
    } else {
        defaults_error(data)
    }
}

/// Reads header entry `i`.
fn read_section(data: &[u8], i: usize) -> (s: Section)
    requires
        data.len() >= 380,
        i < 31,
    ensures
        s == section_at(data@, i as int),
{
    let p = 8 + 12 * i;
    let offset = match u32_at(data, p) {
        Ok(v) => v,
        Err(_) => 0,
    };
    let size = match u32_at(data, p + 4) {
        Ok(v) => v,
        Err(_) => 0,
    };
    let count = match u32_at(data, p + 8) {
        Ok(v) => v,
        Err(_) => 0,
    };
    Section { offset, size, count }
}

/// Checks that section `i` ends inside the data.
fn validate_section(data: &[u8], i: usize, section: Section) -> (r: Result<(), Error>)
    ensures
        r is Ok <==> section.offset + section.size <= data.len(),
        r is Err ==> r == Err::<(), Error>(Error::SectionPastEof(i)),
{
    let end: u64 = section.offset as u64 + section.size as u64;
    if end > data.len() as u64 {
        return Err(Error::SectionPastEof(i));
    }
    Ok(())
}

/// The first zero byte is at `m` when none comes before it and `m` is a zero or the end.
proof fn lemma_first_zero(bytes: Seq<u8>, m: int)
    requires
        0 <= m <= bytes.len(),
        forall|j: int| 0 <= j < m ==> bytes[j] != 0,
        m == bytes.len() || bytes[m] == 0,
    ensures
        first_zero(bytes) == m,
    decreases m,
{
    if m > 0 {
        let rest = bytes.drop_first();
        assert forall|j: int| 0 <= j < m - 1 implies rest[j] != 0 by {
            assert(rest[j] == bytes[j + 1]);
        }
        if m < bytes.len() {
            assert(rest[m - 1] == bytes[m]);
        }
        lemma_first_zero(rest, m - 1);
    }
}

/// Reads the zero-terminated metadata string at `index` of the string section `s`.
fn get_string(data: &[u8], s: Section, index: u32) -> (r: Result<String, Error>)
    ensures
        match string_in(data@, s, index) {
            Ok(t) => r matches Ok(v) && v@ == t,
            Err(e) => r == Err::<String, Error>(e),
        },
{
    if index == 0 {
        return Ok(String::new());
    }
    let start64: u64 = s.offset as u64 + index as u64;
    let end64: u64 = s.offset as u64 + s.size as u64;
    if !(start64 < end64 && end64 <= data.len() as u64) {
        return Err(Error::StringIndexOutOfRange(index));
    }
    let start = start64 as usize;
    let end = end64 as usize;
    let mut k: usize = start;
    while k < end && data[k] != 0
        invariant
            start <= k <= end <= data.len(),
            forall|j: int| start <= j < k ==> data@[j] != 0,
        decreases end - k,
    {
        k = k + 1;
    }
    proof {
        let region = data@.subrange(start as int, end as int);
        assert forall|j: int| 0 <= j < k - start implies region[j] != 0 by {
            assert(region[j] == data@[start + j]);
        }
        if k < end {
            assert(region[k - start] == data@[k as int]);
        }
        lemma_first_zero(region, k - start);
        assert(region.take(k - start) =~= data@.subrange(start as int, k as int));
    }
    Ok(utf8_lossy(&data[start..k]))
}

/// Record `i` of `count` equal records lies inside a section of `size` bytes.
proof fn lemma_record_in_section(size: int, count: int, i: int)
    requires
        0 <= i < count,
        0 <= size,
    ensures
        0 <= i * (size / count),
        i * (size / count) + size / count <= size,
{
    assert(0 <= size / count) by (nonlinear_arith) requires 0 <= size, 0 < count;
    assert(0 <= i * (size / count)) by (nonlinear_arith) requires 0 <= i, 0 <= size / count;
    assert((i + 1) * (size / count) <= count * (size / count)) by (nonlinear_arith)
        requires 0 <= i < count, 0 <= size / count;
    assert(count * (size / count) <= size) by (nonlinear_arith) requires 0 < count, 0 <= size;
    assert((i + 1) * (size / count) == i * (size / count) + size / count) by (nonlinear_arith);
}

/// Once reading field records stops at an error, later records do not change it.
proof fn lemma_fields_error_stable(data: Seq<u8>, n: nat, m: nat)
    requires
        n <= m,
        fields_error(data, n) is Some,
    ensures
        fields_error(data, m) == fields_error(data, n),
    decreases m,
{
    if m > n {
        lemma_fields_error_stable(data, n, (m - 1) as nat);
    }
}

/// Once reading type records stops at an error, later records do not change it.
proof fn lemma_types_error_stable(data: Seq<u8>, n: nat, m: nat)
    requires
        n <= m,
        types_error(data, n) is Some,
    ensures
        types_error(data, m) == types_error(data, n),
    decreases m,
{
    if m > n {
        lemma_types_error_stable(data, n, (m - 1) as nat);
    }
}

/// The views of field definitions.
pub open spec fn field_views(fields: Seq<FieldDef>) -> Seq<FieldDefModel> {
    fields.map_values(|f: FieldDef| f@)
}

/// The views of type definitions.
pub open spec fn type_views(types: Seq<TypeDef>) -> Seq<TypeDefModel> {
    types.map_values(|t: TypeDef| t@)
}

/// The header checks that come before the field records.
pub open spec fn header_ok(data: Seq<u8>) -> bool {
    &&& data.len() >= 380
    &&& le32(data, 0) == MAGIC
    &&& le32(data, 4) == 39
    &&& first_section_past_eof(data, 0) is None
    &&& section_at(data, SEC_FIELDS as int).count != 0
    &&& field_record_size(data) >= 8
    &&& (type_index_width(data) == 2 || type_index_width(data) == 4)
}

/// Every header entry from `i` on lies inside the data when none runs past its end.
proof fn lemma_sections_in_data(data: Seq<u8>, i: nat, k: int)
    requires
        first_section_past_eof(data, i) is None,
        i <= k < 31,
    ensures
        section_at(data, k).offset + section_at(data, k).size <= data.len(),
    decreases 31 - i,
{
    if i < k {
        lemma_sections_in_data(data, i + 1, k);
    }
}

/// Reads all field records.
#[verifier::rlimit(30)]
fn read_fields(data: &[u8], string_s: Section, fields_s: Section) -> (r: Result<
    Vec<FieldDef>,
    Error,
>)
    requires
        header_ok(data@),
        string_s == section_at(data@, SEC_STRING as int),
        fields_s == section_at(data@, SEC_FIELDS as int),
    ensures
        match fields_error(data@, fields_s.count as nat) {
            Some(e) => r == Err::<Vec<FieldDef>, Error>(e),
            None => r matches Ok(v) && field_views(v@) == fields_spec(data@),
        },
{
    proof {
        lemma_sections_in_data(data@, 0, SEC_FIELDS as int);
    }
    let count = fields_s.count as usize;
    let rs = (fields_s.size / fields_s.count) as usize;
    let tw = rs - 8;
    let mut fields: Vec<FieldDef> = Vec::new();
    let mut i: usize = 0;
    while i < count
        invariant
            header_ok(data@),
            string_s == section_at(data@, SEC_STRING as int),
            fields_s == section_at(data@, SEC_FIELDS as int),
            count == fields_s.count,
            rs == field_record_size(data@),
            tw == type_index_width(data@),
            fields_s.offset + fields_s.size <= data.len(),
            i <= count,
            fields_error(data@, i as nat) is None,
            field_views(fields@) == fields_spec(data@).take(i as int),
        decreases count - i,
    {
        proof {
            lemma_record_in_section(fields_s.size as int, fields_s.count as int, i as int);
        }
        let p = fields_s.offset as usize + i * rs;
        assert(p == field_pos(data@, i as int));
        let name_index = match u32_at(data, p) {
            Ok(v) => v,
            Err(e) => return Err(e),
        };
        let type_index = match variable_index(data, p + 4, tw) {
            Ok(v) => v,
            Err(e) => return Err(e),
        };
        let token = match u32_at(data, p + 4 + tw) {
            Ok(v) => v,
            Err(e) => return Err(e),
        };
        let name = match get_string(data, string_s, name_index) {
            Ok(n) => n,
            Err(e) => {
                proof {
                    assert(fields_error(data@, (i + 1) as nat) == Some(e));
                    lemma_fields_error_stable(data@, (i + 1) as nat, count as nat);
                }
                return Err(e);
            },
        };
        let f = FieldDef { index: i, name, type_index, token };
        proof {
            assert(f@ == field_model(data@, i as int));
            assert(field_views(fields@.push(f)) =~= field_views(fields@).push(f@));
            assert(fields_spec(data@).take(i + 1) =~= fields_spec(data@).take(i as int).push(
                field_model(data@, i as int),
            ));
        }
        fields.push(f);
        i = i + 1;
    }
    assert(fields_spec(data@).take(count as int) =~= fields_spec(data@));
    Ok(fields)
}

/// The name of a type qualified by its namespace, `namespace.name`.
fn qualified_name(namespace: &String, name: &String) -> (r: String)
    ensures
        r@ == full_name(namespace@, name@),
{
    if namespace.as_str().is_empty() {
        name.clone()
    } else {
        let mut s = namespace.clone();
        crate::text::push_char(&mut s, '.');
        let cs = chars_of(name.as_str());
        append_chars(&mut s, cs.as_slice());
        s
    }
}

/// The views of the direct type-name map.
pub open spec fn names_map_view(m: Map<i32, String>) -> Map<i32, Seq<char>> {
    m.map_values(|s: String| s@)
}

/// Whether the type records fit their section and their size is the expected one.
pub open spec fn types_layout_ok(data: Seq<u8>) -> bool {
    &&& header_ok(data)
    &&& section_at(data, SEC_TYPES as int).count != 0
    &&& type_record_size(data) == expected_type_record_size(data)
}

/// Reads all type records, and registers each type's qualified name under its
/// by-value `TypeIndex` plus one.
#[verifier::rlimit(30)]
fn read_types(data: &[u8], string_s: Section, type_s: Section, tw: usize, gw: usize) -> (r: Result<
    (Vec<TypeDef>, HashMap<i32, String>),
    Error,
>)
    requires
        types_layout_ok(data@),
        string_s == section_at(data@, SEC_STRING as int),
        type_s == section_at(data@, SEC_TYPES as int),
        tw == type_index_width(data@),
        gw == generic_container_width(data@),
    ensures
        match types_error(data@, type_s.count as nat) {
            Some(e) => r == Err::<(Vec<TypeDef>, HashMap<i32, String>), Error>(e),
            None => r matches Ok((v, m)) && type_views(v@) == types_spec(data@) && names_map_view(
                m@,
            ) == direct_names_upto(types_spec(data@), type_s.count as nat),
        },
{
    proof {
        lemma_sections_in_data(data@, 0, SEC_TYPES as int);
    }
    let count = type_s.count as usize;
    let rs = (type_s.size / type_s.count) as usize;
    let mut types: Vec<TypeDef> = Vec::new();
    let mut names: HashMap<i32, String> = HashMap::new();
    let mut i: usize = 0;
    while i < count
        invariant
            types_layout_ok(data@),
            string_s == section_at(data@, SEC_STRING as int),
            type_s == section_at(data@, SEC_TYPES as int),
            count == type_s.count,
            rs == type_record_size(data@),
            tw == type_index_width(data@),
            gw == generic_container_width(data@),
            type_s.offset + type_s.size <= data.len(),
            i <= count,
            types_error(data@, i as nat) is None,
            type_views(types@) == types_spec(data@).take(i as int),
            names_map_view(names@) == direct_names_upto(types_spec(data@), i as nat),
        decreases count - i,
    {
        proof {
            lemma_record_in_section(type_s.size as int, type_s.count as int, i as int);
        }
        let p = type_s.offset as usize + i * rs;
        assert(p == type_pos(data@, i as int));
        let name_index = match u32_at(data, p) {
            Ok(v) => v,
            Err(e) => return Err(e),
        };
        let namespace_index = match u32_at(data, p + 4) {
            Ok(v) => v,
            Err(e) => return Err(e),
        };
        let byval_type_index = match variable_index(data, p + 8, tw) {
            Ok(v) => v,
            Err(e) => return Err(e),
        };
        let q = p + 8 + tw + tw + tw + gw + 4;
        assert(q == type_field_start_pos(data@, i as int));
        let field_start = match i32_at(data, q) {
            Ok(v) => v,
            Err(e) => return Err(e),
        };
        let method_start = match i32_at(data, q + 4) {
            Ok(v) => v,
            Err(e) => return Err(e),
        };
        let method_count = match u16_at(data, q + 32) {
            Ok(v) => v,
            Err(e) => return Err(e),
        };
        let field_count = match u16_at(data, q + 36) {
            Ok(v) => v,
            Err(e) => return Err(e),
        };
        let token = match u32_at(data, q + 52) {
            Ok(v) => v,
            Err(e) => return Err(e),
        };
        let name = match get_string(data, string_s, name_index) {
            Ok(n) => n,
            Err(e) => {
                proof {
                    assert(types_error(data@, (i + 1) as nat) == Some(e));
                    lemma_types_error_stable(data@, (i + 1) as nat, count as nat);
                }
                return Err(e);
            },
        };
        let namespace = match get_string(data, string_s, namespace_index) {
            Ok(n) => n,
            Err(e) => {
                proof {
                    assert(types_error(data@, (i + 1) as nat) == Some(e));
                    lemma_types_error_stable(data@, (i + 1) as nat, count as nat);
                }
                return Err(e);
            },
        };
        let full = qualified_name(&namespace, &name);
        let key = if byval_type_index == i32::MAX {
            byval_type_index
        } else {
            byval_type_index + 1
        };
        let t = TypeDef {
            index: i,
            name,
            namespace,
            byval_type_index,
            field_start,
            method_start,
            method_count,
            field_count,
            token,
        };
        proof {
            assert(t@ == type_model(data@, i as int));
            assert(type_views(types@.push(t)) =~= type_views(types@).push(t@));
            assert(types_spec(data@).take(i + 1) =~= types_spec(data@).take(i as int).push(
                type_model(data@, i as int),
            ));
            assert(types_spec(data@)[i as int] == t@);
        }
        let ghost old_names = names@;
        names.insert(key, full);
        proof {
            assert(names_map_view(names@) =~= names_map_view(old_names).insert(key, full@));
        }
        types.push(t);
        i = i + 1;
    }
    assert(types_spec(data@).take(count as int) =~= types_spec(data@));
    Ok((types, names))
}

/// Reads the field-default records: each usable record maps a field index to its
/// constant, decoded from IL2CPP's compressed form and then zig-zag.
#[verifier::rlimit(30)]
fn parse_field_defaults(data: &[u8], defs: Section, values: Section, field_count: usize) -> (r:
    Result<HashMap<usize, i32>, Error>)
    requires
        header_ok(data@),
        defs == section_at(data@, SEC_FIELD_DEFAULTS as int),
        values == section_at(data@, SEC_DEFAULT_DATA as int),
        field_count == section_at(data@, SEC_FIELDS as int).count,
    ensures
        match defaults_error(data@) {
            Some(e) => r == Err::<HashMap<usize, i32>, Error>(e),
            None => r matches Ok(m) && m@ == defaults_spec(data@),
        },
{
    if defs.count == 0 {
        let m: HashMap<usize, i32> = HashMap::new();
        assert(m@ =~= defaults_spec(data@));
        return Ok(m);
    }
    if defs.size / defs.count != 12 {
        return Err(Error::FieldDefaultRecordSize);
    }
    proof {
        lemma_sections_in_data(data@, 0, SEC_FIELD_DEFAULTS as int);
        lemma_sections_in_data(data@, 0, SEC_DEFAULT_DATA as int);
    }
    let mut out: HashMap<usize, i32> = HashMap::new();
    let count = defs.count as usize;
    let mut i: usize = 0;
    while i < count
        invariant
            header_ok(data@),
            defs == section_at(data@, SEC_FIELD_DEFAULTS as int),
            values == section_at(data@, SEC_DEFAULT_DATA as int),
            field_count == section_at(data@, SEC_FIELDS as int).count,
            defs.count != 0,
            defs.size / defs.count == 12,
            count == defs.count,
            defs.offset + defs.size <= data.len(),
            values.offset + values.size <= data.len(),
            i <= count,
            out@ == defaults_upto(data@, i as nat),
        decreases count - i,
    {
        proof {
            lemma_record_in_section(defs.size as int, defs.count as int, i as int);
        }
        let p = defs.offset as usize + i * 12;
        let field_index = match i32_at(data, p) {
            Ok(v) => v,
            Err(e) => return Err(e),
        };
        let data_index = match i32_at(data, p + 8) {
            Ok(v) => v,
            Err(e) => return Err(e),
        };
        let ghost before = out@;
        if !(field_index < 0 || field_index as usize >= field_count || data_index < 0) {
            let value_pos: u64 = values.offset as u64 + data_index as u64;
            if value_pos < values.offset as u64 + values.size as u64 {
                match read_compressed_u32(data, value_pos as usize) {
                    Ok((encoded, _)) => {
                        let decoded = zigzag_decode(encoded);
                        out.insert(field_index as usize, decoded);
                    },
                    Err(_) => {},
                }
            }
        }
        proof {
            assert(out@ =~= match default_entry(data@, i as int) {
                Some((k, v)) => before.insert(k, v),
                None => before,
            });
        }
        i = i + 1;
    }
    Ok(out)
}

/// Every type registers its qualified name under its by-value `TypeIndex` plus one
/// (the adjacent by-ref slot); the name stays there unless a later type registers
/// under the same index.
pub proof fn law_direct_type_name(types: Seq<TypeDefModel>, n: nat, i: int)
    requires
        0 <= i < n <= types.len(),
    ensures
        direct_names_upto(types, n).contains_key(saturating_inc(types[i].byval_type_index)),
        (forall|j: int|
            i < j < n ==> saturating_inc(#[trigger] types[j].byval_type_index) != saturating_inc(
                types[i].byval_type_index,
            )) ==> direct_names_upto(types, n)[saturating_inc(types[i].byval_type_index)]
            == full_name(types[i].namespace, types[i].name),
    decreases n,
{
    if i < n - 1 {
        law_direct_type_name(types, (n - 1) as nat, i);
    }
}

/// Every field default belongs to a field of the metadata: its key is a valid index
/// into the field table.
pub proof fn law_defaults_keys(data: Seq<u8>, n: nat, k: usize)
    requires
        defaults_upto(data, n).contains_key(k),
    ensures
        k < section_at(data, SEC_FIELDS as int).count,
    decreases n,
{
    if n > 0 {
        match default_entry(data, n - 1) {
            Some((k2, v)) => {
                if k2 != k {
                    law_defaults_keys(data, (n - 1) as nat, k);
                }
            },
            None => law_defaults_keys(data, (n - 1) as nat, k),
        }
    }
}

/// Whether field-default record `i` is usable and belongs to field `k`.
pub open spec fn record_for(data: Seq<u8>, i: int, k: usize) -> bool {
    default_entry(data, i) matches Some((k2, _)) && k2 == k
}

/// A field has a default exactly when a usable record among the first `n` belongs to
/// it, and its value is the one of the last such record; unusable records are passed
/// over.
pub proof fn law_defaults_last_record(data: Seq<u8>, n: nat, k: usize)
    ensures
        defaults_upto(data, n).contains_key(k) <==> exists|i: int| 0 <= i < n && #[trigger] record_for(data, i, k),
        defaults_upto(data, n).contains_key(k) ==> exists|i: int|
            0 <= i < n && default_entry(data, i) == Some((k, defaults_upto(data, n)[k])) && forall|j: int|
                i < j < n ==> !#[trigger] record_for(data, j, k),
    decreases n,
{
    if n > 0 {
        law_defaults_last_record(data, (n - 1) as nat, k);
        let last = (n - 1) as int;
        if record_for(data, last, k) {
            assert(default_entry(data, last) == Some((k, defaults_upto(data, n)[k])));
        } else {
            assert(defaults_upto(data, n).contains_key(k) == defaults_upto(data, (n - 1) as nat).contains_key(k));
            if defaults_upto(data, n).contains_key(k) {
                assert(defaults_upto(data, n)[k] == defaults_upto(data, (n - 1) as nat)[k]);
                let i = choose|i: int|
                    0 <= i < n - 1 && default_entry(data, i) == Some((k, defaults_upto(data, (n - 1) as nat)[k]))
                        && forall|j: int| i < j < n - 1 ==> !#[trigger] record_for(data, j, k);
                assert forall|j: int| i < j < n implies !#[trigger] record_for(data, j, k) by {
                    if j < n - 1 {
                    }
                }
            }
        }
    }
}

/// The field defaults of a parsed file: a field has one exactly when a usable record
/// of the field-default table belongs to it (the field exists, the data index is not
/// negative and falls inside the default-value data, and a compressed integer reads
/// there), and its value is the zig-zag decoding of the last such record's integer.
pub proof fn law_parsed_defaults(m: MetadataV39, data: Seq<u8>, k: usize)
    requires
        m.reads(data),
    ensures
        m.field_defaults@.contains_key(k) <==> exists|i: int|
            0 <= i < section_at(data, SEC_FIELD_DEFAULTS as int).count && #[trigger] record_for(data, i, k),
        m.field_defaults@.contains_key(k) ==> exists|i: int|
            0 <= i < section_at(data, SEC_FIELD_DEFAULTS as int).count && default_entry(data, i) == Some(
                (k, m.field_defaults@[k]),
            ) && forall|j: int|
                i < j < section_at(data, SEC_FIELD_DEFAULTS as int).count ==> !#[trigger] record_for(
                    data,
                    j,
                    k,
                ),
{
    law_defaults_last_record(data, section_at(data, SEC_FIELD_DEFAULTS as int).count as nat, k);
}

/// Sizes and index widths of a parsed metadata file.
#[derive(Debug, Clone)]
pub struct MetadataSummary {
    pub version: u32,
    pub byte_len: usize,
    /// The header entries, in header order.
    pub sections: Vec<Section>,
    pub type_index_width: usize,
    pub type_definition_index_width: usize,
    pub generic_container_index_width: usize,
    pub parameter_definition_index_width: usize,
}

/// The section of `sections` listed in the header under `name`, when there is one.
pub open spec fn section_named(sections: Seq<Section>, name: Seq<char>) -> Option<Section> {
    match header_index(name) {
        Some(i) => if i < sections.len() {
            Some(sections[i as int])
        } else {
            None
        },
        None => None,
    }
}

impl MetadataSummary {
    /// The section listed in the header under `name`, such as `typeDefinitions`.
    pub fn section(&self, name: &str) -> (r: Option<Section>)
        ensures
            r == section_named(self.sections@, name@),
    {
        let mut i: usize = 0;
        while i < 31
            invariant
                i <= 31,
                header_index(name@) == header_index_from(name@, i as nat),
            decreases 31 - i,
        {
            if crate::text::str_eq(HEADER_ENTRIES[i], name) {
                if i < self.sections.len() {
                    return Some(self.sections[i]);
                }
                return None;
            }
            i = i + 1;
        }
        None
    }
}

/// A parsed IL2CPP metadata v39 file.
#[derive(Debug)]
pub struct MetadataV39 {
    pub data: Vec<u8>,
    pub version: u32,
    pub sections: Vec<Section>,
    pub fields: Vec<FieldDef>,
    pub types: Vec<TypeDef>,
    pub field_defaults: HashMap<usize, i32>,
    pub type_index_width: usize,
    pub type_definition_index_width: usize,
    pub generic_container_index_width: usize,
    pub parameter_definition_index_width: usize,
    pub direct_type_names: HashMap<i32, String>,
}

/// Reads the header and the field definitions: the part of reading that comes
/// before the type records.
fn read_through_fields(data: &Vec<u8>) -> (r: Result<(Vec<Section>, Vec<FieldDef>, usize), Error>)
    ensures
        !reaches_type_records(data@) ==> parse_error(data@) is Some && r == Err::<
            (Vec<Section>, Vec<FieldDef>, usize),
            Error,
        >(parse_error(data@)->Some_0),
        reaches_type_records(data@) ==> (r matches Ok((sections, fields, width)) && {
            &&& sections@ == sections_spec(data@)
            &&& field_views(fields@) == fields_spec(data@)
            &&& width == type_index_width(data@)
        }),
{
    if data.len() < 380 {
        return Err(Error::HeaderTruncated);
    }
    let sanity = match u32_at(&data, 0) {
        Ok(v) => v,
        Err(e) => return Err(e),
    };
    proof {
        crate::bytes::lemma_le_small(data@, 0);
        crate::bytes::lemma_le_small(data@, 4);
    }
    if sanity != MAGIC {
        return Err(Error::BadMagic(sanity));
    }
    let version = match u32_at(&data, 4) {
        Ok(v) => v,
        Err(e) => return Err(e),
    };
    if version != 39 {
        return Err(Error::UnsupportedVersion(version));
    }
    let mut sections: Vec<Section> = Vec::new();
    let mut i: usize = 0;
    while i < 31
        invariant
            data.len() >= 380,
            le32(data@, 0) == MAGIC,
            le32(data@, 4) == 39,
            i <= 31,
            sections@ == sections_spec(data@).take(i as int),
            first_section_past_eof(data@, 0) == first_section_past_eof(data@, i as nat),
        decreases 31 - i,
    {
        let s = read_section(&data, i);
        match validate_section(&data, i, s) {
            Ok(()) => {},
            Err(e) => {
                assert(first_section_past_eof(data@, i as nat) == Some(i as nat));
                return Err(e);
            },
        }
        proof {
            assert(sections@.push(s) =~= sections_spec(data@).take(i + 1));
        }
        sections.push(s);
        i = i + 1;
    }
    assert(sections@ =~= sections_spec(data@));
    let fields_s = sections[SEC_FIELDS];
    if fields_s.count == 0 {
        return Err(Error::NoFields);
    }
    let field_record_size = (fields_s.size / fields_s.count) as usize;
    if field_record_size < 8 {
        return Err(Error::FieldRecordSize(field_record_size));
    }
    let type_index_width = field_record_size - 8;
    if type_index_width != 2 && type_index_width != 4 {
        return Err(Error::TypeIndexWidth(type_index_width));
    }
    let string_s = sections[SEC_STRING];
    let fields = match read_fields(&data, string_s, fields_s) {
        Ok(v) => v,
        Err(e) => return Err(e),
    };
    Ok((sections, fields, type_index_width))
}

/// Whether reading `data` would reach the type records of an empty type table, whose
/// record size it divides by the record count.
pub fn divides_by_zero_type_count(data: &Vec<u8>) -> (b: bool)
    ensures
        b == (reaches_type_records(data@) && section_at(data@, SEC_TYPES as int).count == 0),
{
    match read_through_fields(data) {
        Ok((sections, _, _)) => sections[SEC_TYPES].count == 0,
        Err(_) => false,
    }
}

/// The header entries of `data`, in header order.
pub open spec fn sections_spec(data: Seq<u8>) -> Seq<Section> {
    Seq::new(31, |i: int| section_at(data, i))
}

impl MetadataV39 {
    /// The bytes the metadata was read from.
    pub open spec fn bytes_view(&self) -> Seq<u8> {
        self.data@
    }

    /// The metadata version.
    pub open spec fn version_view(&self) -> u32 {
        self.version
    }

    /// The header entries, in header order.
    pub open spec fn sections_view(&self) -> Seq<Section> {
        self.sections@
    }

    /// The direct type names: a field `TypeIndex` to the qualified name of the type.
    pub open spec fn direct_names_view(&self) -> Map<i32, Seq<char>> {
        names_map_view(self.direct_type_names@)
    }

    /// Whether this is what reading `data` gives.
    pub open spec fn reads(&self, data: Seq<u8>) -> bool {
        &&& self.bytes_view() == data
        &&& self.version_view() == 39
        &&& self.sections_view() == sections_spec(data)
        &&& field_views(self.fields@) == fields_spec(data)
        &&& type_views(self.types@) == types_spec(data)
        &&& self.field_defaults@ == defaults_spec(data)
        &&& self.type_index_width == type_index_width(data)
        &&& self.type_definition_index_width == index_width_spec(
            section_at(data, SEC_TYPES as int).count,
        )
        &&& self.generic_container_index_width == generic_container_width(data)
        &&& self.parameter_definition_index_width == index_width_spec(
            section_at(data, SEC_PARAMETERS as int).count,
        )
        &&& self.direct_names_view() == direct_names_upto(
            types_spec(data),
            section_at(data, SEC_TYPES as int).count as nat,
        )
    }

    /// Reads a `global-metadata.dat` of version 39.
    #[verifier::rlimit(30)]
    pub fn parse(data: Vec<u8>) -> (r: Result<MetadataV39, Error>)
        requires
            reaches_type_records(data@) ==> section_at(data@, SEC_TYPES as int).count != 0,
        ensures
            match parse_error(data@) {
                Some(e) => r == Err::<MetadataV39, Error>(e),
                None => r matches Ok(m) && m.reads(data@),
            },
    {
        let (sections, fields, type_index_width) = match read_through_fields(&data) {
            Ok(v) => v,
            Err(e) => return Err(e),
        };
        let fields_s = sections[SEC_FIELDS];
        let type_definition_index_width = index_width(sections[SEC_TYPES].count);
        let generic_container_index_width = index_width(sections[SEC_GENERIC_CONTAINERS].count);
        let parameter_definition_index_width = index_width(sections[SEC_PARAMETERS].count);
        let string_s = sections[SEC_STRING];
        let type_s = sections[SEC_TYPES];
        let type_record_size = (type_s.size / type_s.count) as usize;
        let expected_type_size = 8 + type_index_width * 3 + generic_container_index_width + 4 + 32
            + 16 + 8;
        if type_record_size != expected_type_size {
            return Err(
                Error::TypeRecordSize { found: type_record_size, expected: expected_type_size },
            );
        }
        let (types, direct_type_names) = match read_types(
            &data,
            string_s,
            type_s,
            type_index_width,
            generic_container_index_width,
        ) {
            Ok(v) => v,
            Err(e) => return Err(e),
        };
        let field_defaults = match parse_field_defaults(
            &data,
            sections[SEC_FIELD_DEFAULTS],
            sections[SEC_DEFAULT_DATA],
            fields_s.count as usize,
        ) {
            Ok(m) => m,
            Err(e) => return Err(e),
        };
        Ok(MetadataV39 {
            data,
            version: 39,
            sections,
            fields,
            types,
            field_defaults,
            type_index_width,
            type_definition_index_width,
            generic_container_index_width,
            parameter_definition_index_width,
            direct_type_names,
        })
    }

    /// The metadata version.
    pub fn version(&self) -> (v: u32)
        ensures
            v == self.version_view(),
    {
        self.version
    }

    /// The qualified name of the type whose adjacent by-ref slot is `type_index`.
    pub fn resolve_direct_type(&self, type_index: i32) -> (r: Option<&str>)
        ensures
            match r {
                Some(s) => self.direct_names_view().contains_key(type_index) && s@
                    == self.direct_names_view()[type_index],
                None => !self.direct_names_view().contains_key(type_index),
            },
    {
        match self.direct_type_names.get(&type_index) {
            Some(s) => Some(s.as_str()),
            None => None,
        }
    }

    /// Sizes and index widths of the metadata.
    pub fn summary(&self) -> (s: MetadataSummary)
        ensures
            s.version == self.version_view(),
            s.byte_len == self.bytes_view().len(),
            s.sections@ == self.sections_view(),
            s.type_index_width == self.type_index_width,
            s.type_definition_index_width == self.type_definition_index_width,
            s.generic_container_index_width == self.generic_container_index_width,
            s.parameter_definition_index_width == self.parameter_definition_index_width,
    {
        let mut sections: Vec<Section> = Vec::new();
        let mut i: usize = 0;
        while i < self.sections.len()
            invariant
                i <= self.sections.len(),
                sections@ == self.sections@.take(i as int),
            decreases self.sections.len() - i,
        {
            sections.push(self.sections[i]);
            i = i + 1;
            assert(sections@ =~= self.sections@.take(i as int));
        }
        assert(self.sections@.take(self.sections.len() as int) =~= self.sections@);
        MetadataSummary {
            version: self.version,
            byte_len: self.data.len(),
            sections,
            type_index_width: self.type_index_width,
            type_definition_index_width: self.type_definition_index_width,
            generic_container_index_width: self.generic_container_index_width,
            parameter_definition_index_width: self.parameter_definition_index_width,
        }
    }
}

} // verus!
