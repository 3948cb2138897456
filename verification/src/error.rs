//! The library's error type.
use vstd::prelude::*;

verus! {

/// Every way in which the library refuses an input.
#[derive(Debug, Clone, PartialEq, Eq)]
pub enum Error {
    /// A protobuf varint ran past the end of the input.
    VarintTruncated,
    /// The tenth byte of a protobuf varint carries bits beyond 64.
    VarintOverflow,
    /// A protobuf varint is longer than ten bytes.
    VarintTooLong,
    /// A protobuf field key is zero.
    ZeroKey,
    /// A protobuf field number is zero.
    ZeroFieldNumber,
    /// A fixed64 field with the given number runs past the end of the input.
    Fixed64Truncated(u32),
    /// A length-delimited field with the given number runs past the end of the input.
    LengthDelimitedTruncated(u32),
    /// A fixed32 field with the given number runs past the end of the input.
    Fixed32Truncated(u32),
    /// The deprecated group wire types 3 and 4.
    GroupWireType(u8),
    /// Wire types 6 and 7.
    InvalidWireType(u8),
    /// A 16-bit integer runs past the end of the input.
    U16Truncated,
    /// A 32-bit integer runs past the end of the input.
    U32Truncated,
    /// A one-byte index runs past the end of the input.
    IndexTruncated,
    /// An index width other than 1, 2 or 4 bytes.
    UnsupportedIndexWidth(usize),
    /// An IL2CPP compressed integer runs past the end of the input.
    CompressedTruncated,
    /// An IL2CPP compressed integer starts with an invalid prefix byte.
    CompressedPrefix(u8),
    /// The metadata is shorter than its header.
    HeaderTruncated,
    /// The metadata does not start with the IL2CPP metadata magic; the value found.
    BadMagic(u32),
    /// A metadata version other than 39; the version found.
    UnsupportedVersion(u32),
    /// The header section with the given position in the header runs past the end of the data.
    SectionPastEof(usize),
    /// The metadata has no field definitions.
    NoFields,
    /// A field record size under eight bytes.
    FieldRecordSize(usize),
    /// A `TypeIndex` width other than 2 or 4 bytes.
    TypeIndexWidth(usize),
    /// A string index that does not fall inside the string section.
    StringIndexOutOfRange(u32),
    /// A type-definition record size other than the one that the index widths give.
    TypeRecordSize { found: usize, expected: usize },
    /// A field-default record size other than twelve bytes.
    FieldDefaultRecordSize,
    /// A packet type's field range starts past the field table.
    FieldRangeOutOfBounds,
    /// An envelope type's field range starts past the field table.
    EnvelopeRangeOutOfBounds,
    /// The catalog has no packet of the given name.
    PacketNotFound(String),
    /// The XAPK container is not a readable ZIP archive.
    OpenXapk,
    /// An APK is not a readable ZIP archive.
    OpenApk,
    /// An archive entry could not be opened or read.
    ZipEntry,
    /// An APK holds none of the IL2CPP inputs.
    ApkMissingInputs,
    /// No APK of the XAPK holds `global-metadata.dat`.
    XapkMissingMetadata,
    /// The binary is not an ELF file.
    NotElf,
    /// A payload that is not an even number of hexadecimal digits.
    InvalidHex,
}

} // verus!
