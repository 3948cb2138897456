# msldecomp

Static-analysis toolkit for Unity IL2CPP Android builds, written in Verus: the
library in `src/` is verified against its contracts, and `app/` is the command-line
front end around it.

## Library (`src/`)

- `bytes.rs` – little-endian reads, variable-width indices, IL2CPP compressed
  integers and their zig-zag decoding.
- `metadata.rs` – the reader for `global-metadata.dat` version 39: header entries,
  field and type records, field-default constants, direct type names.
- `packets.rs` – recovery of generated protobuf packet schemas (`Req*`, `MsgReq*`,
  `Rsp*`, `MsgRsp*`) and of the `Request`/`Response` envelope tags.
- `render.rs` – the `.proto` skeleton and the markdown report.
- `wire.rs` – a passive protobuf wire decoder.
- `payload.rs` – reading a payload typed as hexadecimal text.
- `xapk.rs` – choosing the metadata, the `libil2cpp.so` of an ABI and the Unity
  version from APK and XAPK archives.
- `native.rs` – the ELF check that precedes a native dump.
- `text.rs`, `error.rs` – character helpers and the library's error type.

Each module states its results over spec functions, and proves laws such as the
round trips of varints, compressed integers and zig-zag codes, the ordering of
recovered schemas and envelope tags, and that the `.proto` skeleton keeps every
recovered field number.

## Front end (`app/`)

`inspect` (APK/XAPK), `packets` (metadata file) and `wire` (payload decoding). It
reads and writes files and converts the library's values to and from JSON.

`app/native.rs` holds the full native dump (`dump.cs` and C headers) through the
IL2CPP dumper engine, a git-pinned crate. It and the `native` command are compiled
only under a `native` feature, which this package does not declare because the
engine is not among its dependencies; as shipped, the command does not exist.
