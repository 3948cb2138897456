use std::io::{Cursor, Write};

use msldecomp::error::Error;
use msldecomp::native::elf_class;
use msldecomp::xapk::{extract_from_bytes, find_unity_version, inspect_apk};
use zip::write::SimpleFileOptions;
use zip::CompressionMethod;

fn zip_of(entries: &[(&str, &[u8])]) -> Vec<u8> {
    let mut w = zip::ZipWriter::new(Cursor::new(Vec::new()));
    let options = SimpleFileOptions::default().compression_method(CompressionMethod::Stored);
    for (name, data) in entries {
        w.start_file(*name, options).unwrap();
        w.write_all(data).unwrap();
    }
    w.finish().unwrap().into_inner()
}

const METADATA_PATH: &str = "assets/bin/Data/Managed/Metadata/global-metadata.dat";

fn managers() -> Vec<u8> {
    let mut v = b"\x00\x01junk 6000.3.12f1\x00 more".to_vec();
    v.extend_from_slice(&[0u8; 16]);
    v
}

#[test]
fn finds_unity_version() {
    assert_eq!(find_unity_version(&managers()).as_deref(), Some("6000.3.12f1"));
    assert_eq!(find_unity_version(b"2021.3.5f1\x00padding-bytes"), Some("2021.3.5f1".to_string()));
    // no release letter
    assert_eq!(find_unity_version(b"6000.3.12\x00 padding-bytes-here"), None);
    // too short for a scan
    assert_eq!(find_unity_version(b"6000.3.1f1"), None);
    // a run that reaches the end of the data is not taken
    assert_eq!(find_unity_version(b"xxxxxxxxxx6000.3.12f1"), None);
}

#[test]
fn inspects_apk_entries() {
    let apk = zip_of(&[
        ("lib/arm64-v8a/libil2cpp.so", b"\x7fELF64"),
        ("lib/armeabi-v7a/libil2cpp.so", b"\x7fELF32"),
        (METADATA_PATH, b"META"),
        ("assets/bin/Data/globalgamemanagers", &managers()),
        ("res/other.bin", b"x"),
    ]);
    let found = inspect_apk(apk.clone(), "arm64-v8a").unwrap();
    assert_eq!(found.metadata, b"META".to_vec());
    assert_eq!(found.il2cpp.as_deref(), Some(&b"\x7fELF64"[..]));
    assert_eq!(found.unity_version.as_deref(), Some("6000.3.12f1"));
    let found = inspect_apk(apk, "armeabi-v7a").unwrap();
    assert_eq!(found.il2cpp.as_deref(), Some(&b"\x7fELF32"[..]));
}

#[test]
fn apk_without_inputs_is_refused() {
    let apk = zip_of(&[("res/other.bin", b"x")]);
    assert_eq!(inspect_apk(apk, "arm64-v8a").unwrap_err(), Error::ApkMissingInputs);
    assert_eq!(inspect_apk(b"not a zip".to_vec(), "arm64-v8a").unwrap_err(), Error::OpenApk);
}

#[test]
fn extracts_from_xapk() {
    let base = zip_of(&[(METADATA_PATH, b"META"), ("assets/bin/Data/globalgamemanagers", &managers())]);
    let split = zip_of(&[("lib/arm64-v8a/libil2cpp.so", b"\x7fELF64")]);
    let later = zip_of(&[(METADATA_PATH, b"LATER")]);
    let xapk = zip_of(&[
        ("icon.png", b"PNG"),
        ("com.example.apk", &base),
        ("config.arm64_v8a.apk", &split),
        ("config.other.apk", &later),
        ("broken.apk", b"not a zip"),
    ]);
    let found = extract_from_bytes(xapk, false, "arm64-v8a").unwrap();
    assert_eq!(found.metadata, b"META".to_vec());
    assert_eq!(found.il2cpp.as_deref(), Some(&b"\x7fELF64"[..]));
    assert_eq!(found.unity_version.as_deref(), Some("6000.3.12f1"));
}

#[test]
fn xapk_without_metadata_is_refused() {
    let split = zip_of(&[("lib/arm64-v8a/libil2cpp.so", b"\x7fELF64")]);
    let xapk = zip_of(&[("config.apk", &split)]);
    assert_eq!(extract_from_bytes(xapk, false, "arm64-v8a").unwrap_err(), Error::XapkMissingMetadata);
    assert_eq!(extract_from_bytes(b"junk".to_vec(), false, "arm64-v8a").unwrap_err(), Error::OpenXapk);
}

#[test]
fn apk_path_goes_straight_to_the_apk() {
    let apk = zip_of(&[(METADATA_PATH, b"META")]);
    let found = extract_from_bytes(apk, true, "arm64-v8a").unwrap();
    assert_eq!(found.metadata, b"META".to_vec());
    assert_eq!(found.il2cpp, None);
}

#[test]
fn checks_elf_class() {
    assert_eq!(elf_class(b"\x7fELF\x01rest"), Ok(true));
    assert_eq!(elf_class(b"\x7fELF\x02rest"), Ok(false));
    assert_eq!(elf_class(b"\x7fELF"), Ok(false));
    assert_eq!(elf_class(b"MZ\x90\x00"), Err(Error::NotElf));
    assert_eq!(elf_class(b"\x7fEL"), Err(Error::NotElf));
}

/// The archive of `entries` with the first byte of the first entry's data flipped,
/// so that its checksum no longer matches.
fn corrupted_zip_of(entries: &[(&str, &[u8])]) -> Vec<u8> {
    let mut z = zip_of(entries);
    let at = 30 + entries[0].0.len();
    z[at] ^= 0xff;
    z
}

#[test]
fn unreadable_input_entry_stops_the_scan() {
    let apk = corrupted_zip_of(&[(METADATA_PATH, b"META"), ("lib/arm64-v8a/libil2cpp.so", b"\x7fELF64")]);
    assert_eq!(inspect_apk(apk, "arm64-v8a").unwrap_err(), Error::ZipEntry);
    let apk = corrupted_zip_of(&[("res/other.bin", b"xyz"), (METADATA_PATH, b"META")]);
    assert_eq!(inspect_apk(apk, "arm64-v8a").unwrap().metadata, b"META".to_vec());
}

#[test]
fn unreadable_apk_entry_stops_the_xapk() {
    let base = zip_of(&[(METADATA_PATH, b"META")]);
    let xapk = corrupted_zip_of(&[("base.apk", &base)]);
    assert_eq!(extract_from_bytes(xapk, false, "arm64-v8a").unwrap_err(), Error::ZipEntry);
    let xapk = corrupted_zip_of(&[("notes.txt", b"hello"), ("base.apk", &base)]);
    assert_eq!(extract_from_bytes(xapk, false, "arm64-v8a").unwrap().metadata, b"META".to_vec());
}

#[test]
fn last_apk_entries_win() {
    let apk = zip_of(&[
        ("assets/bin/Data/globalgamemanagers", &managers()),
        (METADATA_PATH, b"META"),
        ("assets/bin/Data/Resources/unity_globalgamemanagers", b"no version here"),
    ]);
    let found = inspect_apk(apk, "arm64-v8a").unwrap();
    assert_eq!(found.metadata, b"META".to_vec());
    assert_eq!(found.il2cpp, None);
    assert_eq!(found.unity_version, None);
    let apk = zip_of(&[
        ("assets/bin/Data/Resources/unity_globalgamemanagers", b"no version here"),
        ("assets/bin/Data/globalgamemanagers", &managers()),
    ]);
    let found = inspect_apk(apk, "arm64-v8a").unwrap();
    assert_eq!(found.metadata, Vec::<u8>::new());
    assert_eq!(found.unity_version.as_deref(), Some("6000.3.12f1"));
    let apk = zip_of(&[("assets/bin/Data/globalgamemanagers", b"no version here")]);
    assert_eq!(inspect_apk(apk, "arm64-v8a").unwrap_err(), Error::ApkMissingInputs);
}

#[test]
fn first_apk_with_each_input_wins() {
    let a = zip_of(&[("lib/arm64-v8a/libil2cpp.so", b"\x7fELF-a"), (METADATA_PATH, b"")]);
    let b = zip_of(&[(METADATA_PATH, b"META-B"), ("assets/bin/Data/globalgamemanagers", &managers())]);
    let c = zip_of(&[(METADATA_PATH, b"META-C"), ("lib/arm64-v8a/libil2cpp.so", b"\x7fELF-c")]);
    let xapk = zip_of(&[("a.apk", &a), ("b.apk", &b), ("c.apk", &c)]);
    let found = extract_from_bytes(xapk, false, "arm64-v8a").unwrap();
    assert_eq!(found.metadata, b"META-B".to_vec());
    assert_eq!(found.il2cpp.as_deref(), Some(&b"\x7fELF-a"[..]));
    assert_eq!(found.unity_version.as_deref(), Some("6000.3.12f1"));
}
