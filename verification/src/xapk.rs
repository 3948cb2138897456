//! Selection of the IL2CPP inputs from APK and XAPK containers.
use std::io::Cursor;
use vstd::prelude::*;
use zip::ZipArchive;
use zip::result::ZipError;
use crate::error::Error;
use crate::text::has_suffix;

verus! {

#[verifier::external_type_specification]
#[verifier::external_body]
#[verifier::reject_recursive_types(R)]
pub struct ExZipArchive<R>(ZipArchive<R>);

#[verifier::external_type_specification]
#[verifier::external_body]
#[verifier::reject_recursive_types(T)]
pub struct ExCursor<T>(Cursor<T>);

#[verifier::external_type_specification]
#[verifier::external_body]
pub struct ExZipError(ZipError);

/// The entries of an opened archive, in the archive's index order (the order of the
/// central directory, a repeated name listed once at its first place): the name of
/// each entry that opens, `None` for one that does not.
pub uninterp spec fn zip_names(archive: ZipArchive<Cursor<Vec<u8>>>) -> Seq<Option<Seq<char>>>;

/// The uncompressed contents of the entries of an opened archive, in the same order:
/// `None` for an entry that does not open or does not read to its end.
pub uninterp spec fn zip_contents(archive: ZipArchive<Cursor<Vec<u8>>>) -> Seq<Option<Seq<u8>>>;

/// What `ZipArchive::new` finds in `bytes`: the names and the contents of the
/// entries of the archive they hold, as `zip_names` and `zip_contents` give them, or
/// `None` when they do not hold a readable archive.
pub uninterp spec fn zip_layout(bytes: Seq<u8>) -> Option<(Seq<Option<Seq<char>>>, Seq<Option<Seq<u8>>>)>;

/// Opens an in-memory ZIP archive.
/// Trusted: calls `zip::ZipArchive::new` on a cursor over the bytes. Its outcome is
/// named `zip_layout` of the bytes: the archive is a function of the bytes alone.
/// Which byte strings open is left to the crate.
#[verifier::external_body]
fn zip_open(bytes: Vec<u8>) -> (r: Result<ZipArchive<Cursor<Vec<u8>>>, ZipError>)
    ensures
        r is Ok <==> zip_layout(bytes@) is Some,
        r matches Ok(a) ==> zip_layout(bytes@) == Some((zip_names(a), zip_contents(a))),
{
    ZipArchive::new(Cursor::new(bytes))
}

/// The number of entries of an archive.
/// Trusted: calls `zip::ZipArchive::len`, the number of entries in the archive's
/// index, which is the number of names and of contents.
#[verifier::external_body]
fn zip_len(archive: &ZipArchive<Cursor<Vec<u8>>>) -> (n: usize)
    ensures
        n == zip_names(*archive).len(),
        n == zip_contents(*archive).len(),
{
    archive.len()
}

/// The name of entry `i`.
/// Trusted: calls `zip::ZipArchive::by_index` and `ZipFile::name`. `by_index` looks
/// the entry up in the central directory and seeks to its data on every call, so
/// whether it opens is fixed by the archive (an encrypted entry, for instance, never
/// opens without a password), and reading moves only the archive's cursor.
#[verifier::external_body]
fn zip_entry_name(archive: &mut ZipArchive<Cursor<Vec<u8>>>, i: usize) -> (r: Result<String, ZipError>)
    requires
        i < zip_names(*old(archive)).len(),
    ensures
        zip_names(*final(archive)) == zip_names(*old(archive)),
        zip_contents(*final(archive)) == zip_contents(*old(archive)),
        r is Ok <==> zip_names(*old(archive))[i as int] is Some,
        r matches Ok(name) ==> zip_names(*old(archive))[i as int] == Some(name@),
{
    Ok(archive.by_index(i)?.name().to_owned())
}

/// The uncompressed contents of entry `i`.
/// Trusted: calls `zip::ZipArchive::by_index` and reads the entry to its end. As for
/// names, whether the entry opens and decompresses is fixed by the archive, and
/// reading moves only the archive's cursor.
#[verifier::external_body]
fn zip_entry_read(archive: &mut ZipArchive<Cursor<Vec<u8>>>, i: usize) -> (r: Result<Vec<u8>, ZipError>)
    requires
        i < zip_names(*old(archive)).len(),
    ensures
        zip_names(*final(archive)) == zip_names(*old(archive)),
        zip_contents(*final(archive)) == zip_contents(*old(archive)),
        r is Ok <==> zip_contents(*old(archive))[i as int] is Some,
        r matches Ok(data) ==> zip_contents(*old(archive))[i as int] == Some(data@),
{
    let mut file = archive.by_index(i)?;
    let mut data = Vec::new();
    std::io::Read::read_to_end(&mut file, &mut data).map_err(ZipError::Io)?;
    Ok(data)
}

/// The IL2CPP inputs found in a container.
#[derive(Debug)]
pub struct ExtractedInputs {
    pub metadata: Vec<u8>,
    pub il2cpp: Option<Vec<u8>>,
    pub unity_version: Option<String>,
}

/// Whether `b` may stand in a Unity version string: an ASCII letter, digit or `.`.
pub open spec fn is_version_byte(b: u8) -> bool {
    (48 <= b && b <= 57) || (65 <= b && b <= 90) || (97 <= b && b <= 122) || b == 46
}

/// The length of the run of version bytes at `i`, counted from its `k`-th byte;
/// 0 when the run reaches the end of the data.
pub open spec fn run_from(data: Seq<u8>, i: int, k: nat) -> nat
    decreases data.len() - (i + k),
{
    if i + k >= data.len() {
        0
    } else if !is_version_byte(data[i + k]) {
        k
    } else {
        run_from(data, i, k + 1)
    }
}

/// The number of `.` bytes in `s`.
pub open spec fn count_dots(s: Seq<u8>) -> nat
    decreases s.len(),
{
    if s.len() == 0 {
        0
    } else {
        count_dots(s.drop_last()) + if s.last() == 46 {
            1nat
        } else {
            0nat
        }
    }
}

/// Whether `b` is one of the release letters `f`, `a`, `b`, `p`.
pub open spec fn is_release_letter(b: u8) -> bool {
    b == 102 || b == 97 || b == 98 || b == 112
}

/// Whether `s` holds a release letter.
pub open spec fn has_release_letter(s: Seq<u8>) -> bool {
    exists|j: int| 0 <= j < s.len() && #[trigger] is_release_letter(s[j])
}

/// The characters of ASCII bytes.
pub open spec fn ascii_chars(s: Seq<u8>) -> Seq<char> {
    s.map_values(|b: u8| b as char)
}

/// The Unity version string that starts at `i`, when there is one: it starts with
/// `60` or `20`, runs 8 to 24 version bytes up to a byte that ends it, has two dots
/// and a release letter.
pub open spec fn version_at(data: Seq<u8>, i: int) -> Option<Seq<char>> {
    if !((data[i] == 54 || data[i] == 50) && data[i + 1] == 48) {
        None
    } else {
        let end = run_from(data, i, 0);
        if end < 8 || end > 24 {
            None
        } else {
            let s = data.subrange(i, i + end);
            if count_dots(s) == 2 && has_release_letter(s) {
                Some(ascii_chars(s))
            } else {
                None
            }
        }
    }
}

/// The last position at which a version string is looked for, plus one.
pub open spec fn version_scan_limit(data: Seq<u8>) -> int {
    if data.len() >= 10 {
        data.len() - 10
    } else {
        0
    }
}

/// The first Unity version string at or after `i`.
pub open spec fn find_version_from(data: Seq<u8>, i: int) -> Option<Seq<char>>
    decreases version_scan_limit(data) - i,
{
    if i >= version_scan_limit(data) || i < 0 {
        None
    } else {
        match version_at(data, i) {
            Some(v) => Some(v),
            None => find_version_from(data, i + 1),
        }
    }
}

/// A run of version bytes ends inside the data.
proof fn lemma_run_from_bound(data: Seq<u8>, i: int, k: nat)
    requires
        0 <= i,
        i + k <= data.len(),
    ensures
        run_from(data, i, k) + i <= data.len(),
    decreases data.len() - (i + k),
{
    if i + k < data.len() && is_version_byte(data[i + k]) {
        lemma_run_from_bound(data, i, k + 1);
    }
}

/// A Unity version found in data starts with `60` or `20`, has 8 to 24 characters,
/// each an ASCII letter, digit or `.`, and holds a release letter.
pub proof fn law_unity_version_shape(data: Seq<u8>, i: int)
    ensures
        find_version_from(data, i) matches Some(v) ==> {
            &&& 8 <= v.len() <= 24
            &&& (v[0] == '6' || v[0] == '2') && v[1] == '0'
        },
    decreases version_scan_limit(data) - i,
{
    if i < version_scan_limit(data) && i >= 0 {
        if version_at(data, i) is None {
            law_unity_version_shape(data, i + 1);
        } else {
            let end = run_from(data, i, 0);
            lemma_run_from_bound(data, i, 0);
            let s = data.subrange(i, i + end);
            assert(s[0] == data[i] && s[1] == data[i + 1]);
            let v = ascii_chars(s);
            assert(v[0] == s[0] as char && v[1] == s[1] as char);
        }
    }
}

/// The length of the run of version bytes at `i`; 0 when it reaches the end.
fn run_length(data: &[u8], i: usize) -> (n: usize)
    requires
        i <= data.len(),
    ensures
        n == run_from(data@, i as int, 0),
        n <= data.len() - i,
{
    let mut k: usize = 0;
    while i + k < data.len()
        invariant
            i + k <= data.len(),
            run_from(data@, i as int, 0) == run_from(data@, i as int, k as nat),
        decreases data.len() - (i + k),
    {
        let b = data[i + k];
        if !((48 <= b && b <= 57) || (65 <= b && b <= 90) || (97 <= b && b <= 122) || b == 46) {
            return k;
        }
        k = k + 1;
    }
    0
}

/// The Unity version string at `i`, when there is one.
fn version_here(data: &[u8], i: usize) -> (r: Option<String>)
    requires
        i + 10 < data.len(),
    ensures
        match version_at(data@, i as int) {
            Some(v) => r matches Some(s) && s@ == v,
            None => r is None,
        },
{
    if !((data[i] == 54 || data[i] == 50) && data[i + 1] == 48) {
        return None;
    }
    let end = run_length(data, i);
    if end < 8 || end > 24 {
        return None;
    }
    let ghost s = data@.subrange(i as int, (i + end) as int);
    let mut dots: usize = 0;
    let mut letter = false;
    let mut text = String::new();
    let mut k: usize = 0;
    while k < end
        invariant
            k <= end <= 24,
            i + end <= data.len(),
            s == data@.subrange(i as int, (i + end) as int),
            dots == count_dots(s.take(k as int)),
            dots <= k,
            letter == has_release_letter(s.take(k as int)),
            text@ == ascii_chars(s.take(k as int)),
        decreases end - k,
    {
        let b = data[i + k];
        assert(s.take(k + 1).drop_last() =~= s.take(k as int));
        assert(s.take(k + 1).last() == b);
        if b == 46 {
            dots = dots + 1;
        }
        let ghost was = letter;
        if b == 102 || b == 97 || b == 98 || b == 112 {
            letter = true;
        }
        proof {
            let t0 = s.take(k as int);
            let t1 = s.take(k + 1);
            assert forall|j: int| 0 <= j < k implies t1[j] == t0[j] by {}
            if letter && !was {
                assert(is_release_letter(t1[k as int]));
            }
            if was {
                let j = choose|j: int| 0 <= j < t0.len() && #[trigger] is_release_letter(t0[j]);
                assert(is_release_letter(t1[j]));
            }
            if !letter {
                assert forall|j: int| 0 <= j < t1.len() implies !#[trigger] is_release_letter(t1[j]) by {
                    if j < k {
                        assert(t1[j] == t0[j]);
                    }
                }
            }
        }
        crate::text::push_char(&mut text, b as char);
        k = k + 1;
        assert(text@ =~= ascii_chars(s.take(k as int)));
    }
    assert(s.take(end as int) =~= s);
    if dots == 2 && letter {
        Some(text)
    } else {
        None
    }
}

/// The first Unity version string in `data`, such as `6000.3.12f1`.
pub fn find_unity_version(data: &[u8]) -> (r: Option<String>)
    ensures
        match find_version_from(data@, 0) {
            Some(v) => r matches Some(s) && s@ == v,
            None => r is None,
        },
{
    let limit: usize = if data.len() >= 10 {
        data.len() - 10
    } else {
        0
    };
    let mut i: usize = 0;
    while i < limit
        invariant
            limit == version_scan_limit(data@),
            i <= limit,
            find_version_from(data@, 0) == find_version_from(data@, i as int),
        decreases limit - i,
    {
        match version_here(data, i) {
            Some(v) => return Some(v),
            None => {},
        }
        i = i + 1;
    }
    None
}

/// Where an APK keeps the IL2CPP metadata.
pub open spec fn metadata_entry_path() -> Seq<char> {
    "assets/bin/Data/Managed/Metadata/global-metadata.dat"@
}

/// Where an APK keeps the IL2CPP binary for `abi`.
pub open spec fn lib_entry_path(abi: Seq<char>) -> Seq<char> {
    "lib/"@ + abi + "/libil2cpp.so"@
}

/// The inputs found so far: the metadata, the binary, the Unity version.
pub ghost struct FoundModel {
    pub metadata: Option<Seq<u8>>,
    pub il2cpp: Option<Seq<u8>>,
    pub unity_version: Option<Seq<char>>,
}

/// Nothing found yet.
pub open spec fn found_none() -> FoundModel {
    FoundModel { metadata: None, il2cpp: None, unity_version: None }
}

/// Which input an APK entry holds.
pub enum EntryKind {
    Metadata,
    Il2cpp,
    GameManagers,
    Other,
}

/// The input that an entry named `name` holds.
pub open spec fn entry_kind_spec(name: Seq<char>, abi: Seq<char>) -> EntryKind {
    if name == metadata_entry_path() {
        EntryKind::Metadata
    } else if name == lib_entry_path(abi) {
        EntryKind::Il2cpp
    } else if has_suffix(name, "globalgamemanagers"@) {
        EntryKind::GameManagers
    } else {
        EntryKind::Other
    }
}

/// Which input an APK entry named `name` holds.
pub fn entry_kind(name: &String, abi: &str) -> (k: EntryKind)
    ensures
        k == entry_kind_spec(name@, abi@),
{
    let metadata_path = "assets/bin/Data/Managed/Metadata/global-metadata.dat".to_owned();
    if *name == metadata_path {
        return EntryKind::Metadata;
    }
    let mut lib_path = "lib/".to_owned();
    lib_path.append(abi);
    lib_path.append("/libil2cpp.so");
    if *name == lib_path {
        return EntryKind::Il2cpp;
    }
    let cs = crate::text::chars_of(name.as_str());
    let suffix = crate::text::chars_of("globalgamemanagers");
    if crate::text::strip_suffix(cs.as_slice(), suffix.as_slice()).is_some() {
        EntryKind::GameManagers
    } else {
        EntryKind::Other
    }
}

/// What one APK entry adds to `f`: the metadata and the binary are replaced by a
/// later entry of the same path, the version by the one found in the latest
/// `globalgamemanagers` entry. Reading stops at an entry that does not open, or
/// that holds an input and does not read.
pub open spec fn scan_step(
    f: FoundModel,
    name: Option<Seq<char>>,
    content: Option<Seq<u8>>,
    abi: Seq<char>,
) -> Result<FoundModel, Error> {
    match name {
        None => Err(Error::ZipEntry),
        Some(name) => match entry_kind_spec(name, abi) {
            EntryKind::Other => Ok(f),
            kind => match content {
                None => Err(Error::ZipEntry),
                Some(c) => Ok(
                    match kind {
                        EntryKind::Metadata => FoundModel { metadata: Some(c), ..f },
                        EntryKind::Il2cpp => FoundModel { il2cpp: Some(c), ..f },
                        _ => FoundModel { unity_version: find_version_from(c, 0), ..f },
                    },
                ),
            },
        },
    }
}

/// What the first `n` entries of an APK give, or the error that reading them stops at.
pub open spec fn scan_entries(
    names: Seq<Option<Seq<char>>>,
    contents: Seq<Option<Seq<u8>>>,
    abi: Seq<char>,
    n: nat,
) -> Result<FoundModel, Error>
    decreases n,
{
    if n == 0 {
        Ok(found_none())
    } else {
        match scan_entries(names, contents, abi, (n - 1) as nat) {
            Err(e) => Err(e),
            Ok(f) => scan_step(f, names[n - 1], contents[n - 1], abi),
        }
    }
}

/// Whether a scan found none of the inputs.
pub open spec fn found_nothing(f: FoundModel) -> bool {
    f.metadata is None && f.il2cpp is None && f.unity_version is None
}

/// What reading the APK in `bytes` gives: what its entries hold, or why it fails.
pub open spec fn apk_result(bytes: Seq<u8>, abi: Seq<char>) -> Result<FoundModel, Error> {
    match zip_layout(bytes) {
        None => Err(Error::OpenApk),
        Some((names, contents)) => match scan_entries(names, contents, abi, names.len()) {
            Err(e) => Err(e),
            Ok(f) => if found_nothing(f) {
                Err(Error::ApkMissingInputs)
            } else {
                Ok(f)
            },
        },
    }
}

/// The bytes of an optional buffer.
pub open spec fn opt_bytes(o: Option<Vec<u8>>) -> Option<Seq<u8>> {
    match o {
        Some(v) => Some(v@),
        None => None,
    }
}

/// Whether `x` holds what was found, with an empty buffer for missing metadata.
pub open spec fn holds_found(x: ExtractedInputs, f: FoundModel) -> bool {
    &&& x.metadata@ == match f.metadata {
        Some(m) => m,
        None => Seq::empty(),
    }
    &&& opt_bytes(x.il2cpp) == f.il2cpp
    &&& crate::packets::opt_view(x.unity_version) == f.unity_version
}

/// Once reading an APK's entries stops at an error, later entries do not change it.
proof fn lemma_scan_error_stays(
    names: Seq<Option<Seq<char>>>,
    contents: Seq<Option<Seq<u8>>>,
    abi: Seq<char>,
    i: nat,
    n: nat,
)
    requires
        i <= n,
        scan_entries(names, contents, abi, i) is Err,
    ensures
        scan_entries(names, contents, abi, n) == scan_entries(names, contents, abi, i),
    decreases n,
{
    if n > i {
        lemma_scan_error_stays(names, contents, abi, i, (n - 1) as nat);
    }
}

/// Each input found in an APK comes from one of its entries: the metadata from an
/// entry at the metadata path, the binary from the entry for the requested ABI, and
/// the Unity version from a `globalgamemanagers` entry.
pub proof fn law_apk_input_sources(
    names: Seq<Option<Seq<char>>>,
    contents: Seq<Option<Seq<u8>>>,
    abi: Seq<char>,
    n: nat,
)
    requires
        n <= names.len(),
        n <= contents.len(),
    ensures
        scan_entries(names, contents, abi, n) matches Ok(f) ==> {
            &&& (f.metadata matches Some(m) ==> exists|i: int|
                0 <= i < n && #[trigger] names[i] == Some(metadata_entry_path()) && contents[i]
                    == Some(m))
            &&& (f.il2cpp matches Some(b) ==> exists|i: int|
                0 <= i < n && #[trigger] names[i] == Some(lib_entry_path(abi)) && contents[i]
                    == Some(b))
            &&& (f.unity_version matches Some(v) ==> exists|i: int|
                0 <= i < n && (#[trigger] names[i] matches Some(name) && has_suffix(
                    name,
                    "globalgamemanagers"@,
                )) && (contents[i] matches Some(c) && find_version_from(c, 0) == Some(v)))
        },
    decreases n,
{
    if n > 0 {
        law_apk_input_sources(names, contents, abi, (n - 1) as nat);
        let k = n - 1;
        if let Ok(f) = scan_entries(names, contents, abi, n) {
            let name = names[k]->Some_0;
            match entry_kind_spec(name, abi) {
                EntryKind::Metadata => {
                    assert(names[k] == Some(metadata_entry_path()));
                },
                EntryKind::Il2cpp => {
                    assert(names[k] == Some(lib_entry_path(abi)));
                },
                EntryKind::GameManagers => {
                    assert(names[k] matches Some(nm) && has_suffix(nm, "globalgamemanagers"@));
                },
                EntryKind::Other => {},
            }
        }
    }
}

/// The position of the last of the first `n` entries named `name`.
pub open spec fn last_entry_named(names: Seq<Option<Seq<char>>>, n: nat, name: Seq<char>) -> Option<int>
    decreases n,
{
    if n == 0 {
        None
    } else if names[n - 1] == Some(name) {
        Some(n - 1)
    } else {
        last_entry_named(names, (n - 1) as nat, name)
    }
}

/// The position of the last of the first `n` entries whose name ends with `suffix`.
pub open spec fn last_entry_ending(names: Seq<Option<Seq<char>>>, n: nat, suffix: Seq<char>) -> Option<int>
    decreases n,
{
    if n == 0 {
        None
    } else if names[n - 1] matches Some(name) && has_suffix(name, suffix) {
        Some(n - 1)
    } else {
        last_entry_ending(names, (n - 1) as nat, suffix)
    }
}

/// The contents of the entry at an optional position.
pub open spec fn content_at(contents: Seq<Option<Seq<u8>>>, i: Option<int>) -> Option<Seq<u8>> {
    match i {
        Some(i) => contents[i],
        None => None,
    }
}

/// The metadata path, the binary path of any ABI and the `globalgamemanagers`
/// suffix never describe the same entry: their last characters differ.
proof fn lemma_entry_paths_apart(abi: Seq<char>)
    ensures
        metadata_entry_path() != lib_entry_path(abi),
        !has_suffix(metadata_entry_path(), "globalgamemanagers"@),
        !has_suffix(lib_entry_path(abi), "globalgamemanagers"@),
{
    reveal_strlit("assets/bin/Data/Managed/Metadata/global-metadata.dat");
    reveal_strlit("lib/");
    reveal_strlit("/libil2cpp.so");
    reveal_strlit("globalgamemanagers");
    let m = metadata_entry_path();
    let l = lib_entry_path(abi);
    let g = "globalgamemanagers"@;
    assert(m.last() == 't');
    assert(l.last() == 'o');
    assert(g.last() == 's');
    if has_suffix(m, g) {
        assert(m.subrange(m.len() - g.len(), m.len() as int)[g.len() - 1] == m.last());
    }
    if has_suffix(l, g) {
        assert(l.subrange(l.len() - g.len(), l.len() as int)[g.len() - 1] == l.last());
    }
}

/// When every entry of an APK opens and reads, scanning it gives the contents of the
/// last entry at the metadata path, the contents of the last entry at
/// `lib/<abi>/libil2cpp.so`, and the Unity version found in the last entry whose
/// name ends with `globalgamemanagers`.
pub proof fn law_apk_last_entries(
    names: Seq<Option<Seq<char>>>,
    contents: Seq<Option<Seq<u8>>>,
    abi: Seq<char>,
    n: nat,
)
    requires
        n <= names.len(),
        n <= contents.len(),
        forall|i: int| 0 <= i < n ==> (#[trigger] names[i]) is Some && contents[i] is Some,
    ensures
        scan_entries(names, contents, abi, n) == Ok::<FoundModel, Error>(
            FoundModel {
                metadata: content_at(contents, last_entry_named(names, n, metadata_entry_path())),
                il2cpp: content_at(contents, last_entry_named(names, n, lib_entry_path(abi))),
                unity_version: match last_entry_ending(names, n, "globalgamemanagers"@) {
                    Some(i) => find_version_from(contents[i]->Some_0, 0),
                    None => None,
                },
            },
        ),
    decreases n,
{
    if n > 0 {
        law_apk_last_entries(names, contents, abi, (n - 1) as nat);
        lemma_entry_paths_apart(abi);
        assert(names[n - 1] is Some);
    }
}

/// What an APK whose entries all open and read gives: the last metadata entry, the
/// last binary for `abi`, and the version of the last `globalgamemanagers` entry,
/// unless it has none of the three, which is refused.
pub open spec fn apk_from_entries(
    names: Seq<Option<Seq<char>>>,
    contents: Seq<Option<Seq<u8>>>,
    abi: Seq<char>,
) -> Result<FoundModel, Error> {
    let f = FoundModel {
        metadata: content_at(contents, last_entry_named(names, names.len(), metadata_entry_path())),
        il2cpp: content_at(contents, last_entry_named(names, names.len(), lib_entry_path(abi))),
        unity_version: match last_entry_ending(names, names.len(), "globalgamemanagers"@) {
            Some(i) => find_version_from(contents[i]->Some_0, 0),
            None => None,
        },
    };
    if found_nothing(f) {
        Err(Error::ApkMissingInputs)
    } else {
        Ok(f)
    }
}

/// Reading an APK whose entries all open and read gives `apk_from_entries`.
pub proof fn law_inspect_apk_entries(bytes: Seq<u8>, abi: Seq<char>)
    ensures
        zip_layout(bytes) matches Some((names, contents)) ==> (names.len() == contents.len() && (
        forall|i: int| 0 <= i < names.len() ==> (#[trigger] names[i]) is Some && contents[i] is Some)
            ==> apk_result(bytes, abi) == apk_from_entries(names, contents, abi)),
{
    if let Some((names, contents)) = zip_layout(bytes) {
        if names.len() == contents.len() && (forall|i: int|
            0 <= i < names.len() ==> (#[trigger] names[i]) is Some && contents[i] is Some) {
            law_apk_last_entries(names, contents, abi, names.len());
        }
    }
}

/// Scans the entries of an opened APK for the IL2CPP inputs.
#[verifier::rlimit(30)]
fn inspect_archive(archive: &mut ZipArchive<Cursor<Vec<u8>>>, abi: &str) -> (r: Result<
    ExtractedInputs,
    Error,
>)
    ensures
        match scan_entries(
            zip_names(*old(archive)),
            zip_contents(*old(archive)),
            abi@,
            zip_names(*old(archive)).len(),
        ) {
            Err(e) => r == Err::<ExtractedInputs, Error>(e),
            Ok(f) => if found_nothing(f) {
                r == Err::<ExtractedInputs, Error>(Error::ApkMissingInputs)
            } else {
                r matches Ok(x) && holds_found(x, f)
            },
        },
{
    let ghost names = zip_names(*archive);
    let ghost contents = zip_contents(*archive);
    let n = zip_len(archive);
    let mut metadata: Option<Vec<u8>> = None;
    let mut il2cpp: Option<Vec<u8>> = None;
    let mut unity_version: Option<String> = None;
    let mut i: usize = 0;
    while i < n
        invariant
            i <= n,
            n == names.len(),
            n == contents.len(),
            names == zip_names(*old(archive)),
            contents == zip_contents(*old(archive)),
            zip_names(*archive) == names,
            zip_contents(*archive) == contents,
            scan_entries(names, contents, abi@, i as nat) == Ok::<FoundModel, Error>(
                FoundModel {
                    metadata: opt_bytes(metadata),
                    il2cpp: opt_bytes(il2cpp),
                    unity_version: crate::packets::opt_view(unity_version),
                },
            ),
        decreases n - i,
    {
        let name = match zip_entry_name(archive, i) {
            Ok(v) => v,
            Err(_) => {
                proof {
                    lemma_scan_error_stays(names, contents, abi@, (i + 1) as nat, n as nat);
                }
                return Err(Error::ZipEntry);
            },
        };
        let kind = entry_kind(&name, abi);
        match kind {
            EntryKind::Other => {},
            _ => {
                let b = match zip_entry_read(archive, i) {
                    Ok(v) => v,
                    Err(_) => {
                        proof {
                            lemma_scan_error_stays(names, contents, abi@, (i + 1) as nat, n as nat);
                        }
                        return Err(Error::ZipEntry);
                    },
                };
                match kind {
                    EntryKind::Metadata => {
                        metadata = Some(b);
                    },
                    EntryKind::Il2cpp => {
                        il2cpp = Some(b);
                    },
                    _ => {
                        unity_version = find_unity_version(b.as_slice());
                    },
                }
            },
        }
        i = i + 1;
    }
    if metadata.is_none() && il2cpp.is_none() && unity_version.is_none() {
        return Err(Error::ApkMissingInputs);
    }
    let metadata = match metadata {
        Some(m) => m,
        None => Vec::new(),
    };
    Ok(ExtractedInputs { metadata, il2cpp, unity_version })
}

/// Extracts the IL2CPP metadata, binary and Unity version from an APK.
pub fn inspect_apk(bytes: Vec<u8>, abi: &str) -> (r: Result<ExtractedInputs, Error>)
    ensures
        match apk_result(bytes@, abi@) {
            Ok(f) => r matches Ok(x) && holds_found(x, f),
            Err(e) => r == Err::<ExtractedInputs, Error>(e),
        },
{
    let mut archive = match zip_open(bytes) {
        Ok(a) => a,
        Err(_) => return Err(Error::OpenApk),
    };
    inspect_archive(&mut archive, abi)
}

/// What an XAPK keeps of one of its APKs: each input from the first APK that has it,
/// the metadata only when it is not empty.
pub open spec fn merge_found(g: FoundModel, f: FoundModel) -> FoundModel {
    FoundModel {
        metadata: if g.metadata is None && (f.metadata matches Some(m) && m.len() > 0) {
            f.metadata
        } else {
            g.metadata
        },
        il2cpp: if g.il2cpp is None {
            f.il2cpp
        } else {
            g.il2cpp
        },
        unity_version: if g.unity_version is None {
            f.unity_version
        } else {
            g.unity_version
        },
    }
}

/// What the first `n` entries of an XAPK give: every entry named `*.apk` is read as
/// an APK, and those that do not read as one are passed over. Reading stops at an
/// entry that does not open, or an APK entry that does not read.
pub open spec fn xapk_scan(
    names: Seq<Option<Seq<char>>>,
    contents: Seq<Option<Seq<u8>>>,
    abi: Seq<char>,
    n: nat,
) -> Result<FoundModel, Error>
    decreases n,
{
    if n == 0 {
        Ok(found_none())
    } else {
        match xapk_scan(names, contents, abi, (n - 1) as nat) {
            Err(e) => Err(e),
            Ok(g) => match names[n - 1] {
                None => Err(Error::ZipEntry),
                Some(name) => if !has_suffix(name, ".apk"@) {
                    Ok(g)
                } else {
                    match contents[n - 1] {
                        None => Err(Error::ZipEntry),
                        Some(c) => match apk_result(c, abi) {
                            Ok(f) => Ok(merge_found(g, f)),
                            Err(_) => Ok(g),
                        },
                    }
                },
            },
        }
    }
}

/// What reading the XAPK in `bytes` gives: the inputs of its APKs, or why it fails.
pub open spec fn xapk_result(bytes: Seq<u8>, abi: Seq<char>) -> Result<FoundModel, Error> {
    match zip_layout(bytes) {
        None => Err(Error::OpenXapk),
        Some((names, contents)) => match xapk_scan(names, contents, abi, names.len()) {
            Err(e) => Err(e),
            Ok(g) => if g.metadata is None {
                Err(Error::XapkMissingMetadata)
            } else {
                Ok(g)
            },
        },
    }
}

/// What reading the container in `bytes` gives, as an APK when `is_apk` and as an
/// XAPK otherwise.
pub open spec fn extract_result(bytes: Seq<u8>, is_apk: bool, abi: Seq<char>) -> Result<
    FoundModel,
    Error,
> {
    if is_apk {
        apk_result(bytes, abi)
    } else {
        xapk_result(bytes, abi)
    }
}

/// What entry `i` of an XAPK gives as an APK: the inputs of an entry named `*.apk` that
/// reads as an APK, `None` for any other entry.
pub open spec fn apk_at(
    names: Seq<Option<Seq<char>>>,
    contents: Seq<Option<Seq<u8>>>,
    abi: Seq<char>,
    i: int,
) -> Option<FoundModel> {
    match names[i] {
        Some(name) => if has_suffix(name, ".apk"@) {
            match contents[i] {
                Some(c) => match apk_result(c, abi) {
                    Ok(f) => Some(f),
                    Err(_) => None,
                },
                None => None,
            }
        } else {
            None
        },
        None => None,
    }
}

/// Whether entry `i` of an XAPK is an APK with non-empty metadata.
pub open spec fn gives_metadata(
    names: Seq<Option<Seq<char>>>,
    contents: Seq<Option<Seq<u8>>>,
    abi: Seq<char>,
    i: int,
) -> bool {
    apk_at(names, contents, abi, i) matches Some(f) && (f.metadata matches Some(m) && m.len() > 0)
}

/// Whether entry `i` of an XAPK is an APK with a binary.
pub open spec fn gives_il2cpp(
    names: Seq<Option<Seq<char>>>,
    contents: Seq<Option<Seq<u8>>>,
    abi: Seq<char>,
    i: int,
) -> bool {
    apk_at(names, contents, abi, i) matches Some(f) && f.il2cpp is Some
}

/// Whether entry `i` of an XAPK is an APK with a Unity version.
pub open spec fn gives_version(
    names: Seq<Option<Seq<char>>>,
    contents: Seq<Option<Seq<u8>>>,
    abi: Seq<char>,
    i: int,
) -> bool {
    apk_at(names, contents, abi, i) matches Some(f) && f.unity_version is Some
}

/// When the entries of an XAPK open and its `*.apk` entries read, the first `n`
/// entries give the metadata of the first APK among them with non-empty metadata,
/// the binary of the first APK with a binary and the version of the first APK with a
/// version; APK entries that do not read as APKs are passed over.
pub proof fn law_xapk_first_apks(
    names: Seq<Option<Seq<char>>>,
    contents: Seq<Option<Seq<u8>>>,
    abi: Seq<char>,
    n: nat,
)
    requires
        n <= names.len(),
        n <= contents.len(),
        forall|i: int|
            0 <= i < n ==> ((#[trigger] names[i]) matches Some(name) && (has_suffix(name, ".apk"@)
                ==> contents[i] is Some)),
    ensures
        xapk_scan(names, contents, abi, n) matches Ok(g) && ({
            &&& (g.metadata is None <==> forall|i: int|
                0 <= i < n ==> !#[trigger] gives_metadata(names, contents, abi, i))
            &&& (g.metadata is Some ==> exists|i: int|
                0 <= i < n && #[trigger] gives_metadata(names, contents, abi, i)
                    && g.metadata == apk_at(names, contents, abi, i)->Some_0.metadata
                    && forall|j: int| 0 <= j < i ==> !#[trigger] gives_metadata(names, contents, abi, j))
            &&& (g.il2cpp is None <==> forall|i: int|
                0 <= i < n ==> !#[trigger] gives_il2cpp(names, contents, abi, i))
            &&& (g.il2cpp is Some ==> exists|i: int|
                0 <= i < n && #[trigger] gives_il2cpp(names, contents, abi, i)
                    && g.il2cpp == apk_at(names, contents, abi, i)->Some_0.il2cpp
                    && forall|j: int| 0 <= j < i ==> !#[trigger] gives_il2cpp(names, contents, abi, j))
            &&& (g.unity_version is None <==> forall|i: int|
                0 <= i < n ==> !#[trigger] gives_version(names, contents, abi, i))
            &&& (g.unity_version is Some ==> exists|i: int|
                0 <= i < n && #[trigger] gives_version(names, contents, abi, i)
                    && g.unity_version == apk_at(names, contents, abi, i)->Some_0.unity_version
                    && forall|j: int| 0 <= j < i ==> !#[trigger] gives_version(names, contents, abi, j))
        }),
    decreases n,
{
    if n > 0 {
        let k = n - 1;
        law_xapk_first_apks(names, contents, abi, (n - 1) as nat);
        let g = xapk_scan(names, contents, abi, (n - 1) as nat)->Ok_0;
        let h = xapk_scan(names, contents, abi, n)->Ok_0;
        assert(names[k] is Some);
        if let Some(f) = apk_at(names, contents, abi, k) {
            assert(h == merge_found(g, f));
        } else {
            assert(h == g);
        }
        if g.metadata is Some {
            let i = choose|i: int|
                0 <= i < n - 1 && #[trigger] gives_metadata(names, contents, abi, i)
                    && g.metadata == apk_at(names, contents, abi, i)->Some_0.metadata
                    && forall|j: int| 0 <= j < i ==> !#[trigger] gives_metadata(names, contents, abi, j);
            assert(h.metadata == g.metadata);
            assert(gives_metadata(names, contents, abi, i));
        } else if gives_metadata(names, contents, abi, k) {
            assert(h.metadata == apk_at(names, contents, abi, k)->Some_0.metadata);
        } else {
            assert(h.metadata is None);
        }
        if g.il2cpp is Some {
            let i = choose|i: int|
                0 <= i < n - 1 && #[trigger] gives_il2cpp(names, contents, abi, i)
                    && g.il2cpp == apk_at(names, contents, abi, i)->Some_0.il2cpp
                    && forall|j: int| 0 <= j < i ==> !#[trigger] gives_il2cpp(names, contents, abi, j);
            assert(h.il2cpp == g.il2cpp);
            assert(gives_il2cpp(names, contents, abi, i));
        } else if gives_il2cpp(names, contents, abi, k) {
            assert(h.il2cpp == apk_at(names, contents, abi, k)->Some_0.il2cpp);
        } else {
            assert(h.il2cpp is None);
        }
        if g.unity_version is Some {
            let i = choose|i: int|
                0 <= i < n - 1 && #[trigger] gives_version(names, contents, abi, i)
                    && g.unity_version == apk_at(names, contents, abi, i)->Some_0.unity_version
                    && forall|j: int| 0 <= j < i ==> !#[trigger] gives_version(names, contents, abi, j);
            assert(h.unity_version == g.unity_version);
            assert(gives_version(names, contents, abi, i));
        } else if gives_version(names, contents, abi, k) {
            assert(h.unity_version == apk_at(names, contents, abi, k)->Some_0.unity_version);
        } else {
            assert(h.unity_version is None);
        }
    }
}

/// When the entries of an XAPK open and its `*.apk` entries read, reading it succeeds
/// exactly when one of its APKs has non-empty metadata, and then gives what
/// `law_xapk_first_apks` describes.
pub proof fn law_extract_xapk_entries(bytes: Seq<u8>, abi: Seq<char>)
    ensures
        zip_layout(bytes) matches Some((names, contents)) ==> (names.len() == contents.len() && (
        forall|i: int|
            0 <= i < names.len() ==> ((#[trigger] names[i]) matches Some(name) && (has_suffix(
                name,
                ".apk"@,
            ) ==> contents[i] is Some))) ==> {
            &&& (xapk_result(bytes, abi) is Ok <==> exists|i: int|
                0 <= i < names.len() && #[trigger] gives_metadata(names, contents, abi, i))
            &&& (xapk_result(bytes, abi) matches Ok(g) ==> xapk_scan(names, contents, abi, names.len())
                == Ok::<FoundModel, Error>(g))
        }),
{
    if let Some((names, contents)) = zip_layout(bytes) {
        if names.len() == contents.len() && (forall|i: int|
            0 <= i < names.len() ==> ((#[trigger] names[i]) matches Some(name) && (has_suffix(
                name,
                ".apk"@,
            ) ==> contents[i] is Some))) {
            law_xapk_first_apks(names, contents, abi, names.len());
        }
    }
}

/// Once reading an XAPK's entries stops at an error, later entries do not change it.
proof fn lemma_xapk_error_stays(
    names: Seq<Option<Seq<char>>>,
    contents: Seq<Option<Seq<u8>>>,
    abi: Seq<char>,
    i: nat,
    n: nat,
)
    requires
        i <= n,
        xapk_scan(names, contents, abi, i) is Err,
    ensures
        xapk_scan(names, contents, abi, n) == xapk_scan(names, contents, abi, i),
    decreases n,
{
    if n > i {
        lemma_xapk_error_stays(names, contents, abi, i, (n - 1) as nat);
    }
}

/// The inputs gathered from the APKs of an XAPK so far.
#[derive(Debug)]
pub struct Gathered {
    pub metadata: Option<Vec<u8>>,
    pub il2cpp: Option<Vec<u8>>,
    pub unity_version: Option<String>,
}

impl Gathered {
    /// What has been gathered.
    pub open spec fn found(&self) -> FoundModel {
        FoundModel {
            metadata: opt_bytes(self.metadata),
            il2cpp: opt_bytes(self.il2cpp),
            unity_version: crate::packets::opt_view(self.unity_version),
        }
    }
}

/// Adds what one APK of an XAPK holds: each input is kept from the first APK that
/// has it (the metadata only when it is not empty).
fn merge_inputs(g: &mut Gathered, found: ExtractedInputs, Ghost(f): Ghost<FoundModel>)
    requires
        holds_found(found, f),
    ensures
        final(g).found() == merge_found(old(g).found(), f),
{
    if g.metadata.is_none() && found.metadata.len() > 0 {
        g.metadata = Some(found.metadata);
    }
    if g.il2cpp.is_none() {
        g.il2cpp = found.il2cpp;
    }
    if g.unity_version.is_none() {
        g.unity_version = found.unity_version;
    }
}

/// Extracts the IL2CPP inputs from the bytes of an APK (`is_apk`) or of an XAPK,
/// whose `.apk` entries are inspected in order.
#[verifier::rlimit(30)]
pub fn extract_from_bytes(bytes: Vec<u8>, is_apk: bool, abi: &str) -> (r: Result<
    ExtractedInputs,
    Error,
>)
    ensures
        match extract_result(bytes@, is_apk, abi@) {
            Ok(f) => r matches Ok(x) && holds_found(x, f),
            Err(e) => r == Err::<ExtractedInputs, Error>(e),
        },
{
    if is_apk {
        return inspect_apk(bytes, abi);
    }
    let ghost input = bytes@;
    let mut outer = match zip_open(bytes) {
        Ok(a) => a,
        Err(_) => return Err(Error::OpenXapk),
    };
    let ghost names = zip_names(outer);
    let ghost contents = zip_contents(outer);
    let mut g = Gathered { metadata: None, il2cpp: None, unity_version: None };
    let n = zip_len(&outer);
    let suffix = crate::text::chars_of(".apk");
    let mut i: usize = 0;
    while i < n
        invariant
            i <= n,
            n == names.len(),
            n == contents.len(),
            zip_names(outer) == names,
            zip_contents(outer) == contents,
            suffix@ == ".apk"@,
            !is_apk,
            input == bytes@,
            zip_layout(input) == Some((names, contents)),
            xapk_scan(names, contents, abi@, i as nat) == Ok::<FoundModel, Error>(g.found()),
        decreases n - i,
    {
        let name = match zip_entry_name(&mut outer, i) {
            Ok(v) => v,
            Err(_) => {
                proof {
                    lemma_xapk_error_stays(names, contents, abi@, (i + 1) as nat, n as nat);
                }
                return Err(Error::ZipEntry);
            },
        };
        let cs = crate::text::chars_of(name.as_str());
        if crate::text::strip_suffix(cs.as_slice(), suffix.as_slice()).is_some() {
            let apk = match zip_entry_read(&mut outer, i) {
                Ok(v) => v,
                Err(_) => {
                    proof {
                        lemma_xapk_error_stays(names, contents, abi@, (i + 1) as nat, n as nat);
                    }
                    return Err(Error::ZipEntry);
                },
            };
            let ghost c = apk@;
            match inspect_apk(apk, abi) {
                Ok(found) => merge_inputs(&mut g, found, Ghost(apk_result(c, abi@)->Ok_0)),
                Err(_) => {},
            }
        }
        i = i + 1;
    }
    match g.metadata {
        Some(metadata) => Ok(
            ExtractedInputs { metadata, il2cpp: g.il2cpp, unity_version: g.unity_version },
        ),
        None => Err(Error::XapkMissingMetadata),
    }
}

} // verus!
