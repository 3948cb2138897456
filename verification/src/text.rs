//! Character-level helpers for the library's text handling.
use vstd::prelude::*;

verus! {

broadcast use vstd::string::group_string_axioms;

/// The characters of `s`, in order.
pub fn chars_of(s: &str) -> (v: Vec<char>)
    ensures
        v@ == s@,
{
    let mut v: Vec<char> = Vec::new();
    for c in it: s.chars()
        invariant
            v@ == it.seq().take(it.index() as int),
    {
        v.push(c);
    }
    assert(v@ =~= s@);
    v
}

/// Appends `c` to `s`.
/// Trusted: calls `String::push`, which the standard library documents as
/// appending the given char to the end of the string.
#[verifier::external_body]
pub(crate) fn push_char(s: &mut String, c: char)
    ensures
        final(s)@ == old(s)@.push(c),
{
    s.push(c);
}

/// The string whose characters are `cs`.
pub fn string_from_chars(cs: &[char]) -> (s: String)
    ensures
        s@ == cs@,
{
    let mut s = String::new();
    let mut i: usize = 0;
    while i < cs.len()
        invariant
            i <= cs.len(),
            s@ == cs@.take(i as int),
        decreases cs.len() - i,
    {
        push_char(&mut s, cs[i]);
        i = i + 1;
        assert(s@ =~= cs@.take(i as int));
    }
    assert(cs@.take(cs.len() as int) =~= cs@);
    s
}

/// `text` followed by `tail`.
pub fn append_chars(text: &mut String, tail: &[char])
    ensures
        final(text)@ == old(text)@ + tail@,
{
    let ghost start = text@;
    let mut i: usize = 0;
    while i < tail.len()
        invariant
            i <= tail.len(),
            text@ == start + tail@.take(i as int),
        decreases tail.len() - i,
    {
        push_char(text, tail[i]);
        i = i + 1;
        assert(text@ =~= start + tail@.take(i as int));
    }
    assert(tail@.take(tail.len() as int) =~= tail@);
}

/// The string `s` decodes to when its bytes are well-formed UTF-8.
/// Trusted: calls `std::str::from_utf8`, which the standard library documents as
/// succeeding exactly on well-formed UTF-8 and giving the string those bytes encode.
#[verifier::external_body]
pub(crate) fn utf8_decode(bytes: &[u8]) -> (r: Option<String>)
    ensures
        r is Some <==> vstd::utf8::valid_utf8(bytes@),
        r matches Some(s) ==> s@ == vstd::utf8::decode_utf8(bytes@),
{
    match std::str::from_utf8(bytes) {
        Ok(s) => Some(s.to_owned()),
        Err(_) => None,
    }
}

/// What `String::from_utf8_lossy` gives for the bytes `bytes`.
pub uninterp spec fn lossy_utf8(bytes: Seq<u8>) -> Seq<char>;

/// The bytes decoded as UTF-8, each ill-formed sequence replaced by U+FFFD.
/// Trusted: calls `String::from_utf8_lossy`. Its result is named `lossy_utf8` of the
/// bytes; the standard library documents that well-formed UTF-8 decodes unchanged.
/// How ill-formed sequences are split into replacement characters is left unsaid.
#[verifier::external_body]
pub(crate) fn utf8_lossy(bytes: &[u8]) -> (s: String)
    ensures
        s@ == lossy_utf8(bytes@),
        vstd::utf8::valid_utf8(bytes@) ==> s@ == vstd::utf8::decode_utf8(bytes@),
{
    String::from_utf8_lossy(bytes).into_owned()
}

/// Whether `a` and `b` hold the same characters.
pub fn str_eq(a: &str, b: &str) -> (r: bool)
    ensures
        r == (a@ == b@),
{
    a.to_owned() == b.to_owned()
}

/// What `char::to_lowercase` yields for `c`.
pub uninterp spec fn char_lowercase(c: char) -> Seq<char>;

/// Whether `c` is an ASCII uppercase letter.
pub open spec fn is_ascii_upper(c: char) -> bool {
    'A' <= c && c <= 'Z'
}

/// Whether `c` is an ASCII lowercase letter.
pub open spec fn is_ascii_lower(c: char) -> bool {
    'a' <= c && c <= 'z'
}

/// Whether `c` is an ASCII digit.
pub open spec fn is_ascii_digit(c: char) -> bool {
    '0' <= c && c <= '9'
}

/// Whether `c` is an ASCII letter or digit.
pub open spec fn is_ascii_alnum(c: char) -> bool {
    is_ascii_upper(c) || is_ascii_lower(c) || is_ascii_digit(c)
}

/// The ASCII lowercase form of `c`: uppercase ASCII letters lowered, all else kept.
pub open spec fn ascii_lower(c: char) -> char {
    if is_ascii_upper(c) {
        ((c as u32) + 32) as char
    } else {
        c
    }
}

/// The lowercase mapping of `c`.
/// Trusted: calls `char::to_lowercase` and collects what it yields. The result is
/// named `char_lowercase(c)`; the documented ASCII cases are stated (an uppercase
/// ASCII letter maps to its lowercase letter, any other ASCII character to itself).
/// What a non-ASCII character maps to is left to Unicode's tables.
#[verifier::external_body]
pub(crate) fn lowercase_of(c: char) -> (s: String)
    ensures
        s@ == char_lowercase(c),
        (c as u32) < 128 ==> s@ == seq![ascii_lower(c)],
{
    c.to_lowercase().collect()
}

/// `s` with its first character lowercased.
/// An ASCII first character is lowered by `ascii_lower`; any other maps as
/// `char::to_lowercase` maps it.
pub open spec fn lower_first_spec(s: Seq<char>) -> Seq<char> {
    if s.len() == 0 {
        Seq::empty()
    } else if (s[0] as u32) < 128 {
        seq![ascii_lower(s[0])] + s.drop_first()
    } else {
        char_lowercase(s[0]) + s.drop_first()
    }
}

/// `s` with its first character lowercased.
pub fn lower_first(s: &str) -> (r: String)
    ensures
        r@ == lower_first_spec(s@),
        s@.len() > 0 && (s@[0] as u32) < 128 ==> r@ == seq![ascii_lower(s@[0])] + s@.drop_first(),
{
    let cs = chars_of(s);
    if cs.len() == 0 {
        return String::new();
    }
    let mut r = lowercase_of(cs[0]);
    let tail = cs.as_slice().split_at(1).1;
    append_chars(&mut r, tail);
    assert(tail@ =~= s@.drop_first());
    r
}

/// `s` without the suffix `suffix`, when it ends with it.
pub open spec fn strip_suffix_spec(s: Seq<char>, suffix: Seq<char>) -> Option<Seq<char>> {
    if s.len() >= suffix.len() && s.subrange(s.len() - suffix.len(), s.len() as int) == suffix {
        Some(s.take(s.len() - suffix.len()))
    } else {
        None
    }
}

/// `s` without the suffix `suffix`, when it ends with it.
pub fn strip_suffix(s: &[char], suffix: &[char]) -> (r: Option<Vec<char>>)
    ensures
        match strip_suffix_spec(s@, suffix@) {
            Some(t) => r matches Some(v) && v@ == t,
            None => r is None,
        },
{
    if s.len() < suffix.len() {
        return None;
    }
    let off = s.len() - suffix.len();
    let mut i: usize = 0;
    while i < suffix.len()
        invariant
            off + suffix.len() == s.len(),
            i <= suffix.len(),
            forall|j: int| 0 <= j < i ==> s@[off + j] == suffix@[j],
        decreases suffix.len() - i,
    {
        if s[off + i] != suffix[i] {
            assert(s@.subrange(off as int, s.len() as int)[i as int] != suffix@[i as int]);
            return None;
        }
        i = i + 1;
    }
    assert(s@.subrange(off as int, s.len() as int) =~= suffix@);
    let mut v: Vec<char> = Vec::new();
    let mut k: usize = 0;
    while k < off
        invariant
            k <= off <= s.len(),
            v@ == s@.take(k as int),
        decreases off - k,
    {
        v.push(s[k]);
        k = k + 1;
        assert(v@ =~= s@.take(k as int));
    }
    Some(v)
}

/// Whether `s` starts with `prefix`.
pub open spec fn has_prefix(s: Seq<char>, prefix: Seq<char>) -> bool {
    s.len() >= prefix.len() && s.take(prefix.len() as int) == prefix
}

/// Whether `s` starts with `prefix`.
pub fn starts_with(s: &[char], prefix: &[char]) -> (b: bool)
    ensures
        b == has_prefix(s@, prefix@),
{
    if s.len() < prefix.len() {
        return false;
    }
    let mut i: usize = 0;
    while i < prefix.len()
        invariant
            prefix.len() <= s.len(),
            i <= prefix.len(),
            forall|j: int| 0 <= j < i ==> s@[j] == prefix@[j],
        decreases prefix.len() - i,
    {
        if s[i] != prefix[i] {
            assert(s@.take(prefix.len() as int)[i as int] != prefix@[i as int]);
            return false;
        }
        i = i + 1;
    }
    assert(s@.take(prefix.len() as int) =~= prefix@);
    true
}

/// Whether `s` ends with `suffix`.
pub open spec fn has_suffix(s: Seq<char>, suffix: Seq<char>) -> bool {
    s.len() >= suffix.len() && s.subrange(s.len() - suffix.len(), s.len() as int) == suffix
}

/// Whether `a` orders strictly before `b` byte by byte, a proper prefix first.
pub open spec fn bytes_lt(a: Seq<u8>, b: Seq<u8>) -> bool
    decreases a.len(),
{
    if a.len() == 0 {
        b.len() > 0
    } else if b.len() == 0 {
        false
    } else if a[0] != b[0] {
        a[0] < b[0]
    } else {
        bytes_lt(a.drop_first(), b.drop_first())
    }
}

/// Whether `a` orders strictly before `b` byte by byte.
pub fn lex_less(a: &[u8], b: &[u8]) -> (r: bool)
    ensures
        r == bytes_lt(a@, b@),
{
    let mut i: usize = 0;
    assert(a@.skip(0) =~= a@);
    assert(b@.skip(0) =~= b@);
    while i < a.len() && i < b.len()
        invariant
            i <= a.len(),
            i <= b.len(),
            bytes_lt(a@, b@) == bytes_lt(a@.skip(i as int), b@.skip(i as int)),
        decreases a.len() - i,
    {
        if a[i] != b[i] {
            return a[i] < b[i];
        }
        assert(a@.skip(i as int).drop_first() =~= a@.skip(i + 1));
        assert(b@.skip(i as int).drop_first() =~= b@.skip(i + 1));
        i = i + 1;
    }
    i < b.len()
}

} // verus!
