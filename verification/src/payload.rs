//! Reading a protobuf payload written as hexadecimal text.
use hex::FromHexError;
use vstd::prelude::*;
use crate::error::Error;
use crate::text::is_ascii_digit;
use crate::wire::{hex_digit, hex_lower};

verus! {

#[verifier::external_type_specification]
#[verifier::external_body]
pub struct ExFromHexError(FromHexError);

/// Whether `c` has Unicode's White_Space property: tab, line feed, vertical tab,
/// form feed, carriage return, space, U+0085, U+00A0, U+1680, U+2000 to U+200A,
/// U+2028, U+2029, U+202F, U+205F and U+3000.
pub open spec fn white_space(c: char) -> bool {
    let n = c as u32;
    ||| 0x09 <= n <= 0x0d
    ||| n == 0x20
    ||| n == 0x85
    ||| n == 0xa0
    ||| n == 0x1680
    ||| 0x2000 <= n <= 0x200a
    ||| n == 0x2028
    ||| n == 0x2029
    ||| n == 0x202f
    ||| n == 0x205f
    ||| n == 0x3000
}

/// Whether `c` is white space, as `char::is_whitespace` tells it.
fn is_white(c: char) -> (b: bool)
    ensures
        b == white_space(c),
{
    let n = c as u32;
    (0x09 <= n && n <= 0x0d) || n == 0x20 || n == 0x85 || n == 0xa0 || n == 0x1680 || (0x2000 <= n
        && n <= 0x200a) || n == 0x2028 || n == 0x2029 || n == 0x202f || n == 0x205f || n == 0x3000
}

/// `s` without its leading white space.
pub open spec fn trim_start_spec(s: Seq<char>) -> Seq<char>
    decreases s.len(),
{
    if s.len() > 0 && white_space(s[0]) {
        trim_start_spec(s.drop_first())
    } else {
        s
    }
}

/// `s` without its trailing white space.
pub open spec fn trim_end_spec(s: Seq<char>) -> Seq<char>
    decreases s.len(),
{
    if s.len() > 0 && white_space(s.last()) {
        trim_end_spec(s.drop_last())
    } else {
        s
    }
}

/// `s` without any number of leading `0x`.
pub open spec fn strip_hex_prefixes(s: Seq<char>) -> Seq<char>
    decreases s.len(),
{
    if s.len() >= 2 && s[0] == '0' && s[1] == 'x' {
        strip_hex_prefixes(s.skip(2))
    } else {
        s
    }
}

/// Whether `c` is kept in a hexadecimal payload: separators (white space, `:` and
/// `-`) are dropped.
pub open spec fn kept_in_payload(c: char) -> bool {
    !white_space(c) && c != ':' && c != '-'
}

/// The characters of `s` that are kept in a payload, in order.
pub open spec fn keep_payload_chars(s: Seq<char>) -> Seq<char>
    decreases s.len(),
{
    if s.len() == 0 {
        Seq::empty()
    } else if kept_in_payload(s.last()) {
        keep_payload_chars(s.drop_last()).push(s.last())
    } else {
        keep_payload_chars(s.drop_last())
    }
}

/// The hexadecimal digits of a typed payload: trimmed, without leading `0x`, and
/// without separators.
pub open spec fn clean_payload(s: Seq<char>) -> Seq<char> {
    keep_payload_chars(strip_hex_prefixes(trim_end_spec(trim_start_spec(s))))
}

/// Whether `c` is a hexadecimal digit of either case.
pub open spec fn is_hex_digit(c: char) -> bool {
    is_ascii_digit(c) || ('a' <= c && c <= 'f') || ('A' <= c && c <= 'F')
}

/// The value of the hexadecimal digit `c`.
pub open spec fn hex_value(c: char) -> int {
    if is_ascii_digit(c) {
        c as int - 48
    } else if 'a' <= c && c <= 'f' {
        c as int - 87
    } else {
        c as int - 55
    }
}

/// Whether `s` is an even number of hexadecimal digits.
pub open spec fn is_hex_text(s: Seq<char>) -> bool {
    s.len() % 2 == 0 && forall|i: int| 0 <= i < s.len() ==> #[trigger] is_hex_digit(s[i])
}

/// The bytes that the digit pairs of `s` spell, high nibble first.
pub open spec fn hex_bytes(s: Seq<char>) -> Seq<u8> {
    Seq::new(s.len() / 2, |i: int| (16 * hex_value(s[2 * i]) + hex_value(s[2 * i + 1])) as u8)
}

/// The bytes that the hexadecimal text `s` spells.
/// Trusted: calls `hex::decode`, which fails on an odd length or a byte that is not a
/// hexadecimal digit of either case, and otherwise turns each pair of digits into one
/// byte, high nibble first.
#[verifier::external_body]
fn hex_decode(s: &str) -> (r: Result<Vec<u8>, FromHexError>)
    ensures
        r is Ok <==> is_hex_text(s@),
        r matches Ok(v) ==> v@ == hex_bytes(s@),
{
    hex::decode(s)
}

/// Reads a payload typed as hexadecimal text: white space around it and any number
/// of leading `0x` are dropped, and so are white space, `:` and `-` inside it.
pub fn parse_hex_payload(input: &str) -> (r: Result<Vec<u8>, Error>)
    ensures
        is_hex_text(clean_payload(input@)) ==> (r matches Ok(v) && v@ == hex_bytes(
            clean_payload(input@),
        )),
        !is_hex_text(clean_payload(input@)) ==> r == Err::<Vec<u8>, Error>(Error::InvalidHex),
{
    let cs = crate::text::chars_of(input);
    let ghost s = input@;
    let n = cs.len();
    let mut i: usize = 0;
    assert(s.skip(0) =~= s);
    while i < n && is_white(cs[i])
        invariant
            i <= n == s.len(),
            cs@ == s,
            trim_start_spec(s) == trim_start_spec(s.skip(i as int)),
        decreases n - i,
    {
        assert(s.skip(i as int).drop_first() =~= s.skip(i + 1));
        i = i + 1;
    }
    assert(trim_start_spec(s) == s.skip(i as int));
    assert(s.skip(i as int) =~= s.subrange(i as int, n as int));
    let mut j: usize = n;
    while j > i && is_white(cs[j - 1])
        invariant
            i <= j <= n == s.len(),
            cs@ == s,
            trim_end_spec(s.subrange(i as int, n as int)) == trim_end_spec(
                s.subrange(i as int, j as int),
            ),
        decreases j - i,
    {
        assert(s.subrange(i as int, j as int).drop_last() =~= s.subrange(i as int, j - 1));
        j = j - 1;
    }
    let mut k: usize = i;
    while j - k >= 2 && cs[k] == '0' && cs[k + 1] == 'x'
        invariant
            i <= k <= j <= n == s.len(),
            cs@ == s,
            strip_hex_prefixes(s.subrange(i as int, j as int)) == strip_hex_prefixes(
                s.subrange(k as int, j as int),
            ),
        decreases j - k,
    {
        assert(s.subrange(k as int, j as int).skip(2) =~= s.subrange(k + 2, j as int));
        k = k + 2;
    }
    proof {
        let t = s.subrange(k as int, j as int);
        if t.len() >= 2 {
            assert(t[0] == cs@[k as int] && t[1] == cs@[k + 1]);
        }
        assert(strip_hex_prefixes(t) == t);
    }
    let mut out: Vec<char> = Vec::new();
    let mut m: usize = k;
    while m < j
        invariant
            k <= m <= j <= n == s.len(),
            cs@ == s,
            out@ == keep_payload_chars(s.subrange(k as int, m as int)),
        decreases j - m,
    {
        let c = cs[m];
        assert(s.subrange(k as int, m + 1).drop_last() =~= s.subrange(k as int, m as int));
        assert(s.subrange(k as int, m + 1).last() == c);
        if !is_white(c) && c != ':' && c != '-' {
            out.push(c);
        }
        m = m + 1;
    }
    assert(clean_payload(s) == out@);
    let text = crate::text::string_from_chars(out.as_slice());
    match hex_decode(text.as_str()) {
        Ok(v) => Ok(v),
        Err(_) => Err(Error::InvalidHex),
    }
}

/// The shape of `hex_lower(bytes)`: two digits per byte, high nibble first.
proof fn lemma_hex_lower_shape(bytes: Seq<u8>)
    ensures
        hex_lower(bytes).len() == 2 * bytes.len(),
        forall|i: int|
            0 <= i < bytes.len() ==> hex_lower(bytes)[2 * i] == hex_digit(bytes[i] as int / 16)
                && hex_lower(bytes)[2 * i + 1] == hex_digit(bytes[i] as int % 16),
    decreases bytes.len(),
{
    if bytes.len() > 0 {
        let rest = bytes.drop_first();
        lemma_hex_lower_shape(rest);
        let h = hex_lower(bytes);
        let t = hex_lower(rest);
        assert forall|i: int| 0 <= i < bytes.len() implies h[2 * i] == hex_digit(
            bytes[i] as int / 16,
        ) && h[2 * i + 1] == hex_digit(bytes[i] as int % 16) by {
            if i > 0 {
                assert(bytes[i] == rest[i - 1]);
                assert(h[2 * i] == t[2 * (i - 1)]);
                assert(h[2 * i + 1] == t[2 * (i - 1) + 1]);
            }
        }
    }
}

/// The digit `hex_digit(n)` of a nibble `n`.
proof fn lemma_hex_digit(n: int)
    requires
        0 <= n < 16,
    ensures
        n < 10 ==> hex_digit(n) as int == 48 + n,
        n >= 10 ==> hex_digit(n) as int == 87 + n,
        is_hex_digit(hex_digit(n)),
        hex_value(hex_digit(n)) == n,
{
}

/// Every character of `s` is kept in a payload.
proof fn lemma_keep_all(s: Seq<char>)
    requires
        forall|i: int| 0 <= i < s.len() ==> #[trigger] kept_in_payload(s[i]),
    ensures
        keep_payload_chars(s) == s,
    decreases s.len(),
{
    if s.len() > 0 {
        let t = s.drop_last();
        assert forall|i: int| 0 <= i < t.len() implies #[trigger] kept_in_payload(t[i]) by {
            assert(t[i] == s[i]);
        }
        lemma_keep_all(t);
        assert(kept_in_payload(s[s.len() - 1]));
        assert(t.push(s.last()) =~= s);
    }
}

/// The hexadecimal text that the wire decoder shows for a length-delimited payload
/// reads back, through `parse_hex_payload`, as the same bytes.
pub proof fn law_hex_payload_roundtrip(bytes: Seq<u8>)
    ensures
        clean_payload(hex_lower(bytes)) == hex_lower(bytes),
        is_hex_text(hex_lower(bytes)),
        hex_bytes(hex_lower(bytes)) == bytes,
{
    let h = hex_lower(bytes);
    lemma_hex_lower_shape(bytes);
    assert forall|i: int| 0 <= i < h.len() implies #[trigger] is_hex_digit(h[i]) && !white_space(
        h[i],
    ) && h[i] != ':' && h[i] != '-' && h[i] != 'x' by {
        let k = i / 2;
        assert(0 <= k < bytes.len());
        let b = bytes[k] as int;
        assert(0 <= b / 16 < 16 && 0 <= b % 16 < 16);
        lemma_hex_digit(b / 16);
        lemma_hex_digit(b % 16);
        if i % 2 == 0 {
            assert(i == 2 * k);
        } else {
            assert(i == 2 * k + 1);
        }
    }
    if h.len() > 0 {
        assert(is_hex_digit(h[0]) && is_hex_digit(h[h.len() - 1]));
    }
    assert(trim_start_spec(h) == h);
    assert(trim_end_spec(h) == h);
    assert(strip_hex_prefixes(h) == h);
    assert forall|i: int| 0 <= i < h.len() implies #[trigger] kept_in_payload(h[i]) by {
        assert(is_hex_digit(h[i]));
    }
    lemma_keep_all(h);
    assert forall|k: int| 0 <= k < bytes.len() implies #[trigger] hex_bytes(h)[k] == bytes[k] by {
        let b = bytes[k] as int;
        assert(h[2 * k] == hex_digit(b / 16));
        assert(h[2 * k + 1] == hex_digit(b % 16));
        lemma_hex_digit(b / 16);
        lemma_hex_digit(b % 16);
    }
    assert(hex_bytes(h) =~= bytes);
}

/// The hexadecimal text of bytes is lowercase, high nibble first: for byte `i`,
/// character `2i` is the digit of its high nibble and character `2i + 1` that of its
/// low nibble, `0` to `9` then `a` to `f`.
pub proof fn law_hex_lowercase(bytes: Seq<u8>)
    ensures
        hex_lower(bytes).len() == 2 * bytes.len(),
        forall|i: int| #![trigger bytes[i]] 0 <= i < bytes.len() ==> {
            let hi = bytes[i] as int / 16;
            let lo = bytes[i] as int % 16;
            &&& (hex_lower(bytes)[2 * i] as int) == if hi < 10 { 48 + hi } else { 97 + (hi - 10) }
            &&& (hex_lower(bytes)[2 * i + 1] as int) == if lo < 10 { 48 + lo } else { 97 + (lo - 10) }
        },
{
    lemma_hex_lower_shape(bytes);
    assert forall|i: int| #![trigger bytes[i]] 0 <= i < bytes.len() implies {
        let hi = bytes[i] as int / 16;
        let lo = bytes[i] as int % 16;
        &&& (hex_lower(bytes)[2 * i] as int) == if hi < 10 { 48 + hi } else { 97 + (hi - 10) }
        &&& (hex_lower(bytes)[2 * i + 1] as int) == if lo < 10 { 48 + lo } else { 97 + (lo - 10) }
    } by {
        let b = bytes[i] as int;
        assert(0 <= b / 16 < 16 && 0 <= b % 16 < 16);
        lemma_hex_digit(b / 16);
        lemma_hex_digit(b % 16);
    }
}

} // verus!
