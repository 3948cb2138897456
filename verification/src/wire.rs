//! Passive protobuf wire-format decoding.
use vstd::prelude::*;
use std::collections::HashMap;
use crate::error::Error;
use crate::text::utf8_decode;
use crate::bytes::{le_value, pow256, read_le, lemma_le_value_bound};

verus! {

/// 128 to the power `k`: the weight of the `k`-th seven-bit group of a varint.
pub open spec fn pow128(k: nat) -> nat
    decreases k,
{
    if k == 0 { 1 } else { 128 * pow128((k - 1) as nat) }
}

/// The varint that starts at `p`, read from its `k`-th byte on: the value that the
/// bytes from there contribute and the total number of bytes of the varint.
pub open spec fn varint_from(data: Seq<u8>, p: int, k: nat) -> Result<(nat, nat), Error>
    decreases 10 - k,
{
    if k >= 10 {
        Err(Error::VarintTooLong)
    } else if p + k >= data.len() {
        Err(Error::VarintTruncated)
    } else {
        let b = data[p + k];
        if k == 9 && b > 1 {
            Err(Error::VarintOverflow)
        } else if b < 128 {
            Ok(((b as nat) * pow128(k), k + 1))
        } else {
            match varint_from(data, p, k + 1) {
                Ok((v, n)) => Ok((((b - 128) as nat) * pow128(k) + v, n)),
                Err(e) => Err(e),
            }
        }
    }
}

/// The protobuf varint at `p`: its value and its length in bytes.
pub open spec fn varint_at(data: Seq<u8>, p: int) -> Result<(nat, nat), Error> {
    varint_from(data, p, 0)
}

/// Powers of 128 grow with the exponent.
proof fn lemma_pow128_monotone(j: nat, k: nat)
    requires
        j <= k,
    ensures
        1 <= pow128(j) <= pow128(k),
    decreases k,
{
    if k > j {
        lemma_pow128_monotone(j, (k - 1) as nat);
    } else if k > 0 {
        lemma_pow128_monotone(0, (k - 1) as nat);
    }
}

/// `128^k` is at least 1, at most 2^56 for `k <= 8` and at most 2^63 for `k <= 9`.
proof fn lemma_pow128_bounds(k: nat)
    ensures
        pow128(k) >= 1,
        k <= 8 ==> pow128(k) <= 0x100_0000_0000_0000,
        k <= 9 ==> pow128(k) <= 0x8000_0000_0000_0000,
{
    reveal_with_fuel(pow128, 10);
    assert(pow128(8) == 0x100_0000_0000_0000);
    assert(pow128(9) == 0x8000_0000_0000_0000);
    if k <= 8 {
        lemma_pow128_monotone(k, 8);
    } else if k <= 9 {
        lemma_pow128_monotone(k, 9);
    } else {
        lemma_pow128_monotone(0, k);
    }
}

/// Reads a protobuf varint at `*p` and advances `*p` over the bytes it read: past
/// the varint, to the end of the data when it is truncated, and over ten bytes when
/// it is too long.
#[verifier::rlimit(30)]
pub fn read_varint(data: &[u8], p: &mut usize) -> (r: Result<u64, Error>)
    ensures
        match varint_at(data@, *old(p) as int) {
            Ok((v, n)) => r == Ok::<u64, Error>(v as u64) && v < 0x1_0000_0000_0000_0000
                && *final(p) == *old(p) + n,
            Err(e) => r == Err::<u64, Error>(e) && *final(p) == if e == Error::VarintTruncated {
                if *old(p) < data.len() {
                    data.len() as int
                } else {
                    *old(p) as int
                }
            } else {
                *old(p) + 10
            },
        },
{
    let start = *p;
    let mut value: u64 = 0;
    let mut mult: u64 = 1;
    let mut k: usize = 0;
    while k < 10
        invariant
            k <= 10,
            start == *old(p),
            k > 0 ==> start + k <= data.len(),
            *p == start + k,
            mult == pow128(k as nat),
            value < pow128(k as nat),
            varint_at(data@, start as int) == match varint_from(data@, start as int, k as nat) {
                Ok((v, n)) => Ok::<(nat, nat), Error>(((value + v) as nat, n)),
                Err(e) => Err(e),
            },
        decreases 10 - k,
    {
        proof { lemma_pow128_bounds(k as nat); }
        if *p >= data.len() {
            assert(varint_from(data@, start as int, k as nat)
                == Err::<(nat, nat), Error>(Error::VarintTruncated));
            return Err(Error::VarintTruncated);
        }
        let b = data[*p];
        *p = *p + 1;
        if k == 9 && b > 1 {
            assert(varint_from(data@, start as int, k as nat)
                == Err::<(nat, nat), Error>(Error::VarintOverflow));
            return Err(Error::VarintOverflow);
        }
        let low: u64 = (b % 128) as u64;
        assert(low * mult <= 127 * mult) by (nonlinear_arith) requires low <= 127;
        assert(k == 9 ==> low <= 1);
        assert(low * mult + value < 0x1_0000_0000_0000_0000) by (nonlinear_arith)
            requires
                low <= 127, mult <= 0x8000_0000_0000_0000, value < mult,
                mult <= 0x100_0000_0000_0000 || low <= 1;
        value = value + low * mult;
        if b < 128 {
            return Ok(value);
        }
        if k < 9 {
            assert(mult * 128 <= 0x8000_0000_0000_0000) by (nonlinear_arith)
                requires k < 9, mult <= 0x100_0000_0000_0000;
            mult = mult * 128;
        }
        k = k + 1;
    }
    Err(Error::VarintTooLong)
}

/// One decoded protobuf field.
#[derive(Debug)]
pub struct WireField {
    pub number: u32,
    pub name: Option<String>,
    pub wire_type: u8,
    pub value: WireValue,
}

/// The payload of one decoded protobuf field.
#[derive(Debug)]
pub enum WireValue {
    Varint(u64),
    Fixed64(u64),
    LengthDelimited { len: usize, utf8: Option<String>, hex: String },
    Fixed32(u32),
}

/// A decoded field with its strings taken as character sequences.
pub ghost struct WireFieldModel {
    pub number: u32,
    pub name: Option<Seq<char>>,
    pub wire_type: u8,
    pub value: WireValueModel,
}

/// A decoded payload with its strings taken as character sequences.
pub ghost enum WireValueModel {
    Varint(u64),
    Fixed64(u64),
    LengthDelimited { len: usize, utf8: Option<Seq<char>>, hex: Seq<char> },
    Fixed32(u32),
}

impl View for WireValue {
    type V = WireValueModel;

    open spec fn view(&self) -> WireValueModel {
        match self {
            WireValue::Varint(v) => WireValueModel::Varint(*v),
            WireValue::Fixed64(v) => WireValueModel::Fixed64(*v),
            WireValue::LengthDelimited { len, utf8, hex } => WireValueModel::LengthDelimited {
                len: *len,
                utf8: match utf8 {
                    Some(t) => Some(t@),
                    None => None,
                },
                hex: hex@,
            },
            WireValue::Fixed32(v) => WireValueModel::Fixed32(*v),
        }
    }
}

impl View for WireField {
    type V = WireFieldModel;

    open spec fn view(&self) -> WireFieldModel {
        WireFieldModel {
            number: self.number,
            name: match self.name {
                Some(n) => Some(n@),
                None => None,
            },
            wire_type: self.wire_type,
            value: self.value@,
        }
    }
}

/// The lowercase hexadecimal digit for `n < 16`.
pub open spec fn hex_digit(n: int) -> char {
    if n < 10 {
        (48 + n) as char
    } else {
        (87 + n) as char
    }
}

/// Lowercase hexadecimal text of `bytes`: two digits per byte, high nibble first.
pub open spec fn hex_lower(bytes: Seq<u8>) -> Seq<char>
    decreases bytes.len(),
{
    if bytes.len() == 0 {
        Seq::empty()
    } else {
        seq![hex_digit(bytes[0] as int / 16), hex_digit(bytes[0] as int % 16)] + hex_lower(bytes.drop_first())
    }
}

/// Lowercase hexadecimal text of `bytes`.
/// Trusted: calls `hex::encode`, which maps each byte to two characters of
/// `0123456789abcdef`, high nibble first.
#[verifier::external_body]
fn hex_encode(bytes: &[u8]) -> (s: String)
    ensures
        s@ == hex_lower(bytes@),
{
    hex::encode(bytes)
}

/// Whether `c` is in Unicode's general category Cc (control codes).
pub open spec fn is_control(c: char) -> bool {
    (c as u32) <= 0x1f || (0x7f <= (c as u32) && (c as u32) <= 0x9f)
}

/// Whether a decoded length-delimited payload reads as text: no control codes
/// but newline, carriage return and tab.
pub open spec fn printable_text(s: Seq<char>) -> bool {
    forall|i: int|
        0 <= i < s.len() ==> !is_control(#[trigger] s[i]) || s[i] == '\n' || s[i] == '\r'
            || s[i] == '\t'
}

/// The text form of a length-delimited payload, when it has one.
pub open spec fn payload_text(bytes: Seq<u8>) -> Option<Seq<char>> {
    if vstd::utf8::valid_utf8(bytes) && printable_text(vstd::utf8::decode_utf8(bytes)) {
        Some(vstd::utf8::decode_utf8(bytes))
    } else {
        None
    }
}

/// The field number of a key: the key without its three wire-type bits, cut to 32 bits.
pub open spec fn key_number(key: nat) -> u32 {
    ((key / 8) % 0x1_0000_0000) as u32
}

/// The name that `names` gives to field `number`.
pub open spec fn field_name(names: Option<Map<u32, String>>, number: u32) -> Option<Seq<char>> {
    match names {
        Some(m) => if m.contains_key(number) {
            Some(m[number]@)
        } else {
            None
        },
        None => None,
    }
}

/// The field whose key starts at `p`, and the position just after it.
pub open spec fn field_at(data: Seq<u8>, p: int, names: Option<Map<u32, String>>) -> Result<
    (WireFieldModel, int),
    Error,
> {
    match varint_at(data, p) {
        Err(e) => Err(e),
        Ok((key, kn)) => {
            let number = key_number(key);
            let wire_type = (key % 8) as u8;
            let q = p + kn;
            if key == 0 {
                Err(Error::ZeroKey)
            } else if number == 0 {
                Err(Error::ZeroFieldNumber)
            } else {
                let value: Result<(WireValueModel, int), Error> = if wire_type == 0 {
                    match varint_at(data, q) {
                        Ok((v, n)) => Ok((WireValueModel::Varint(v as u64), q + n)),
                        Err(e) => Err(e),
                    }
                } else if wire_type == 1 {
                    if q + 8 <= data.len() {
                        Ok((WireValueModel::Fixed64(le_value(data, q, 8) as u64), q + 8))
                    } else {
                        Err(Error::Fixed64Truncated(number))
                    }
                } else if wire_type == 2 {
                    match varint_at(data, q) {
                        Err(e) => Err(e),
                        Ok((len, n)) => {
                            let start = q + n;
                            if len <= data.len() - start {
                                let bytes = data.subrange(start, start + len);
                                Ok(
                                    (
                                        WireValueModel::LengthDelimited {
                                            len: len as usize,
                                            utf8: payload_text(bytes),
                                            hex: hex_lower(bytes),
                                        },
                                        start + len,
                                    ),
                                )
                            } else {
                                Err(Error::LengthDelimitedTruncated(number))
                            }
                        },
                    }
                } else if wire_type == 5 {
                    if q + 4 <= data.len() {
                        Ok((WireValueModel::Fixed32(le_value(data, q, 4) as u32), q + 4))
                    } else {
                        Err(Error::Fixed32Truncated(number))
                    }
                } else if wire_type == 3 || wire_type == 4 {
                    Err(Error::GroupWireType(wire_type))
                } else {
                    Err(Error::InvalidWireType(wire_type))
                };
                match value {
                    Ok((v, next)) => Ok(
                        (
                            WireFieldModel {
                                number,
                                name: field_name(names, number),
                                wire_type,
                                value: v,
                            },
                            next,
                        ),
                    ),
                    Err(e) => Err(e),
                }
            }
        },
    }
}

/// A varint read from its `k`-th byte is one to ten bytes long, inside the data,
/// and its value fits in 64 bits.
proof fn lemma_varint_from_len(data: Seq<u8>, p: int, k: nat)
    requires
        0 <= p,
    ensures
        varint_from(data, p, k) matches Ok((v, n)) ==> k + 1 <= n <= 10 && p + n <= data.len()
            && v < 0x1_0000_0000_0000_0000,
    decreases 10 - k,
{
    if k < 10 && p + k < data.len() {
        lemma_varint_from_len(data, p, k + 1);
        if varint_from(data, p, k) is Ok {
            lemma_varint_tail(data, p, k);
            lemma_pow128_bounds(k);
        }
    }
}

/// The bytes of a varint from its `k`-th on leave room for `128^k` below 2^64.
proof fn lemma_varint_tail(data: Seq<u8>, p: int, k: nat)
    requires
        0 <= p,
        k <= 9,
        varint_from(data, p, k) is Ok,
    ensures
        (varint_from(data, p, k)->Ok_0).0 + pow128(k) <= 0x1_0000_0000_0000_0000,
    decreases 10 - k,
{
    lemma_pow128_bounds(k);
    let b = data[p + k];
    let v = (varint_from(data, p, k)->Ok_0).0;
    let pk = pow128(k);
    if k == 9 {
        let c: nat = b as nat;
        assert(c <= 1);
        assert(v == c * pk);
        assert(v + pk <= 0x1_0000_0000_0000_0000) by (nonlinear_arith)
            requires v == c * pk, c <= 1, pk <= 0x8000_0000_0000_0000;
    } else if b < 128 {
        let c: nat = b as nat;
        lemma_pow128_bounds(k + 1);
        assert(pow128(k + 1) == 128 * pk);
        assert(v == c * pk);
        assert(v + pk <= 0x1_0000_0000_0000_0000) by (nonlinear_arith)
            requires v == c * pk, c <= 127, 128 * pk <= 0x8000_0000_0000_0000;
    } else {
        lemma_varint_tail(data, p, k + 1);
        let v2 = (varint_from(data, p, k + 1)->Ok_0).0;
        let c: nat = (b - 128) as nat;
        assert(pow128(k + 1) == 128 * pk);
        assert(v == c * pk + v2);
        assert(v + pk <= 0x1_0000_0000_0000_0000) by (nonlinear_arith)
            requires v == c * pk + v2, c <= 127, v2 + 128 * pk <= 0x1_0000_0000_0000_0000;
    }
}

/// Reading a field moves forward and stays inside the data.
pub proof fn lemma_field_at_advances(data: Seq<u8>, p: int, names: Option<Map<u32, String>>)
    requires
        0 <= p,
    ensures
        field_at(data, p, names) matches Ok((f, q)) ==> p < q <= data.len(),
{
    lemma_varint_from_len(data, p, 0);
    if let Ok((key, kn)) = varint_at(data, p) {
        lemma_varint_from_len(data, p + kn, 0);
        if let Ok((len, n)) = varint_at(data, p + kn) {
        }
    }
}

/// The fields of the message that runs from `p` to the end of `data`.
pub open spec fn decode_from(data: Seq<u8>, p: int, names: Option<Map<u32, String>>) -> Result<
    Seq<WireFieldModel>,
    Error,
>
    decreases data.len() - p,
{
    if p < 0 || p >= data.len() {
        Ok(Seq::empty())
    } else {
        match field_at(data, p, names) {
            Err(e) => Err(e),
            Ok((f, q)) => {
                proof {
                    lemma_field_at_advances(data, p, names);
                }
                match decode_from(data, q, names) {
                    Ok(rest) => Ok(seq![f] + rest),
                    Err(e) => Err(e),
                }
            },
        }
    }
}

/// The view of an optional name map.
pub open spec fn names_view(names: Option<&HashMap<u32, String>>) -> Option<Map<u32, String>> {
    match names {
        Some(m) => Some(m@),
        None => None,
    }
}

/// The views of decoded fields.
pub open spec fn fields_view(fields: Seq<WireField>) -> Seq<WireFieldModel> {
    fields.map_values(|f: WireField| f@)
}

/// Whether every character of `s` is printable text.
fn all_printable(s: &String) -> (b: bool)
    ensures
        b == printable_text(s@),
{
    let cs = crate::text::chars_of(s.as_str());
    let mut i: usize = 0;
    while i < cs.len()
        invariant
            i <= cs.len(),
            cs@ == s@,
            forall|j: int|
                0 <= j < i ==> !is_control(#[trigger] cs@[j]) || cs@[j] == '\n' || cs@[j] == '\r'
                    || cs@[j] == '\t',
        decreases cs.len() - i,
    {
        let c = cs[i];
        let u = c as u32;
        if (u <= 0x1f || (0x7f <= u && u <= 0x9f)) && c != '\n' && c != '\r' && c != '\t' {
            return false;
        }
        i = i + 1;
    }
    true
}

/// The text of a length-delimited payload, when it is UTF-8 without control codes
/// other than newline, carriage return and tab.
fn payload_text_of(bytes: &[u8]) -> (r: Option<String>)
    ensures
        match payload_text(bytes@) {
            Some(t) => r matches Some(s) && s@ == t,
            None => r is None,
        },
{
    match utf8_decode(bytes) {
        Some(s) => {
            if all_printable(&s) {
                Some(s)
            } else {
                None
            }
        },
        None => None,
    }
}

/// The name that `names` gives to field `number`.
fn lookup_name(names: Option<&HashMap<u32, String>>, number: u32) -> (r: Option<String>)
    ensures
        match field_name(names_view(names), number) {
            Some(t) => r matches Some(s) && s@ == t,
            None => r is None,
        },
{
    broadcast use vstd::std_specs::hash::group_hash_axioms;
    match names {
        Some(m) => match m.get(&number) {
            Some(s) => Some(s.clone()),
            None => None,
        },
        None => None,
    }
}

/// Decodes a plaintext protobuf message into its fields, naming each field whose
/// number `names` maps.
#[verifier::rlimit(30)]
pub fn decode_message(data: &[u8], names: Option<&HashMap<u32, String>>) -> (r: Result<
    Vec<WireField>,
    Error,
>)
    ensures
        match decode_from(data@, 0, names_view(names)) {
            Ok(fs) => r matches Ok(v) && fields_view(v@) == fs,
            Err(e) => r == Err::<Vec<WireField>, Error>(e),
        },
{
    let ghost nv = names_view(names);
    let mut p: usize = 0;
    let mut out: Vec<WireField> = Vec::new();
    while p < data.len()
        invariant
            p <= data.len(),
            nv == names_view(names),
            decode_from(data@, 0, nv) == match decode_from(data@, p as int, nv) {
                Ok(rest) => Ok::<Seq<WireFieldModel>, Error>(fields_view(out@) + rest),
                Err(e) => Err(e),
            },
        decreases data.len() - p,
    {
        let ghost p0 = p as int;
        proof {
            lemma_field_at_advances(data@, p0, nv);
            lemma_varint_from_len(data@, p0, 0);
        }
        let key = match read_varint(data, &mut p) {
            Ok(k) => k,
            Err(e) => return Err(e),
        };
        if key == 0 {
            return Err(Error::ZeroKey);
        }
        let number: u32 = ((key / 8) % 0x1_0000_0000) as u32;
        let wire_type: u8 = (key % 8) as u8;
        if number == 0 {
            return Err(Error::ZeroFieldNumber);
        }
        let ghost q = p as int;
        proof {
            lemma_varint_from_len(data@, q, 0);
        }
        let value = if wire_type == 0 {
            match read_varint(data, &mut p) {
                Ok(v) => WireValue::Varint(v),
                Err(e) => return Err(e),
            }
        } else if wire_type == 1 {
            if 8 > data.len() - p {
                return Err(Error::Fixed64Truncated(number));
            }
            let v = read_le(data, p, 8);
            p = p + 8;
            WireValue::Fixed64(v)
        } else if wire_type == 2 {
            let len64 = match read_varint(data, &mut p) {
                Ok(v) => v,
                Err(e) => return Err(e),
            };
            if len64 > (data.len() - p) as u64 {
                return Err(Error::LengthDelimitedTruncated(number));
            }
            let len = len64 as usize;
            let bytes = &data[p..p + len];
            let utf8 = payload_text_of(bytes);
            let hex = hex_encode(bytes);
            p = p + len;
            WireValue::LengthDelimited { len, utf8, hex }
        } else if wire_type == 5 {
            if 4 > data.len() - p {
                return Err(Error::Fixed32Truncated(number));
            }
            let v = read_le(data, p, 4);
            p = p + 4;
            proof {
                lemma_le_value_bound(data@, p - 4, 4);
                reveal_with_fuel(pow256, 5);
            }
            WireValue::Fixed32(v as u32)
        } else if wire_type == 3 || wire_type == 4 {
            return Err(Error::GroupWireType(wire_type));
        } else {
            return Err(Error::InvalidWireType(wire_type));
        };
        let name = lookup_name(names, number);
        let field = WireField { number, name, wire_type, value };
        proof {
            assert(field_at(data@, p0, nv) == Ok::<(WireFieldModel, int), Error>((field@, p as int)));
            assert(fields_view(out@.push(field)) =~= fields_view(out@) + seq![field@]);
            assert(decode_from(data@, p0, nv) == match decode_from(data@, p as int, nv) {
                Ok(rest) => Ok::<Seq<WireFieldModel>, Error>(seq![field@] + rest),
                Err(e) => Err(e),
            });
            if let Ok(rest) = decode_from(data@, p as int, nv) {
                assert(fields_view(out@) + seq![field@] + rest =~= fields_view(out@) + (seq![field@]
                    + rest));
            }
        }
        out.push(field);
    }
    Ok(out)
}

/// The canonical protobuf varint encoding of `n`: seven bits per byte, low group
/// first, the high bit set on every byte but the last.
pub open spec fn varint_encode(n: nat) -> Seq<u8>
    decreases n,
{
    if n < 128 {
        seq![n as u8]
    } else {
        seq![(128 + n % 128) as u8] + varint_encode(n / 128)
    }
}

/// The encoding of a number is one byte exactly when the number is below 128.
proof fn lemma_varint_encode_len(n: nat)
    ensures
        1 <= varint_encode(n).len(),
        n < 128 <==> varint_encode(n).len() == 1,
    decreases n,
{
    if n >= 128 {
        lemma_varint_encode_len(n / 128);
    }
}

/// Reading the encoding of `m` as the `k`-th group on gives `m` at weight `128^k`.
proof fn lemma_varint_decode_encoded(data: Seq<u8>, p: int, k: nat, m: nat)
    requires
        0 <= p,
        k <= 9,
        m * pow128(k) < 0x1_0000_0000_0000_0000,
        p + k + varint_encode(m).len() <= data.len(),
        data.subrange(p + k, p + k + varint_encode(m).len()) == varint_encode(m),
    ensures
        varint_from(data, p, k) == Ok::<(nat, nat), Error>(
            (m * pow128(k), k + varint_encode(m).len()),
        ),
    decreases m,
{
    let e = varint_encode(m);
    lemma_varint_encode_len(m);
    lemma_pow128_bounds(k);
    if k == 9 {
        reveal_with_fuel(pow128, 10);
        assert(pow128(9) == 0x8000_0000_0000_0000);
    }
    assert(data[p + k] == e[0]);
    let pk = pow128(k);
    if m < 128 {
        if k == 9 {
            assert(m <= 1) by (nonlinear_arith)
                requires m * pk < 0x1_0000_0000_0000_0000, pk == 0x8000_0000_0000_0000;
        }
    } else {
        if k == 9 {
            assert(m <= 1) by (nonlinear_arith)
                requires m * pk < 0x1_0000_0000_0000_0000, pk == 0x8000_0000_0000_0000;
            assert(false);
        }
        let q = m / 128;
        assert(pow128(k + 1) == 128 * pk);
        assert(q * pow128(k + 1) <= m * pk) by (nonlinear_arith)
            requires q == m / 128, pow128(k + 1) == 128 * pk, pk >= 1;
        let tail = varint_encode(q);
        assert(e == seq![(128 + m % 128) as u8] + tail);
        assert(data.subrange(p + k + 1, p + k + 1 + tail.len()) =~= tail) by {
            assert forall|j: int| 0 <= j < tail.len() implies data.subrange(
                p + k + 1,
                p + k + 1 + tail.len(),
            )[j] == tail[j] by {
                assert(data.subrange(p + k, p + k + e.len())[j + 1] == e[j + 1]);
            }
        }
        lemma_varint_decode_encoded(data, p, k + 1, q);
        assert((m % 128) * pk + q * pow128(k + 1) == m * pk) by (nonlinear_arith)
            requires q == m / 128, pow128(k + 1) == 128 * pk;
    }
}

/// Reading a varint gives back the number whose canonical encoding it is, and its
/// length, whatever follows it.
pub proof fn law_varint_roundtrip(n: nat, rest: Seq<u8>)
    requires
        n < 0x1_0000_0000_0000_0000,
    ensures
        varint_at(varint_encode(n) + rest, 0) == Ok::<(nat, nat), Error>(
            (n, varint_encode(n).len()),
        ),
{
    let d = varint_encode(n) + rest;
    assert(d.subrange(0, varint_encode(n).len() as int) =~= varint_encode(n));
    assert(pow128(0) == 1);
    assert(n * pow128(0) == n);
    lemma_varint_decode_encoded(d, 0, 0, n);
}

/// A field value to encode, by wire type.
pub ghost enum WireItem {
    Varint(u64),
    Fixed64(u64),
    Bytes(Seq<u8>),
    Fixed32(u32),
}

/// The wire type of an item.
pub open spec fn item_wire_type(it: WireItem) -> u8 {
    match it {
        WireItem::Varint(_) => 0,
        WireItem::Fixed64(_) => 1,
        WireItem::Bytes(_) => 2,
        WireItem::Fixed32(_) => 5,
    }
}

/// The `n` little-endian bytes of `v`.
pub open spec fn le_bytes(v: nat, n: nat) -> Seq<u8>
    decreases n,
{
    if n == 0 {
        Seq::empty()
    } else {
        seq![(v % 256) as u8] + le_bytes(v / 256, (n - 1) as nat)
    }
}

/// The bytes of an item after its key.
pub open spec fn item_payload(it: WireItem) -> Seq<u8> {
    match it {
        WireItem::Varint(v) => varint_encode(v as nat),
        WireItem::Fixed64(v) => le_bytes(v as nat, 8),
        WireItem::Bytes(b) => varint_encode(b.len()) + b,
        WireItem::Fixed32(v) => le_bytes(v as nat, 4),
    }
}

/// The protobuf encoding of one field: its key, then its payload.
pub open spec fn encode_field(number: u32, it: WireItem) -> Seq<u8> {
    varint_encode((number as nat * 8 + item_wire_type(it)) as nat) + item_payload(it)
}

/// The protobuf encoding of a message: its fields one after another.
pub open spec fn encode_fields(items: Seq<(u32, WireItem)>) -> Seq<u8>
    decreases items.len(),
{
    if items.len() == 0 {
        Seq::empty()
    } else {
        encode_field(items[0].0, items[0].1) + encode_fields(items.drop_first())
    }
}

/// The decoded field that an item gives.
pub open spec fn item_model(number: u32, it: WireItem, names: Option<Map<u32, String>>) -> WireFieldModel {
    WireFieldModel {
        number,
        name: field_name(names, number),
        wire_type: item_wire_type(it),
        value: match it {
            WireItem::Varint(v) => WireValueModel::Varint(v),
            WireItem::Fixed64(v) => WireValueModel::Fixed64(v),
            WireItem::Bytes(b) => WireValueModel::LengthDelimited {
                len: b.len() as usize,
                utf8: payload_text(b),
                hex: hex_lower(b),
            },
            WireItem::Fixed32(v) => WireValueModel::Fixed32(v),
        },
    }
}

/// Whether an item can be encoded: a non-zero field number and a payload whose
/// length fits a varint.
pub open spec fn item_valid(number: u32, it: WireItem) -> bool {
    number != 0 && match it {
        WireItem::Bytes(b) => b.len() < 0x1_0000_0000_0000_0000,
        _ => true,
    }
}

/// The parts of a concatenation stand at their offsets in the data.
proof fn lemma_split(data: Seq<u8>, p: int, a: Seq<u8>, b: Seq<u8>)
    requires
        0 <= p,
        p + a.len() + b.len() <= data.len(),
        data.subrange(p, p + a.len() + b.len()) == a + b,
    ensures
        data.subrange(p, p + a.len()) == a,
        data.subrange(p + a.len(), p + a.len() + b.len()) == b,
{
    assert forall|j: int| 0 <= j < a.len() implies data.subrange(p, p + a.len())[j] == a[j] by {
        assert(data.subrange(p, p + a.len() + b.len())[j] == (a + b)[j]);
    }
    assert forall|j: int| 0 <= j < b.len() implies data.subrange(
        p + a.len(),
        p + a.len() + b.len(),
    )[j] == b[j] by {
        assert(data.subrange(p, p + a.len() + b.len())[a.len() + j] == (a + b)[a.len() + j]);
        assert((a + b)[a.len() + j] == b[j]);
        assert(data.subrange(p, p + a.len() + b.len())[a.len() + j] == data[p + a.len() + j]);
    }
    assert(data.subrange(p, p + a.len()) =~= a);
    assert(data.subrange(p + a.len(), p + a.len() + b.len()) =~= b);
}

/// Reading the little-endian bytes of `v` gives `v` back.
proof fn lemma_le_bytes(data: Seq<u8>, p: int, v: nat, n: nat)
    requires
        0 <= p,
        p + n <= data.len(),
        data.subrange(p, p + n) == le_bytes(v, n),
        v < pow256(n),
    ensures
        le_bytes(v, n).len() == n,
        le_value(data, p, n) == v,
    decreases n,
{
    if n > 0 {
        let rest = le_bytes(v / 256, (n - 1) as nat);
        assert(le_bytes(v, n) == seq![(v % 256) as u8] + rest);
        assert(v / 256 < pow256((n - 1) as nat)) by (nonlinear_arith)
            requires v < 256 * pow256((n - 1) as nat);
        lemma_le_bytes_len(v / 256, (n - 1) as nat);
        lemma_split(data, p, seq![(v % 256) as u8], rest);
        assert(data[p] == (v % 256) as u8) by {
            assert(data.subrange(p, p + 1)[0] == data[p]);
        }
        lemma_le_bytes(data, p + 1, v / 256, (n - 1) as nat);
    }
}

/// The little-endian bytes of a value are as many as asked for.
proof fn lemma_le_bytes_len(v: nat, n: nat)
    ensures
        le_bytes(v, n).len() == n,
    decreases n,
{
    if n > 0 {
        lemma_le_bytes_len(v / 256, (n - 1) as nat);
    }
}

/// Reading the encoding of one field gives the field and the position after it.
proof fn lemma_field_at_encoded(
    data: Seq<u8>,
    p: int,
    number: u32,
    it: WireItem,
    names: Option<Map<u32, String>>,
)
    requires
        0 <= p,
        item_valid(number, it),
        p + encode_field(number, it).len() <= data.len(),
        data.subrange(p, p + encode_field(number, it).len()) == encode_field(number, it),
    ensures
        field_at(data, p, names) == Ok::<(WireFieldModel, int), Error>(
            (item_model(number, it, names), p + encode_field(number, it).len()),
        ),
{
    let key: nat = (number as nat * 8 + item_wire_type(it)) as nat;
    let ke = varint_encode(key);
    let pl = item_payload(it);
    lemma_split(data, p, ke, pl);
    assert(pow128(0) == 1);
    assert(key * pow128(0) == key);
    lemma_varint_decode_encoded(data, p, 0, key);
    assert(varint_at(data, p) == Ok::<(nat, nat), Error>((key, ke.len())));
    assert(key / 8 == number);
    assert(key % 8 == item_wire_type(it));
    let q = p + ke.len();
    lemma_pow256_values();
    match it {
        WireItem::Varint(v) => {
            assert(data.subrange(q, q + pl.len()) == varint_encode(v as nat));
            lemma_varint_decode_encoded(data, q, 0, v as nat);
        },
        WireItem::Fixed64(v) => {
            lemma_le_bytes_len(v as nat, 8);
            lemma_le_bytes(data, q, v as nat, 8);
        },
        WireItem::Fixed32(v) => {
            lemma_le_bytes_len(v as nat, 4);
            lemma_le_bytes(data, q, v as nat, 4);
        },
        WireItem::Bytes(b) => {
            let le = varint_encode(b.len());
            lemma_split(data, q, le, b);
            lemma_varint_decode_encoded(data, q, 0, b.len());
        },
    }
}

/// 256 to the fourth and the eighth.
proof fn lemma_pow256_values()
    ensures
        pow256(4) == 0x1_0000_0000,
        pow256(8) == 0x1_0000_0000_0000_0000,
{
    reveal_with_fuel(pow256, 9);
}

/// The decoded fields that a sequence of items gives.
pub open spec fn items_model(items: Seq<(u32, WireItem)>, names: Option<Map<u32, String>>) -> Seq<
    WireFieldModel,
> {
    Seq::new(items.len(), |i: int| item_model(items[i].0, items[i].1, names))
}

/// Decoding the encoding of some fields after a prefix gives the fields back.
proof fn lemma_decode_encoded(
    prefix: Seq<u8>,
    items: Seq<(u32, WireItem)>,
    names: Option<Map<u32, String>>,
)
    requires
        forall|i: int| 0 <= i < items.len() ==> item_valid(#[trigger] items[i].0, items[i].1),
    ensures
        decode_from(prefix + encode_fields(items), prefix.len() as int, names) == Ok::<
            Seq<WireFieldModel>,
            Error,
        >(items_model(items, names)),
    decreases items.len(),
{
    let data = prefix + encode_fields(items);
    if items.len() == 0 {
        assert(items_model(items, names) =~= Seq::<WireFieldModel>::empty());
    } else {
        let (number, it) = items[0];
        let e0 = encode_field(number, it);
        let rest = items.drop_first();
        assert(encode_fields(items) == e0 + encode_fields(rest));
        assert(data.subrange(prefix.len() as int, (prefix.len() + e0.len()) as int) =~= e0);
        assert(item_valid(items[0].0, items[0].1));
        lemma_varint_encode_len((number as nat * 8 + item_wire_type(it)) as nat);
        lemma_field_at_encoded(data, prefix.len() as int, number, it, names);
        assert forall|i: int| 0 <= i < rest.len() implies item_valid(#[trigger] rest[i].0, rest[i].1) by {
            assert(rest[i] == items[i + 1]);
        }
        lemma_decode_encoded(prefix + e0, rest, names);
        assert(prefix + e0 + encode_fields(rest) =~= data);
        assert(items_model(items, names) =~= seq![item_model(number, it, names)] + items_model(
            rest,
            names,
        ));
    }
}

/// Decoding the encoding of a message gives back its fields in order: each with its
/// number, the name that `names` gives it, its wire type, and its value (for a
/// length-delimited payload: its length, its text when it reads as text, its hex).
pub proof fn law_decode_roundtrip(items: Seq<(u32, WireItem)>, names: Option<Map<u32, String>>)
    requires
        forall|i: int| 0 <= i < items.len() ==> item_valid(#[trigger] items[i].0, items[i].1),
    ensures
        decode_from(encode_fields(items), 0, names) == Ok::<Seq<WireFieldModel>, Error>(
            items_model(items, names),
        ),
{
    lemma_decode_encoded(Seq::empty(), items, names);
    assert(Seq::<u8>::empty() + encode_fields(items) =~= encode_fields(items));
}

/// Whether a decoded field is well formed: a nonzero number, and a value of the kind
/// that its wire type names (0 varint, 1 fixed64, 2 length-delimited, 5 fixed32),
/// a length-delimited one with two hexadecimal digits per byte.
pub open spec fn field_well_formed(f: WireFieldModel) -> bool {
    &&& f.number != 0
    &&& match f.value {
        WireValueModel::Varint(_) => f.wire_type == 0,
        WireValueModel::Fixed64(_) => f.wire_type == 1,
        WireValueModel::LengthDelimited { len, hex, .. } => f.wire_type == 2 && hex.len() == 2 * len,
        WireValueModel::Fixed32(_) => f.wire_type == 5,
    }
}

/// The number of hexadecimal digits of `hex_lower(bytes)`.
proof fn lemma_hex_lower_len(bytes: Seq<u8>)
    ensures
        hex_lower(bytes).len() == 2 * bytes.len(),
    decreases bytes.len(),
{
    if bytes.len() > 0 {
        lemma_hex_lower_len(bytes.drop_first());
    }
}

/// Every field that decoding gives is well formed.
pub proof fn law_decoded_fields_well_formed(data: Seq<u8>, p: int, names: Option<Map<u32, String>>)
    requires
        data.len() <= usize::MAX,
    ensures
        decode_from(data, p, names) matches Ok(fs) ==> forall|i: int|
            0 <= i < fs.len() ==> field_well_formed(#[trigger] fs[i]),
    decreases data.len() - p,
{
    if 0 <= p < data.len() {
        if let Ok((f, q)) = field_at(data, p, names) {
            lemma_field_at_advances(data, p, names);
            law_decoded_fields_well_formed(data, q, names);
            if let WireValueModel::LengthDelimited { len, hex, .. } = f.value {
                let (_, kn) = varint_at(data, p)->Ok_0;
                let (l, n) = varint_at(data, p + kn)->Ok_0;
                let start = p + kn + n;
                lemma_hex_lower_len(data.subrange(start, start + l));
                assert(l <= data.len());
            }
            assert(field_well_formed(f));
            if let Ok(fs) = decode_from(data, p, names) {
                let rest = decode_from(data, q, names)->Ok_0;
                assert forall|i: int| 0 <= i < fs.len() implies field_well_formed(#[trigger] fs[i]) by {
                    if i > 0 {
                        assert(fs[i] == rest[i - 1]);
                    }
                }
            }
        }
    }
}

/// `fs` with each field named by `m`.
pub open spec fn named_by(fs: Seq<WireFieldModel>, m: Map<u32, String>) -> Seq<WireFieldModel> {
    fs.map_values(|f: WireFieldModel| WireFieldModel { name: field_name(Some(m), f.number), ..f })
}

/// A name map changes nothing but the names: decoding with `m` fails exactly when
/// decoding without a map does, with the same error, and otherwise gives the same
/// fields, unnamed without a map and named by `m` with it.
pub proof fn law_names_only_name(data: Seq<u8>, p: int, m: Map<u32, String>)
    ensures
        decode_from(data, p, Some(m)) == match decode_from(data, p, None) {
            Ok(fs) => Ok::<Seq<WireFieldModel>, Error>(named_by(fs, m)),
            Err(e) => Err(e),
        },
        decode_from(data, p, None) matches Ok(fs) ==> forall|i: int|
            0 <= i < fs.len() ==> (#[trigger] fs[i]).name is None,
    decreases data.len() - p,
{
    if 0 <= p < data.len() {
        match field_at(data, p, None) {
            Err(e) => {
                assert(field_at(data, p, Some(m)) == Err::<(WireFieldModel, int), Error>(e));
            },
            Ok((f, q)) => {
                let g = WireFieldModel { name: field_name(Some(m), f.number), ..f };
                assert(field_at(data, p, Some(m)) == Ok::<(WireFieldModel, int), Error>((g, q)));
                lemma_field_at_advances(data, p, None);
                law_names_only_name(data, q, m);
                match decode_from(data, q, None) {
                    Err(e) => {},
                    Ok(rest) => {
                        assert(named_by(seq![f] + rest, m) =~= seq![g] + named_by(rest, m));
                        let fs = seq![f] + rest;
                        assert forall|i: int| 0 <= i < fs.len() implies (#[trigger] fs[i]).name is None by {
                            if i > 0 {
                                assert(fs[i] == rest[i - 1]);
                            }
                        }
                    },
                }
            },
        }
    } else {
        assert(named_by(Seq::<WireFieldModel>::empty(), m) =~= Seq::<WireFieldModel>::empty());
    }
}

/// Whether `c` is kept in the text form of a payload: it is no control code of
/// Unicode category Cc (U+0000 to U+001F, U+007F to U+009F), or it is a newline,
/// carriage return or tab.
pub open spec fn text_char(c: char) -> bool {
    ((c as u32) > 0x1f && ((c as u32) < 0x7f || (c as u32) > 0x9f)) || c == '\n' || c == '\r'
        || c == '\t'
}

/// A decoded string reads as text exactly when each of its characters is kept in text.
pub proof fn law_printable_text(s: Seq<char>)
    ensures
        printable_text(s) <==> forall|i: int| 0 <= i < s.len() ==> text_char(#[trigger] s[i]),
{
}

/// A length-delimited payload has a text form exactly when its bytes are well-formed
/// UTF-8 whose characters are all kept in text (any script, no control codes but
/// newline, carriage return and tab); the text form is then the decoded string.
pub proof fn law_payload_text(bytes: Seq<u8>)
    ensures
        printable_text(vstd::utf8::decode_utf8(bytes)) <==> forall|i: int|
            0 <= i < vstd::utf8::decode_utf8(bytes).len() ==> text_char(
                #[trigger] vstd::utf8::decode_utf8(bytes)[i],
            ),
        payload_text(bytes) == if vstd::utf8::valid_utf8(bytes) && forall|i: int|
            0 <= i < vstd::utf8::decode_utf8(bytes).len() ==> text_char(
                #[trigger] vstd::utf8::decode_utf8(bytes)[i],
            ) {
            Some(vstd::utf8::decode_utf8(bytes))
        } else {
            None
        },
{
}

} // verus!
