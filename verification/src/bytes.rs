//! Little-endian integers and the index encodings of IL2CPP metadata.
use vstd::prelude::*;
use crate::error::Error;

verus! {

/// Little-endian value of `n` bytes at `p`.
pub open spec fn le_value(data: Seq<u8>, p: int, n: nat) -> nat
    decreases n,
{
    if n == 0 {
        0
    } else {
        data[p] as nat + 256 * le_value(data, p + 1, (n - 1) as nat)
    }
}

/// 256 to the power `n`.
pub open spec fn pow256(n: nat) -> nat
    decreases n,
{
    if n == 0 { 1 } else { 256 * pow256((n - 1) as nat) }
}

/// `n` little-endian bytes hold a value below `256^n`.
pub(crate) proof fn lemma_le_value_bound(data: Seq<u8>, p: int, n: nat)
    ensures
        le_value(data, p, n) < pow256(n),
    decreases n,
{
    if n > 0 {
        lemma_le_value_bound(data, p + 1, (n - 1) as nat);
        let rest = le_value(data, p + 1, (n - 1) as nat);
        let d = data[p] as nat;
        assert(d + 256 * rest < 256 * pow256((n - 1) as nat)) by (nonlinear_arith)
            requires d < 256, rest < pow256((n - 1) as nat);
    }
}

/// The little-endian integer of the `n <= 8` bytes at `p`.
pub fn read_le(data: &[u8], p: usize, n: usize) -> (v: u64)
    requires
        n <= 8,
        p + n <= data.len(),
    ensures
        v == le_value(data@, p as int, n as nat),
{
    let mut v: u64 = 0;
    let mut i: usize = n;
    while i > 0
        invariant
            i <= n <= 8,
            p + n <= data.len(),
            v == le_value(data@, p + i, (n - i) as nat),
        decreases i,
    {
        i = i - 1;
        proof {
            lemma_le_value_bound(data@, p + i + 1, (n - i - 1) as nat);
            reveal_with_fuel(pow256, 9);
            lemma_pow256_monotone((n - i - 1) as nat, 7);
            assert(v * 256 + 255 < 0x1_0000_0000_0000_0000) by (nonlinear_arith)
                requires v < pow256((n - i - 1) as nat), pow256((n - i - 1) as nat) <= pow256(7),
                    pow256(7) == 0x100_0000_0000_0000;
        }
        v = v * 256 + data[p + i] as u64;
    }
    v
}

/// Powers of 256 grow with the exponent.
proof fn lemma_pow256_monotone(j: nat, k: nat)
    requires
        j <= k,
    ensures
        1 <= pow256(j) <= pow256(k),
    decreases k,
{
    if k > j {
        lemma_pow256_monotone(j, (k - 1) as nat);
    } else if k > 0 {
        lemma_pow256_monotone(0, (k - 1) as nat);
    }
}

/// The little-endian 16-bit integer at `p`.
pub open spec fn le16(data: Seq<u8>, p: int) -> nat {
    le_value(data, p, 2)
}

/// The little-endian 32-bit integer at `p`.
pub open spec fn le32(data: Seq<u8>, p: int) -> nat {
    le_value(data, p, 4)
}

/// Two and four little-endian bytes fit in 16 and 32 bits.
pub(crate) proof fn lemma_le_small(data: Seq<u8>, p: int)
    ensures
        le16(data, p) < 0x1_0000,
        le32(data, p) < 0x1_0000_0000,
{
    lemma_le_value_bound(data, p, 2);
    lemma_le_value_bound(data, p, 4);
    reveal_with_fuel(pow256, 5);
}

/// Reads the little-endian `u16` at `p`.
pub fn u16_at(data: &[u8], p: usize) -> (r: Result<u16, Error>)
    ensures
        p + 2 <= data.len() ==> r == Ok::<u16, Error>(le16(data@, p as int) as u16),
        p + 2 > data.len() ==> r == Err::<u16, Error>(Error::U16Truncated),
{
    if p > data.len() || 2 > data.len() - p {
        return Err(Error::U16Truncated);
    }
    proof {
        lemma_le_small(data@, p as int);
    }
    Ok(read_le(data, p, 2) as u16)
}

/// Reads the little-endian `u32` at `p`.
pub fn u32_at(data: &[u8], p: usize) -> (r: Result<u32, Error>)
    ensures
        p + 4 <= data.len() ==> r == Ok::<u32, Error>(le32(data@, p as int) as u32),
        p + 4 > data.len() ==> r == Err::<u32, Error>(Error::U32Truncated),
{
    if p > data.len() || 4 > data.len() - p {
        return Err(Error::U32Truncated);
    }
    proof {
        lemma_le_small(data@, p as int);
    }
    Ok(read_le(data, p, 4) as u32)
}

/// Reads the little-endian `u32` at `p` as an `i32` (two's complement).
pub fn i32_at(data: &[u8], p: usize) -> (r: Result<i32, Error>)
    ensures
        p + 4 <= data.len() ==> r == Ok::<i32, Error>((le32(data@, p as int) as u32) as i32),
        p + 4 > data.len() ==> r == Err::<i32, Error>(Error::U32Truncated),
{
    match u32_at(data, p) {
        Ok(v) => Ok(v as i32),
        Err(e) => Err(e),
    }
}

/// The value of a variable-width index, before the all-ones sentinel is mapped.
pub open spec fn raw_index(data: Seq<u8>, p: int, width: usize) -> nat {
    if width == 1 {
        data[p] as nat
    } else if width == 2 {
        le16(data, p)
    } else {
        le32(data, p)
    }
}

/// The all-ones sentinel of an index of `width` bytes.
pub open spec fn index_sentinel(width: usize) -> nat {
    if width == 1 {
        0xff
    } else if width == 2 {
        0xffff
    } else {
        0xffff_ffff
    }
}

/// The variable-width index of `width` bytes at `p`; the all-ones value stands for -1.
pub open spec fn variable_index_spec(data: Seq<u8>, p: int, width: usize) -> Result<i32, Error> {
    if width != 1 && width != 2 && width != 4 {
        Err(Error::UnsupportedIndexWidth(width))
    } else if p + width > data.len() {
        if width == 1 {
            Err(Error::IndexTruncated)
        } else if width == 2 {
            Err(Error::U16Truncated)
        } else {
            Err(Error::U32Truncated)
        }
    } else if raw_index(data, p, width) == index_sentinel(width) {
        Ok(-1i32)
    } else {
        Ok((raw_index(data, p, width) as u32) as i32)
    }
}

/// Reads a variable-width index of `width` bytes at `p`.
pub fn variable_index(data: &[u8], p: usize, width: usize) -> (r: Result<i32, Error>)
    ensures
        r == variable_index_spec(data@, p as int, width),
{
    proof {
        lemma_le_small(data@, p as int);
    }
    let raw: u32 = if width == 1 {
        if p >= data.len() {
            return Err(Error::IndexTruncated);
        }
        data[p] as u32
    } else if width == 2 {
        match u16_at(data, p) {
            Ok(v) => v as u32,
            Err(e) => return Err(e),
        }
    } else if width == 4 {
        match u32_at(data, p) {
            Ok(v) => v,
            Err(e) => return Err(e),
        }
    } else {
        return Err(Error::UnsupportedIndexWidth(width));
    };
    let sentinel: u32 = if width == 1 {
        0xff
    } else if width == 2 {
        0xffff
    } else {
        0xffff_ffff
    };
    if raw == sentinel {
        Ok(-1)
    } else {
        Ok(raw as i32)
    }
}

/// The byte width of an index into a table of `count` entries.
pub open spec fn index_width_spec(count: u32) -> usize {
    if count <= 0xff {
        1
    } else if count <= 0xffff {
        2
    } else {
        4
    }
}

/// The byte width of an index into a table of `count` entries.
pub fn index_width(count: u32) -> (w: usize)
    ensures
        w == index_width_spec(count),
{
    if count <= 0xff {
        1
    } else if count <= 0xffff {
        2
    } else {
        4
    }
}

/// The IL2CPP compressed unsigned integer at `p`, and the number of bytes it takes.
pub open spec fn compressed_u32_spec(data: Seq<u8>, p: int) -> Result<(u32, usize), Error> {
    if p >= data.len() {
        Err(Error::CompressedTruncated)
    } else {
        let read = data[p];
        if read < 0x80 {
            Ok((read as u32, 1))
        } else if read < 0xc0 {
            if p + 1 >= data.len() {
                Err(Error::CompressedTruncated)
            } else {
                Ok((((read - 0x80) * 0x100 + data[p + 1]) as u32, 2))
            }
        } else if read < 0xe0 {
            if p + 3 >= data.len() {
                Err(Error::CompressedTruncated)
            } else {
                Ok(
                    (
                        ((read - 0xc0) * 0x100_0000 + data[p + 1] * 0x1_0000 + data[p + 2] * 0x100
                            + data[p + 3]) as u32,
                        4,
                    ),
                )
            }
        } else if read == 0xf0 {
            if p + 5 > data.len() {
                Err(Error::U32Truncated)
            } else {
                Ok((le32(data, p + 1) as u32, 5))
            }
        } else if read == 0xfe {
            Ok((0xffff_fffe, 1))
        } else if read == 0xff {
            Ok((0xffff_ffff, 1))
        } else {
            Err(Error::CompressedPrefix(read))
        }
    }
}

/// Reads an IL2CPP compressed unsigned integer at `p`.
pub fn read_compressed_u32(data: &[u8], p: usize) -> (r: Result<(u32, usize), Error>)
    ensures
        r == compressed_u32_spec(data@, p as int),
{
    if p >= data.len() {
        return Err(Error::CompressedTruncated);
    }
    let read = data[p];
    if read < 0x80 {
        Ok((read as u32, 1))
    } else if read < 0xc0 {
        if data.len() - p < 2 {
            return Err(Error::CompressedTruncated);
        }
        let b1 = data[p + 1] as u32;
        Ok((((read - 0x80) as u32) * 0x100 + b1, 2))
    } else if read < 0xe0 {
        if data.len() - p < 4 {
            return Err(Error::CompressedTruncated);
        }
        let b1 = data[p + 1] as u32;
        let b2 = data[p + 2] as u32;
        let b3 = data[p + 3] as u32;
        Ok((((read - 0xc0) as u32) * 0x100_0000 + b1 * 0x1_0000 + b2 * 0x100 + b3, 4))
    } else if read == 0xf0 {
        match u32_at(data, p + 1) {
            Ok(v) => Ok((v, 5)),
            Err(e) => Err(e),
        }
    } else if read == 0xfe {
        Ok((0xffff_fffe, 1))
    } else if read == 0xff {
        Ok((0xffff_ffff, 1))
    } else {
        Err(Error::CompressedPrefix(read))
    }
}

/// The signed value of a compressed field default: zig-zag, with all ones for `i32::MIN`.
pub open spec fn zigzag_spec(encoded: u32) -> i32 {
    if encoded == 0xffff_ffff {
        i32::MIN
    } else if encoded % 2 == 1 {
        (-(encoded / 2) - 1) as i32
    } else {
        (encoded / 2) as i32
    }
}

/// Decodes the signed value of a compressed field default.
pub fn zigzag_decode(encoded: u32) -> (v: i32)
    ensures
        v == zigzag_spec(encoded),
{
    if encoded == u32::MAX {
        i32::MIN
    } else if encoded & 1 != 0 {
        assert(encoded & 1 == encoded % 2) by (bit_vector);
        assert(encoded >> 1 == encoded / 2) by (bit_vector);
        -(((encoded >> 1) as i64 + 1) as i32)
    } else {
        assert(encoded & 1 == encoded % 2) by (bit_vector);
        assert(encoded >> 1 == encoded / 2) by (bit_vector);
        (encoded >> 1) as i32
    }
}

/// The zig-zag encoding of `v` that IL2CPP writes: non-negative values doubled,
/// negative ones mapped to the odd numbers.
pub open spec fn zigzag_encode_spec(v: i32) -> u32 {
    if v >= 0 {
        (2 * v) as u32
    } else {
        (2 * (-v - 1) + 1) as u32
    }
}

/// Zig-zag decoding is a bijection between `u32` and `i32`: it undoes the encoding,
/// and the encoding undoes it.
pub proof fn law_zigzag_bijection(v: i32, e: u32)
    ensures
        zigzag_spec(zigzag_encode_spec(v)) == v,
        zigzag_encode_spec(zigzag_spec(e)) == e,
{
}

/// The compressed form in which IL2CPP writes `n`.
pub open spec fn compressed_encode_spec(n: u32) -> Seq<u8> {
    if n < 0x80 {
        seq![n as u8]
    } else if n < 0x4000 {
        seq![(0x80 + n / 0x100) as u8, (n % 0x100) as u8]
    } else if n < 0x2000_0000 {
        seq![
            (0xc0 + n / 0x100_0000) as u8,
            ((n / 0x1_0000) % 0x100) as u8,
            ((n / 0x100) % 0x100) as u8,
            (n % 0x100) as u8,
        ]
    } else if n == 0xffff_fffe {
        seq![0xfeu8]
    } else if n == 0xffff_ffff {
        seq![0xffu8]
    } else {
        seq![
            0xf0u8,
            (n % 0x100) as u8,
            ((n / 0x100) % 0x100) as u8,
            ((n / 0x1_0000) % 0x100) as u8,
            (n / 0x100_0000) as u8,
        ]
    }
}

/// Reading a compressed integer gives back what was written, whatever follows it.
pub proof fn law_compressed_roundtrip(n: u32, rest: Seq<u8>)
    ensures
        compressed_u32_spec(compressed_encode_spec(n) + rest, 0) == Ok::<(u32, usize), Error>(
            (n, compressed_encode_spec(n).len() as usize),
        ),
{
    let e = compressed_encode_spec(n);
    let d = e + rest;
    assert(d[0] == e[0]);
    if e.len() >= 2 {
        assert(d[1] == e[1]);
    }
    if e.len() >= 4 {
        assert(d[2] == e[2] && d[3] == e[3]);
    }
    if e.len() == 5 {
        assert(d[4] == e[4]);
        reveal_with_fuel(le_value, 5);
        assert(le32(d, 1) == n);
    }
}

/// Zig-zag decoding maps even codes to the non-negative numbers and odd codes to the
/// negative ones: `2n` decodes to `n` and `2n + 1` to `-n - 1`, for every `n` that
/// an `i32` holds.
pub proof fn law_zigzag_values(n: int)
    requires
        0 <= n <= i32::MAX,
    ensures
        zigzag_spec((2 * n) as u32) == n,
        zigzag_spec((2 * n + 1) as u32) == -n - 1,
{
}

} // verus!
