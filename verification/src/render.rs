//! Text outputs: the `.proto` skeleton and the markdown report.
use vstd::prelude::*;
use crate::metadata::{MetadataSummary, section_named, law_header_positions};
use crate::packets::{
    EnvelopeEntry, EnvelopeEntryModel, PacketCatalog, PacketField, PacketSchema, PacketSchemaModel,
    CatalogModel, entry_views, opt_view, packet_field_views, packet_views,
};
use crate::text::{
    ascii_lower, chars_of, str_eq, is_ascii_alnum, is_ascii_digit, is_ascii_upper, push_char,
    string_from_chars,
};

verus! {

/// The decimal digit `d < 10`.
pub open spec fn digit_char(d: nat) -> char {
    (48 + d) as char
}

/// Decimal text of `n`.
pub open spec fn dec_nat(n: nat) -> Seq<char>
    decreases n,
{
    if n < 10 {
        seq![digit_char(n)]
    } else {
        dec_nat(n / 10) + seq![digit_char(n % 10)]
    }
}

/// Decimal text of `n`, with a minus sign when negative.
pub open spec fn dec_int(n: int) -> Seq<char> {
    if n < 0 {
        seq!['-'] + dec_nat((-n) as nat)
    } else {
        dec_nat(n as nat)
    }
}

/// Appends the decimal text of `n`.
pub fn push_decimal(s: &mut String, n: u64)
    ensures
        final(s)@ == old(s)@ + dec_nat(n as nat),
    decreases n,
{
    if n >= 10 {
        push_decimal(s, n / 10);
    }
    let d = (n % 10) as u32;
    let c = char_from_digit(d);
    push_char(s, c);
    proof {
        if n >= 10 {
            assert(s@ =~= old(s)@ + dec_nat(n as nat));
        } else {
            assert(s@ =~= old(s)@ + dec_nat(n as nat));
        }
    }
}

/// The character of the decimal digit `d`.
fn char_from_digit(d: u32) -> (c: char)
    requires
        d < 10,
    ensures
        c == digit_char(d as nat),
{
    if d == 0 {
        '0'
    } else if d == 1 {
        '1'
    } else if d == 2 {
        '2'
    } else if d == 3 {
        '3'
    } else if d == 4 {
        '4'
    } else if d == 5 {
        '5'
    } else if d == 6 {
        '6'
    } else if d == 7 {
        '7'
    } else if d == 8 {
        '8'
    } else {
        '9'
    }
}

/// Appends the decimal text of `n`, with a minus sign when negative.
pub fn push_signed(s: &mut String, n: i64)
    ensures
        final(s)@ == old(s)@ + dec_int(n as int),
{
    if n < 0 {
        push_char(s, '-');
        let m: u64 = if n == i64::MIN {
            0x8000_0000_0000_0000
        } else {
            (-n) as u64
        };
        push_decimal(s, m);
        assert(s@ =~= old(s)@ + dec_int(n as int));
    } else {
        push_decimal(s, n as u64);
    }
}

/// The decimal text of `n`.
pub fn decimal(n: i64) -> (s: String)
    ensures
        s@ == dec_int(n as int),
{
    let mut s = String::new();
    push_signed(&mut s, n);
    assert(s@ =~= dec_int(n as int));
    s
}

/// The number that decimal digits `s` spell.
pub open spec fn digits_value(s: Seq<char>) -> nat
    decreases s.len(),
{
    if s.len() == 0 {
        0
    } else {
        10 * digits_value(s.drop_last()) + ((s.last() as u32) - 48) as nat
    }
}

/// The decimal text of `n` is a non-empty string of ASCII digits that spells `n`.
pub proof fn law_decimal(n: nat)
    ensures
        dec_nat(n).len() > 0,
        forall|i: int| 0 <= i < dec_nat(n).len() ==> is_ascii_digit(#[trigger] dec_nat(n)[i]),
        digits_value(dec_nat(n)) == n,
    decreases n,
{
    let last = n % 10;
    assert((digit_char(last) as u32) == 48 + last);
    if n < 10 {
        assert(dec_nat(n).drop_last() =~= Seq::<char>::empty());
        assert(digits_value(Seq::<char>::empty()) == 0);
        assert(dec_nat(n).last() == digit_char(n));
        assert(digits_value(dec_nat(n)) == 10 * digits_value(dec_nat(n).drop_last()) + last);
    }
    if n >= 10 {
        law_decimal(n / 10);
        let t = dec_nat(n / 10);
        let d = seq![digit_char(n % 10)];
        assert((t + d).drop_last() =~= t);
        assert((t + d).last() == digit_char(last));
        assert(dec_nat(n) == t + d);
        assert(digits_value(t + d) == 10 * digits_value(t) + last);
        assert(10 * (n / 10) + last == n);
        assert forall|i: int| 0 <= i < (t + d).len() implies is_ascii_digit(#[trigger] (t + d)[i]) by {
            if i < t.len() {
                assert((t + d)[i] == t[i]);
            }
        }
    }
}

/// A character of an identifier: ASCII letters, digits and `_` are kept, all else
/// becomes `_`.
pub open spec fn ident_char(c: char) -> char {
    if is_ascii_alnum(c) || c == '_' {
        c
    } else {
        '_'
    }
}

/// `s` as a protobuf identifier: every other character replaced by `_`, and `_`
/// put in front of a leading digit.
pub open spec fn sanitize_ident_spec(s: Seq<char>) -> Seq<char> {
    let m = s.map_values(|c: char| ident_char(c));
    if m.len() > 0 && is_ascii_digit(m[0]) {
        seq!['_'] + m
    } else {
        m
    }
}

/// `s` as a protobuf identifier.
pub fn sanitize_ident(s: &str) -> (r: String)
    ensures
        r@ == sanitize_ident_spec(s@),
{
    let cs = chars_of(s);
    let mut out: Vec<char> = Vec::new();
    let mut i: usize = 0;
    while i < cs.len()
        invariant
            i <= cs.len(),
            cs@ == s@,
            out@ == cs@.take(i as int).map_values(|c: char| ident_char(c)),
        decreases cs.len() - i,
    {
        let c = cs[i];
        let k = if ('A' <= c && c <= 'Z') || ('a' <= c && c <= 'z') || ('0' <= c && c <= '9') || c
            == '_' {
            c
        } else {
            '_'
        };
        out.push(k);
        i = i + 1;
        assert(out@ =~= cs@.take(i as int).map_values(|c: char| ident_char(c)));
    }
    assert(cs@.take(cs.len() as int) =~= cs@);
    if out.len() > 0 && '0' <= out[0] && out[0] <= '9' {
        out.insert(0, '_');
        assert(out@ =~= sanitize_ident_spec(s@));
    }
    string_from_chars(out.as_slice())
}

/// Whether `s` is a protobuf identifier: ASCII letters, digits and `_`, not
/// starting with a digit.
pub open spec fn is_identifier(s: Seq<char>) -> bool {
    &&& forall|i: int| 0 <= i < s.len() ==> is_ascii_alnum(#[trigger] s[i]) || s[i] == '_'
    &&& !(s.len() > 0 && is_ascii_digit(s[0]))
}

/// Sanitizing always yields an identifier, and one that is at most a character longer.
pub proof fn law_sanitize_ident(s: Seq<char>)
    ensures
        is_identifier(sanitize_ident_spec(s)),
        s.len() <= sanitize_ident_spec(s).len() <= s.len() + 1,
{
    let m = s.map_values(|c: char| ident_char(c));
    assert forall|i: int| 0 <= i < m.len() implies is_ascii_alnum(#[trigger] m[i]) || m[i] == '_' by {}
    if m.len() > 0 && is_ascii_digit(m[0]) {
        let r = seq!['_'] + m;
        assert forall|i: int| 0 <= i < r.len() implies is_ascii_alnum(#[trigger] r[i]) || r[i] == '_' by {
            if i > 0 {
                assert(r[i] == m[i - 1]);
            }
        }
    }
}

/// The snake-case characters of `s[i]`: lowercased, after `_` when it is an
/// uppercase ASCII letter other than the first character.
pub open spec fn snake_piece(s: Seq<char>, i: int) -> Seq<char> {
    if is_ascii_upper(s[i]) && i > 0 {
        seq!['_', ascii_lower(s[i])]
    } else {
        seq![ascii_lower(s[i])]
    }
}

/// The snake-case form of the first `n` characters of `s`.
pub open spec fn snake_upto(s: Seq<char>, n: nat) -> Seq<char>
    decreases n,
{
    if n == 0 {
        Seq::empty()
    } else {
        snake_upto(s, (n - 1) as nat) + snake_piece(s, n - 1)
    }
}

/// A camel-case field name as a snake-case protobuf identifier.
pub open spec fn sanitize_field_spec(s: Seq<char>) -> Seq<char> {
    sanitize_ident_spec(snake_upto(s, s.len()))
}

/// A camel-case field name as a snake-case protobuf identifier.
pub fn sanitize_field(s: &str) -> (r: String)
    ensures
        r@ == sanitize_field_spec(s@),
{
    let cs = chars_of(s);
    let mut out = String::new();
    let mut i: usize = 0;
    while i < cs.len()
        invariant
            i <= cs.len(),
            cs@ == s@,
            out@ == snake_upto(cs@, i as nat),
        decreases cs.len() - i,
    {
        let c = cs[i];
        let upper = 'A' <= c && c <= 'Z';
        if upper && i > 0 {
            push_char(&mut out, '_');
        }
        let lower = if upper {
            ((c as u32) + 32) as u8 as char
        } else {
            c
        };
        proof {
            if upper {
                assert(((c as u32) + 32) as u8 as char == ascii_lower(c));
            }
        }
        push_char(&mut out, lower);
        i = i + 1;
        assert(out@ =~= snake_upto(cs@, i as nat));
    }
    sanitize_ident(out.as_str())
}

/// The protobuf scalar of each .NET primitive: `System.String` is `string`,
/// `System.Boolean` `bool`, `System.Int32` `int32`, `System.UInt32` `uint32`,
/// `System.Int64` `int64`, `System.UInt64` `uint64`, `System.Single` `float` and
/// `System.Double` `double`, each without a comment. Any other resolved type is
/// `bytes` with its name in a comment, and an unresolved one is `bytes` with its
/// `TypeIndex` in a comment when it has one.
pub proof fn law_proto_scalars(name: Seq<char>, type_index: Option<i32>)
    ensures
        proto_type_spec(Some("System.String"@), type_index) == ("string"@, Seq::<char>::empty()),
        proto_type_spec(Some("System.Boolean"@), type_index) == ("bool"@, Seq::<char>::empty()),
        proto_type_spec(Some("System.Int32"@), type_index) == ("int32"@, Seq::<char>::empty()),
        proto_type_spec(Some("System.UInt32"@), type_index) == ("uint32"@, Seq::<char>::empty()),
        proto_type_spec(Some("System.Int64"@), type_index) == ("int64"@, Seq::<char>::empty()),
        proto_type_spec(Some("System.UInt64"@), type_index) == ("uint64"@, Seq::<char>::empty()),
        proto_type_spec(Some("System.Single"@), type_index) == ("float"@, Seq::<char>::empty()),
        proto_type_spec(Some("System.Double"@), type_index) == ("double"@, Seq::<char>::empty()),
        name != "System.String"@ && name != "System.Boolean"@ && name != "System.Int32"@ && name != "System.UInt32"@ && name != "System.Int64"@ && name != "System.UInt64"@ && name != "System.Single"@ && name != "System.Double"@ ==> proto_type_spec(Some(name), type_index) == (
            "bytes"@,
            " // IL2CPP direct type: "@ + name,
        ),
        proto_type_spec(None, type_index) == ("bytes"@, match type_index {
            Some(x) => " // unresolved TypeIndex "@ + dec_int(x as int),
            None => Seq::<char>::empty(),
        }),
{
    reveal_strlit("System.String");
    reveal_strlit("System.Boolean");
    reveal_strlit("System.Int32");
    reveal_strlit("System.UInt32");
    reveal_strlit("System.Int64");
    reveal_strlit("System.UInt64");
    reveal_strlit("System.Single");
    reveal_strlit("System.Double");
    assert("System.Boolean"@.len() != "System.String"@.len());
    assert("System.Int32"@.len() != "System.String"@.len());
    assert("System.Int32"@.len() != "System.Boolean"@.len());
    assert("System.UInt32"@[7] != "System.String"@[7]);
    assert("System.UInt32"@.len() != "System.Boolean"@.len());
    assert("System.UInt32"@.len() != "System.Int32"@.len());
    assert("System.Int64"@.len() != "System.String"@.len());
    assert("System.Int64"@.len() != "System.Boolean"@.len());
    assert("System.Int64"@[10] != "System.Int32"@[10]);
    assert("System.Int64"@.len() != "System.UInt32"@.len());
    assert("System.UInt64"@[7] != "System.String"@[7]);
    assert("System.UInt64"@.len() != "System.Boolean"@.len());
    assert("System.UInt64"@.len() != "System.Int32"@.len());
    assert("System.UInt64"@[11] != "System.UInt32"@[11]);
    assert("System.UInt64"@.len() != "System.Int64"@.len());
    assert("System.Single"@[8] != "System.String"@[8]);
    assert("System.Single"@.len() != "System.Boolean"@.len());
    assert("System.Single"@.len() != "System.Int32"@.len());
    assert("System.Single"@[7] != "System.UInt32"@[7]);
    assert("System.Single"@.len() != "System.Int64"@.len());
    assert("System.Single"@[7] != "System.UInt64"@[7]);
    assert("System.Double"@[7] != "System.String"@[7]);
    assert("System.Double"@.len() != "System.Boolean"@.len());
    assert("System.Double"@.len() != "System.Int32"@.len());
    assert("System.Double"@[7] != "System.UInt32"@[7]);
    assert("System.Double"@.len() != "System.Int64"@.len());
    assert("System.Double"@[7] != "System.UInt64"@[7]);
    assert("System.Double"@[7] != "System.Single"@[7]);
}

/// The protobuf scalar type and trailing comment for a field of the given direct
/// type name and `TypeIndex`.
pub open spec fn proto_type_spec(resolved: Option<Seq<char>>, type_index: Option<i32>) -> (
    Seq<char>,
    Seq<char>,
) {
    match resolved {
        Some(n) => if n == "System.String"@ {
            ("string"@, Seq::empty())
        } else if n == "System.Boolean"@ {
            ("bool"@, Seq::empty())
        } else if n == "System.Int32"@ {
            ("int32"@, Seq::empty())
        } else if n == "System.UInt32"@ {
            ("uint32"@, Seq::empty())
        } else if n == "System.Int64"@ {
            ("int64"@, Seq::empty())
        } else if n == "System.UInt64"@ {
            ("uint64"@, Seq::empty())
        } else if n == "System.Single"@ {
            ("float"@, Seq::empty())
        } else if n == "System.Double"@ {
            ("double"@, Seq::empty())
        } else {
            ("bytes"@, " // IL2CPP direct type: "@ + n)
        },
        None => (
            "bytes"@,
            match type_index {
                Some(x) => " // unresolved TypeIndex "@ + dec_int(x as int),
                None => Seq::empty(),
            },
        ),
    }
}

/// The protobuf scalar type and trailing comment for a field of the given direct
/// type name and `TypeIndex`; unknown types are `bytes`.
pub fn proto_type(resolved: Option<&str>, type_index: Option<i32>) -> (r: (&'static str, String))
    ensures
        (r.0@, r.1@) == proto_type_spec(
            match resolved {
                Some(n) => Some(n@),
                None => None,
            },
            type_index,
        ),
{
    match resolved {
        Some(n) => {
            if str_eq(n, "System.String") {
                ("string", String::new())
            } else if str_eq(n, "System.Boolean") {
                ("bool", String::new())
            } else if str_eq(n, "System.Int32") {
                ("int32", String::new())
            } else if str_eq(n, "System.UInt32") {
                ("uint32", String::new())
            } else if str_eq(n, "System.Int64") {
                ("int64", String::new())
            } else if str_eq(n, "System.UInt64") {
                ("uint64", String::new())
            } else if str_eq(n, "System.Single") {
                ("float", String::new())
            } else if str_eq(n, "System.Double") {
                ("double", String::new())
            } else {
                let mut c = String::new();
                c.append(" // IL2CPP direct type: ");
                c.append(n);
                ("bytes", c)
            }
        },
        None => {
            let mut c = String::new();
            match type_index {
                Some(x) => {
                    c.append(" // unresolved TypeIndex ");
                    push_signed(&mut c, x as i64);
                },
                None => {},
            }
            ("bytes", c)
        },
    }
}

/// One field line of the `.proto` skeleton.
pub open spec fn field_line(f: crate::packets::PacketFieldModel) -> Seq<char> {
    let (pt, comment) = proto_type_spec(f.resolved_type, f.type_index);
    "  "@ + pt + " "@ + sanitize_field_spec(f.name) + " = "@ + dec_int(f.number as int) + ";"@
        + comment + "\n"@
}

/// The field lines of the first `n` fields.
pub open spec fn field_lines(fs: Seq<crate::packets::PacketFieldModel>, n: nat) -> Seq<char>
    decreases n,
{
    if n == 0 {
        Seq::empty()
    } else {
        field_lines(fs, (n - 1) as nat) + field_line(fs[n - 1])
    }
}

/// One message of the `.proto` skeleton.
pub open spec fn message_text(p: PacketSchemaModel) -> Seq<char> {
    "message "@ + sanitize_ident_spec(p.name) + " {\n"@ + field_lines(p.fields, p.fields.len())
        + "}\n\n"@
}

/// The messages of the first `n` packets.
pub open spec fn messages_upto(ps: Seq<PacketSchemaModel>, n: nat) -> Seq<char>
    decreases n,
{
    if n == 0 {
        Seq::empty()
    } else {
        messages_upto(ps, (n - 1) as nat) + message_text(ps[n - 1])
    }
}

/// The opening of the `.proto` skeleton.
pub open spec fn skeleton_header() -> Seq<char> {
    "syntax = \"proto3\";\npackage msl.recovered;\n\n// Recovered field numbers. Unknown/generic IL2CPP types are represented as bytes.\n\n"@
}

/// The `.proto` skeleton of a catalog: one message per packet, one field per
/// recovered field number.
pub open spec fn proto_skeleton_spec(c: CatalogModel) -> Seq<char> {
    skeleton_header() + messages_upto(c.packets, c.packets.len())
}

/// The optional string as an optional `&str`.
fn opt_str(o: &Option<String>) -> (r: Option<&str>)
    ensures
        match r {
            Some(s) => opt_view(*o) == Some(s@),
            None => o is None,
        },
{
    match o {
        Some(s) => Some(s.as_str()),
        None => None,
    }
}

/// Appends one field line of the `.proto` skeleton.
fn push_field_line(out: &mut String, f: &PacketField)
    ensures
        final(out)@ == old(out)@ + field_line(f@),
{
    let (pt, comment) = proto_type(opt_str(&f.resolved_type), f.type_index);
    out.append("  ");
    out.append(pt);
    out.append(" ");
    let name = sanitize_field(f.name.as_str());
    out.append(name.as_str());
    out.append(" = ");
    push_signed(out, f.number as i64);
    out.append(";");
    out.append(comment.as_str());
    out.append("\n");
    assert(out@ =~= old(out)@ + field_line(f@));
}

/// Appends the `.proto` message of one packet.
fn push_message(out: &mut String, packet: &PacketSchema)
    ensures
        final(out)@ == old(out)@ + message_text(packet@),
{
    let ghost start = out@;
    out.append("message ");
    let ident = sanitize_ident(packet.name.as_str());
    out.append(ident.as_str());
    out.append(" {\n");
    let ghost head = out@;
    let ghost fv = packet_field_views(packet.fields@);
    let mut i: usize = 0;
    while i < packet.fields.len()
        invariant
            i <= packet.fields.len(),
            fv == packet_field_views(packet.fields@),
            out@ == head + field_lines(fv, i as nat),
        decreases packet.fields.len() - i,
    {
        let f = &packet.fields[i];
        assert(fv[i as int] == f@);
        push_field_line(out, f);
        i = i + 1;
        assert(out@ =~= head + field_lines(fv, i as nat));
    }
    out.append("}\n\n");
    assert(out@ =~= start + message_text(packet@));
}

/// The `.proto` skeleton of a catalog.
pub fn proto_skeleton(catalog: &PacketCatalog) -> (s: String)
    ensures
        s@ == proto_skeleton_spec(catalog@),
{
    let mut out = String::new();
    out.append("syntax = \"proto3\";\npackage msl.recovered;\n\n// Recovered field numbers. Unknown/generic IL2CPP types are represented as bytes.\n\n");
    let ghost pv = packet_views(catalog.packets@);
    let mut i: usize = 0;
    while i < catalog.packets.len()
        invariant
            i <= catalog.packets.len(),
            pv == packet_views(catalog.packets@),
            out@ == skeleton_header() + messages_upto(pv, i as nat),
        decreases catalog.packets.len() - i,
    {
        assert(pv[i as int] == catalog.packets@[i as int]@);
        push_message(&mut out, &catalog.packets[i]);
        i = i + 1;
        assert(out@ =~= skeleton_header() + messages_upto(pv, i as nat));
    }
    out
}

/// Whether `t` stands in `s` starting at position `k`.
pub open spec fn occurs_at(s: Seq<char>, t: Seq<char>, k: int) -> bool {
    0 <= k && k + t.len() <= s.len() && s.subrange(k, k + t.len()) == t
}

/// Text around an occurrence keeps it, shifted by what comes before.
proof fn lemma_occurs_within(a: Seq<char>, s: Seq<char>, b: Seq<char>, t: Seq<char>, k: int)
    requires
        occurs_at(s, t, k),
    ensures
        occurs_at(a + s + b, t, a.len() + k),
{
    assert((a + s + b).subrange(a.len() + k, a.len() + k + t.len()) =~= s.subrange(k, k + t.len()));
}

/// The line of field `j` stands in the field lines of the first `n > j` fields.
proof fn lemma_field_line_in_lines(fs: Seq<crate::packets::PacketFieldModel>, n: nat, j: int) -> (k: int)
    requires
        0 <= j < n <= fs.len(),
    ensures
        occurs_at(field_lines(fs, n), field_line(fs[j]), k),
    decreases n,
{
    let prev = field_lines(fs, (n - 1) as nat);
    let line = field_line(fs[n - 1]);
    if j == n - 1 {
        assert(line.subrange(0, line.len() as int) =~= line);
        lemma_occurs_within(prev, line, Seq::empty(), line, 0);
        assert(prev + line + Seq::<char>::empty() =~= field_lines(fs, n));
        prev.len() as int
    } else {
        let k = lemma_field_line_in_lines(fs, (n - 1) as nat, j);
        lemma_occurs_within(Seq::empty(), prev, line, field_line(fs[j]), k);
        assert(Seq::<char>::empty() + prev + line =~= field_lines(fs, n));
        k
    }
}

/// The line of field `j` of packet `i` stands in the messages of the first `n > i`
/// packets.
proof fn lemma_field_line_in_messages(ps: Seq<PacketSchemaModel>, n: nat, i: int, j: int) -> (k: int)
    requires
        0 <= i < n <= ps.len(),
        0 <= j < ps[i].fields.len(),
    ensures
        occurs_at(messages_upto(ps, n), field_line(ps[i].fields[j]), k),
    decreases n,
{
    let prev = messages_upto(ps, (n - 1) as nat);
    let last = message_text(ps[n - 1]);
    let line = field_line(ps[i].fields[j]);
    if i == n - 1 {
        let p = ps[i];
        let head = "message "@ + sanitize_ident_spec(p.name) + " {\n"@;
        let k0 = lemma_field_line_in_lines(p.fields, p.fields.len(), j);
        lemma_occurs_within(head, field_lines(p.fields, p.fields.len()), "}\n\n"@, line, k0);
        assert(head + field_lines(p.fields, p.fields.len()) + "}\n\n"@ =~= last);
        lemma_occurs_within(prev, last, Seq::empty(), line, head.len() + k0);
        assert(prev + last + Seq::<char>::empty() =~= messages_upto(ps, n));
        prev.len() + head.len() + k0
    } else {
        let k = lemma_field_line_in_messages(ps, (n - 1) as nat, i, j);
        lemma_occurs_within(Seq::empty(), prev, last, line, k);
        assert(Seq::<char>::empty() + prev + last =~= messages_upto(ps, n));
        k
    }
}

/// Every recovered field of every packet stands in the `.proto` skeleton as a line
/// that carries its field number; a field whose type is not resolved is declared
/// `bytes`, with its `TypeIndex` in a comment when it has one.
pub proof fn law_skeleton_keeps_fields(c: CatalogModel, i: int, j: int)
    requires
        0 <= i < c.packets.len(),
        0 <= j < c.packets[i].fields.len(),
    ensures
        exists|k: int| occurs_at(proto_skeleton_spec(c), field_line(c.packets[i].fields[j]), k),
        ({
            let f = c.packets[i].fields[j];
            f.resolved_type is None ==> field_line(f) == "  bytes "@ + sanitize_field_spec(f.name)
                + " = "@ + dec_int(f.number as int) + ";"@ + match f.type_index {
                Some(x) => " // unresolved TypeIndex "@ + dec_int(x as int),
                None => Seq::empty(),
            } + "\n"@
        }),
{
    let line = field_line(c.packets[i].fields[j]);
    let ms = messages_upto(c.packets, c.packets.len());
    let k = lemma_field_line_in_messages(c.packets, c.packets.len(), i, j);
    lemma_occurs_within(skeleton_header(), ms, Seq::empty(), line, k);
    assert(skeleton_header() + ms + Seq::<char>::empty() =~= proto_skeleton_spec(c));
    assert(occurs_at(proto_skeleton_spec(c), line, skeleton_header().len() + k));
    let f = c.packets[i].fields[j];
    if f.resolved_type is None {
        reveal_strlit("  ");
        reveal_strlit("bytes");
        reveal_strlit(" ");
        reveal_strlit("  bytes ");
        let rest = sanitize_field_spec(f.name) + " = "@ + dec_int(f.number as int) + ";"@
            + proto_type_spec(f.resolved_type, f.type_index).1 + "\n"@;
        assert("  "@ + "bytes"@ + " "@ =~= "  bytes "@);
        assert(field_line(f) =~= "  "@ + "bytes"@ + " "@ + rest);
        assert("  bytes "@ + rest =~= "  bytes "@ + sanitize_field_spec(f.name) + " = "@ + dec_int(
            f.number as int,
        ) + ";"@ + proto_type_spec(f.resolved_type, f.type_index).1 + "\n"@);
    }
}

/// Number of the first `n` packets whose direction is `request`.
pub open spec fn count_requests(ps: Seq<PacketSchemaModel>, n: nat) -> nat
    decreases n,
{
    if n == 0 {
        0
    } else {
        count_requests(ps, (n - 1) as nat) + if ps[n - 1].direction == "request"@ {
            1nat
        } else {
            0nat
        }
    }
}

/// A summary line of the report: `- label: `value``.
pub open spec fn summary_line(label: Seq<char>, value: Seq<char>) -> Seq<char> {
    label + value + "`\n"@
}

/// The payload type of the first entry with `tag`, or nothing.
pub open spec fn payload_for(es: Seq<EnvelopeEntryModel>, tag: i32, from: nat) -> Seq<char>
    decreases es.len() - from,
{
    if from >= es.len() {
        Seq::empty()
    } else if es[from as int].tag == tag {
        match es[from as int].payload_type {
            Some(p) => p,
            None => Seq::empty(),
        }
    } else {
        payload_for(es, tag, from + 1)
    }
}

/// The example tags of the report.
pub open spec fn report_tags() -> Seq<i32> {
    seq![50i32, 60, 61, 117, 500, 1000, 3004]
}

/// The table row of one example tag, when either envelope has a payload for it.
pub open spec fn tag_row(c: CatalogModel, tag: i32) -> Seq<char> {
    let req = payload_for(c.request_envelope, tag, 0);
    let rsp = payload_for(c.response_envelope, tag, 0);
    if req.len() > 0 || rsp.len() > 0 {
        "| "@ + dec_int(tag as int) + " | `"@ + req + "` | `"@ + rsp + "` |\n"@
    } else {
        Seq::empty()
    }
}

/// The rows of the first `n` example tags.
pub open spec fn tag_rows(c: CatalogModel, n: nat) -> Seq<char>
    decreases n,
{
    if n == 0 {
        Seq::empty()
    } else {
        tag_rows(c, (n - 1) as nat) + tag_row(c, report_tags()[n - 1])
    }
}

/// The packets whose schemas the report shows.
pub open spec fn report_packets() -> Seq<Seq<char>> {
    seq!["ReqUserLogin"@, "RspUserLogin"@, "ReqBattleStart"@, "RspBattleEnd"@, "RspServerTime"@]
}

/// One field row of a schema table.
pub open spec fn report_field_line(f: crate::packets::PacketFieldModel) -> Seq<char> {
    "| "@ + dec_int(f.number as int) + " | `"@ + f.name + "` | `"@ + match f.resolved_type {
        Some(r) => r,
        None => Seq::empty(),
    } + "` | "@ + match f.type_index {
        Some(t) => dec_int(t as int),
        None => Seq::empty(),
    } + " |\n"@
}

/// The field rows of the first `n` fields.
pub open spec fn report_field_lines(fs: Seq<crate::packets::PacketFieldModel>, n: nat) -> Seq<char>
    decreases n,
{
    if n == 0 {
        Seq::empty()
    } else {
        report_field_lines(fs, (n - 1) as nat) + report_field_line(fs[n - 1])
    }
}

/// The schema table of the packet named `name`, when the catalog has it.
pub open spec fn packet_table(c: CatalogModel, name: Seq<char>) -> Seq<char> {
    match crate::packets::first_packet_named(c.packets, name, 0) {
        None => Seq::empty(),
        Some(i) => {
            let p = c.packets[i as int];
            "## `"@ + p.name + "`\n\n| # | field | resolved type | TypeIndex |\n|---:|---|---|---:|\n"@ + report_field_lines(p.fields, p.fields.len())
                + "\n"@
        },
    }
}

/// The schema tables of the first `n` report packets.
pub open spec fn packet_tables(c: CatalogModel, n: nat) -> Seq<char>
    decreases n,
{
    if n == 0 {
        Seq::empty()
    } else {
        packet_tables(c, (n - 1) as nat) + packet_table(c, report_packets()[n - 1])
    }
}

/// The opening of the report: its title, the Unity version when known, and the
/// summary lines. The type, method and field counts are those of header entries 19,
/// 5 and 11, which `law_header_positions` shows are `typeDefinitions`, `methods`
/// and `fields`.
pub open spec fn report_summary(summary: MetadataSummary, c: CatalogModel, unity: Option<Seq<char>>) -> Seq<
    char,
> {
    "# Monster Super League IL2CPP / packet report\n\n"@ + match unity {
        Some(v) => summary_line("- Unity: `"@, v),
        None => Seq::empty(),
    } + report_counts(summary, c)
}

/// The summary lines of the report: version, counts of the metadata, packets and tags.
pub open spec fn report_counts(summary: MetadataSummary, c: CatalogModel) -> Seq<char> {
    let requests = count_requests(c.packets, c.packets.len());
    let responses = c.packets.len() - requests;
    summary_line("- IL2CPP metadata version: `"@, dec_nat(summary.version as nat)) + summary_line(
        "- Type definitions: `"@,
        dec_nat(summary.sections@[19].count as nat),
    ) + summary_line("- Methods: `"@, dec_nat(summary.sections@[5].count as nat)) + summary_line(
        "- Fields: `"@,
        dec_nat(summary.sections@[11].count as nat),
    ) + summary_line("- Request-like protobuf types: `"@, dec_nat(requests as nat)) + summary_line(
        "- Response-like protobuf types: `"@,
        dec_nat(responses as nat),
    ) + summary_line("- Request envelope payload tags: `"@, dec_nat(c.request_envelope.len() as nat)) + summary_line(
        "- Response envelope payload tags: `"@,
        dec_nat(c.response_envelope.len() as nat),
    )
}

/// The markdown report of a metadata summary and a catalog.
pub open spec fn report_spec(summary: MetadataSummary, c: CatalogModel, unity: Option<Seq<char>>) -> Seq<
    char,
> {
    report_summary(summary, c, unity) + "\nField numbers are recovered from generated `*FieldNumber` constants in IL2CPP metadata. `resolved_type` is only emitted when the build's direct TypeIndex mapping is unambiguous; generic collection instances stay as raw TypeIndex values.\n\n"@ + "## Envelope/tag examples\n\n| request tag | payload | response payload |\n|---:|---|---|\n"@ + tag_rows(c, 7) + "\n"@ + packet_tables(c, 5)
}

/// Appends a summary line.
fn push_line(out: &mut String, label: &str, value: u64)
    ensures
        final(out)@ == old(out)@ + summary_line(label@, dec_nat(value as nat)),
{
    out.append(label);
    push_decimal(out, value);
    out.append("`\n");
    assert(out@ =~= old(out)@ + summary_line(label@, dec_nat(value as nat)));
}

/// The payload type of the first entry with `tag`, or nothing.
fn payload_of(es: &Vec<EnvelopeEntry>, tag: i32) -> (r: String)
    ensures
        r@ == payload_for(entry_views(es@), tag, 0),
{
    let ghost ev = entry_views(es@);
    let mut i: usize = 0;
    while i < es.len()
        invariant
            i <= es.len(),
            ev == entry_views(es@),
            payload_for(ev, tag, 0) == payload_for(ev, tag, i as nat),
        decreases es.len() - i,
    {
        assert(ev[i as int] == es@[i as int]@);
        if es[i].tag == tag {
            return match &es[i].payload_type {
                Some(p) => p.clone(),
                None => String::new(),
            };
        }
        i = i + 1;
    }
    String::new()
}

/// Number of packets whose direction is `request`.
fn count_request_packets(ps: &Vec<PacketSchema>) -> (n: usize)
    ensures
        n == count_requests(packet_views(ps@), ps.len() as nat),
        n <= ps.len(),
{
    let ghost pv = packet_views(ps@);
    let request = "request".to_owned();
    let mut n: usize = 0;
    let mut i: usize = 0;
    while i < ps.len()
        invariant
            i <= ps.len(),
            pv == packet_views(ps@),
            request@ == "request"@,
            n == count_requests(pv, i as nat),
            n <= i,
        decreases ps.len() - i,
    {
        assert(pv[i as int] == ps@[i as int]@);
        if ps[i].direction == request {
            n = n + 1;
        }
        i = i + 1;
    }
    n
}

/// Appends one field row of a schema table.
fn push_report_field_line(out: &mut String, f: &PacketField)
    ensures
        final(out)@ == old(out)@ + report_field_line(f@),
{
    out.append("| ");
    push_signed(out, f.number as i64);
    out.append(" | `");
    out.append(f.name.as_str());
    out.append("` | `");
    match &f.resolved_type {
        Some(r) => out.append(r.as_str()),
        None => {},
    }
    out.append("` | ");
    match f.type_index {
        Some(t) => push_signed(out, t as i64),
        None => {},
    }
    out.append(" |\n");
    assert(out@ =~= old(out)@ + report_field_line(f@));
}

/// Appends the table row of one example tag.
fn push_tag_row(out: &mut String, catalog: &PacketCatalog, tag: i32)
    ensures
        final(out)@ == old(out)@ + tag_row(catalog@, tag),
{
    let req = payload_of(&catalog.request_envelope, tag);
    let rsp = payload_of(&catalog.response_envelope, tag);
    if !req.as_str().is_empty() || !rsp.as_str().is_empty() {
        out.append("| ");
        push_signed(out, tag as i64);
        out.append(" | `");
        out.append(req.as_str());
        out.append("` | `");
        out.append(rsp.as_str());
        out.append("` |\n");
    }
    assert(out@ =~= old(out)@ + tag_row(catalog@, tag));
}

/// Appends the rows of the example tags.
fn push_tag_rows(out: &mut String, catalog: &PacketCatalog)
    ensures
        final(out)@ == old(out)@ + tag_rows(catalog@, 7),
{
    let ghost prefix = out@;
    let tags: [i32; 7] = [50, 60, 61, 117, 500, 1000, 3004];
    assert(tags@ =~= report_tags());
    let mut k: usize = 0;
    while k < 7
        invariant
            k <= 7,
            tags@ == report_tags(),
            out@ == prefix + tag_rows(catalog@, k as nat),
        decreases 7 - k,
    {
        push_tag_row(out, catalog, tags[k]);
        k = k + 1;
        assert(out@ =~= prefix + tag_rows(catalog@, k as nat));
    }
}

/// Appends the schema tables of the report packets.
fn push_packet_tables(out: &mut String, catalog: &PacketCatalog)
    ensures
        final(out)@ == old(out)@ + packet_tables(catalog@, 5),
{
    let ghost prefix = out@;
    let ghost c = catalog@;
    let wanted: [&str; 5] = ["ReqUserLogin", "RspUserLogin", "ReqBattleStart", "RspBattleEnd", "RspServerTime"];
    let mut w: usize = 0;
    while w < 5
        invariant
            w <= 5,
            forall|j: int| 0 <= j < 5 ==> #[trigger] wanted@[j]@ == report_packets()[j],
            c == catalog@,
            out@ == prefix + packet_tables(c, w as nat),
        decreases 5 - w,
    {
        let ghost before = out@;
        match crate::packets::find_packet(&catalog.packets, wanted[w]) {
            Some(i) => {
                assert(c.packets[i as int] == catalog.packets@[i as int]@);
                push_packet_table(out, &catalog.packets[i]);
            },
            None => {},
        }
        assert(out@ =~= before + packet_table(c, report_packets()[w as int]));
        w = w + 1;
        assert(out@ =~= prefix + packet_tables(c, w as nat));
    }
}

/// Appends the schema table of one packet.
fn push_packet_table(out: &mut String, p: &PacketSchema)
    ensures
        final(out)@ == old(out)@ + "## `"@ + p@.name + "`\n\n| # | field | resolved type | TypeIndex |\n|---:|---|---|---:|\n"@ + report_field_lines(
            p@.fields,
            p@.fields.len(),
        ) + "\n"@,
{
    let ghost start = out@;
    out.append("## `");
    out.append(p.name.as_str());
    out.append("`\n\n| # | field | resolved type | TypeIndex |\n|---:|---|---|---:|\n");
    let ghost head = out@;
    let ghost fv = packet_field_views(p.fields@);
    let mut i: usize = 0;
    while i < p.fields.len()
        invariant
            i <= p.fields.len(),
            fv == packet_field_views(p.fields@),
            out@ == head + report_field_lines(fv, i as nat),
        decreases p.fields.len() - i,
    {
        let f = &p.fields[i];
        assert(fv[i as int] == f@);
        push_report_field_line(out, f);
        i = i + 1;
        assert(out@ =~= head + report_field_lines(fv, i as nat));
    }
    out.append("\n");
    assert(out@ =~= start + "## `"@ + p@.name + "`\n\n| # | field | resolved type | TypeIndex |\n|---:|---|---|---:|\n"@ + report_field_lines(
        p@.fields,
        p@.fields.len(),
    ) + "\n"@);
}

/// Appends the summary lines of the report.
#[verifier::rlimit(30)]
fn push_report_counts(s: &mut String, summary: &MetadataSummary, catalog: &PacketCatalog)
    requires
        summary.sections.len() > 19,
    ensures
        final(s)@ == old(s)@ + report_counts(*summary, catalog@),
{
    let ghost start = s@;
    let requests = count_request_packets(&catalog.packets);
    let responses = catalog.packets.len() - requests;
    push_line(s, "- IL2CPP metadata version: `", summary.version as u64);
    push_line(s, "- Type definitions: `", summary.sections[19].count as u64);
    push_line(s, "- Methods: `", summary.sections[5].count as u64);
    push_line(s, "- Fields: `", summary.sections[11].count as u64);
    push_line(s, "- Request-like protobuf types: `", requests as u64);
    push_line(s, "- Response-like protobuf types: `", responses as u64);
    push_line(s, "- Request envelope payload tags: `", catalog.request_envelope.len() as u64);
    push_line(s, "- Response envelope payload tags: `", catalog.response_envelope.len() as u64);
    assert(s@ =~= start + report_counts(*summary, catalog@));
}

/// Appends the opening of the report.
fn push_report_summary(s: &mut String, summary: &MetadataSummary, catalog: &PacketCatalog, unity_version: Option<&str>)
    requires
        summary.sections.len() > 19,
    ensures
        final(s)@ == old(s)@ + report_summary(
            *summary,
            catalog@,
            match unity_version {
                Some(v) => Some(v@),
                None => None,
            },
        ),
{
    let ghost start = s@;
    s.append("# Monster Super League IL2CPP / packet report\n\n");
    match unity_version {
        Some(v) => {
            s.append("- Unity: `");
            s.append(v);
            s.append("`\n");
        },
        None => {},
    }
    push_report_counts(s, summary, catalog);
    assert(s@ =~= start + report_summary(
        *summary,
        catalog@,
        match unity_version {
            Some(v) => Some(v@),
            None => None,
        },
    ));
}

/// The markdown report of a metadata summary and a catalog.
#[verifier::rlimit(30)]
pub fn report(summary: MetadataSummary, catalog: &PacketCatalog, unity_version: Option<&str>) -> (s:
    String)
    requires
        summary.sections.len() > 19,
    ensures
        s@ == report_spec(
            summary,
            catalog@,
            match unity_version {
                Some(v) => Some(v@),
                None => None,
            },
        ),
{
    let ghost u = match unity_version {
        Some(v) => Some(v@),
        None => None,
    };
    let mut s = String::new();
    push_report_summary(&mut s, &summary, catalog, unity_version);
    let ghost head = s@;
    s.append("\nField numbers are recovered from generated `*FieldNumber` constants in IL2CPP metadata. `resolved_type` is only emitted when the build's direct TypeIndex mapping is unambiguous; generic collection instances stay as raw TypeIndex values.\n\n");
    s.append("## Envelope/tag examples\n\n| request tag | payload | response payload |\n|---:|---|---|\n");
    push_tag_rows(&mut s, catalog);
    s.append("\n");
    push_packet_tables(&mut s, catalog);
    assert(head =~= report_summary(summary, catalog@, u));
    assert(s@ =~= report_spec(summary, catalog@, u));
    s
}

/// What stands in the summary lines stands in the report, after its opening.
proof fn lemma_counts_in_report(summary: MetadataSummary, c: CatalogModel, unity: Option<Seq<char>>, t: Seq<char>, k: int)
    requires
        occurs_at(report_counts(summary, c), t, k),
    ensures
        occurs_at(
            report_spec(summary, c, unity),
            t,
            (report_summary(summary, c, unity).len() - report_counts(summary, c).len()) + k,
        ),
{
    let rs = report_summary(summary, c, unity);
    let rc = report_counts(summary, c);
    let whole = report_spec(summary, c, unity);
    let head = "# Monster Super League IL2CPP / packet report\n\n"@ + match unity {
        Some(v) => summary_line("- Unity: `"@, v),
        None => Seq::empty(),
    };
    assert(rs == head + rc);
    lemma_occurs_within(head, rc, Seq::empty(), t, k);
    assert(head + rc + Seq::<char>::empty() =~= rs);
    assert(whole.subrange(0, rs.len() as int) =~= rs);
    assert(whole.subrange(head.len() + k, head.len() + k + t.len()) =~= rs.subrange(
        head.len() + k,
        head.len() + k + t.len(),
    ));
}

/// Where the type, method and field lines stand in the summary lines.
proof fn lemma_count_lines(summary: MetadataSummary, c: CatalogModel)
    requires
        summary.sections.len() > 19,
    ensures
        ({
            let secs = summary.sections@;
            let l0 = summary_line("- IL2CPP metadata version: `"@, dec_nat(summary.version as nat));
            let l1 = summary_line("- Type definitions: `"@, dec_nat(secs[19].count as nat));
            let l2 = summary_line("- Methods: `"@, dec_nat(secs[5].count as nat));
            let l3 = summary_line("- Fields: `"@, dec_nat(secs[11].count as nat));
            &&& occurs_at(report_counts(summary, c), l1, l0.len() as int)
            &&& occurs_at(report_counts(summary, c), l2, (l0.len() + l1.len()) as int)
            &&& occurs_at(report_counts(summary, c), l3, (l0.len() + l1.len() + l2.len()) as int)
        }),
{
    let secs = summary.sections@;
    let rc = report_counts(summary, c);
    let l0 = summary_line("- IL2CPP metadata version: `"@, dec_nat(summary.version as nat));
    let l1 = summary_line("- Type definitions: `"@, dec_nat(secs[19].count as nat));
    let l2 = summary_line("- Methods: `"@, dec_nat(secs[5].count as nat));
    let l3 = summary_line("- Fields: `"@, dec_nat(secs[11].count as nat));
    let p = l0 + l1 + l2 + l3;
    assert(rc.subrange(0, p.len() as int) =~= p);
    assert(rc.subrange(l0.len() as int, (l0.len() + l1.len()) as int) =~= l1);
    assert(rc.subrange(((l0.len() + l1.len()) as int) as int, (l0.len() + l1.len() + l2.len()) as int) =~= l2);
    assert(rc.subrange((l0.len() + l1.len() + l2.len()) as int, p.len() as int) =~= l3);
}

/// The report names the counts of the header entries by their names: its type
/// definitions, methods and fields lines carry the counts of the sections listed in
/// the header as `typeDefinitions`, `methods` and `fields`.
pub proof fn law_report_counts_by_name(summary: MetadataSummary, c: CatalogModel, unity: Option<Seq<char>>)
    requires
        summary.sections.len() > 19,
    ensures
        section_named(summary.sections@, "typeDefinitions"@) is Some,
        section_named(summary.sections@, "methods"@) is Some,
        section_named(summary.sections@, "fields"@) is Some,
        forall|t: crate::metadata::Section|
            section_named(summary.sections@, "typeDefinitions"@) == Some(t) ==> exists|k: int|
                #[trigger] occurs_at(
                    report_spec(summary, c, unity),
                    "- Type definitions: `"@ + dec_nat(t.count as nat) + "`\n"@,
                    k,
                ),
        forall|m: crate::metadata::Section|
            section_named(summary.sections@, "methods"@) == Some(m) ==> exists|k: int|
                #[trigger] occurs_at(
                    report_spec(summary, c, unity),
                    "- Methods: `"@ + dec_nat(m.count as nat) + "`\n"@,
                    k,
                ),
        forall|f: crate::metadata::Section|
            section_named(summary.sections@, "fields"@) == Some(f) ==> exists|k: int|
                #[trigger] occurs_at(
                    report_spec(summary, c, unity),
                    "- Fields: `"@ + dec_nat(f.count as nat) + "`\n"@,
                    k,
                ),
{
    law_header_positions();
    let secs = summary.sections@;
    let l0 = summary_line("- IL2CPP metadata version: `"@, dec_nat(summary.version as nat));
    let l1 = summary_line("- Type definitions: `"@, dec_nat(secs[19].count as nat));
    let l2 = summary_line("- Methods: `"@, dec_nat(secs[5].count as nat));
    let l3 = summary_line("- Fields: `"@, dec_nat(secs[11].count as nat));
    lemma_count_lines(summary, c);
    lemma_counts_in_report(summary, c, unity, l1, l0.len() as int);
    lemma_counts_in_report(summary, c, unity, l2, (l0.len() + l1.len()) as int);
    lemma_counts_in_report(summary, c, unity, l3, (l0.len() + l1.len() + l2.len()) as int);
    let off = report_summary(summary, c, unity).len() - report_counts(summary, c).len();
    assert(section_named(secs, "typeDefinitions"@) == Some(secs[19]));
    assert(section_named(secs, "methods"@) == Some(secs[5]));
    assert(section_named(secs, "fields"@) == Some(secs[11]));
    assert forall|t: crate::metadata::Section|
        section_named(summary.sections@, "typeDefinitions"@) == Some(t) implies exists|k: int|
            #[trigger] occurs_at(
                report_spec(summary, c, unity),
                "- Type definitions: `"@ + dec_nat(t.count as nat) + "`\n"@,
                k,
            ) by {
        assert(t == secs[19]);
        assert(occurs_at(report_spec(summary, c, unity), l1, off + l0.len()));
    }
    assert forall|m: crate::metadata::Section|
        section_named(summary.sections@, "methods"@) == Some(m) implies exists|k: int|
            #[trigger] occurs_at(
                report_spec(summary, c, unity),
                "- Methods: `"@ + dec_nat(m.count as nat) + "`\n"@,
                k,
            ) by {
        assert(m == secs[5]);
        assert(occurs_at(report_spec(summary, c, unity), l2, off + (l0.len() + l1.len())));
    }
    assert forall|f: crate::metadata::Section|
        section_named(summary.sections@, "fields"@) == Some(f) implies exists|k: int|
            #[trigger] occurs_at(
                report_spec(summary, c, unity),
                "- Fields: `"@ + dec_nat(f.count as nat) + "`\n"@,
                k,
            ) by {
        assert(f == secs[11]);
        assert(occurs_at(report_spec(summary, c, unity), l3, off + (l0.len() + l1.len() + l2.len())));
    }
}

} // verus!
