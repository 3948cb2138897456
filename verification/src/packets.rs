//! Recovery of generated protobuf packet schemas and envelope tags from metadata.
use std::collections::HashMap;
use vstd::prelude::*;
use crate::error::Error;
use crate::metadata::{
    FieldDef, FieldDefModel, MetadataV39, TypeDef, TypeDefModel, field_views, type_views,
};
use crate::text::{
    append_chars, bytes_lt, chars_of, has_prefix, is_ascii_upper, lower_first, lower_first_spec,
    push_char, starts_with, string_from_chars, strip_suffix, strip_suffix_spec,
};

verus! {

broadcast use vstd::std_specs::hash::group_hash_axioms;

/// The suffix of generated field-number constants.
pub open spec fn field_number_suffix() -> Seq<char> {
    seq!['F', 'i', 'e', 'l', 'd', 'N', 'u', 'm', 'b', 'e', 'r']
}

/// The characters of the field-number constant suffix.
fn field_number_suffix_chars() -> (v: Vec<char>)
    ensures
        v@ == field_number_suffix(),
{
    let v = vec!['F', 'i', 'e', 'l', 'd', 'N', 'u', 'm', 'b', 'e', 'r'];
    assert(v@ =~= field_number_suffix());
    v
}

/// One recovered field of a packet schema.
#[derive(Debug, Clone)]
pub struct PacketField {
    pub name: String,
    pub number: i32,
    pub constant_field: String,
    pub backing_field: Option<String>,
    pub type_index: Option<i32>,
    pub resolved_type: Option<String>,
}

/// One recovered packet schema.
#[derive(Debug, Clone)]
pub struct PacketSchema {
    pub name: String,
    pub namespace: String,
    pub direction: String,
    pub type_definition_index: usize,
    pub fields: Vec<PacketField>,
}

/// One payload tag of the `Request` or `Response` envelope.
#[derive(Debug, Clone)]
pub struct EnvelopeEntry {
    pub tag: i32,
    pub field_name: String,
    pub payload_type: Option<String>,
    pub type_index: Option<i32>,
}

/// All recovered packet schemas and envelope tags.
#[derive(Debug, Clone)]
pub struct PacketCatalog {
    pub packets: Vec<PacketSchema>,
    pub request_envelope: Vec<EnvelopeEntry>,
    pub response_envelope: Vec<EnvelopeEntry>,
}

/// The characters of an optional string.
pub open spec fn opt_view(o: Option<String>) -> Option<Seq<char>> {
    match o {
        Some(s) => Some(s@),
        None => None,
    }
}

/// A recovered field with its strings as characters.
pub ghost struct PacketFieldModel {
    pub name: Seq<char>,
    pub number: i32,
    pub constant_field: Seq<char>,
    pub backing_field: Option<Seq<char>>,
    pub type_index: Option<i32>,
    pub resolved_type: Option<Seq<char>>,
}

/// A packet schema with its strings as characters.
pub ghost struct PacketSchemaModel {
    pub name: Seq<char>,
    pub namespace: Seq<char>,
    pub direction: Seq<char>,
    pub type_definition_index: usize,
    pub fields: Seq<PacketFieldModel>,
}

/// An envelope entry with its strings as characters.
pub ghost struct EnvelopeEntryModel {
    pub tag: i32,
    pub field_name: Seq<char>,
    pub payload_type: Option<Seq<char>>,
    pub type_index: Option<i32>,
}

/// A catalog with its strings as characters.
pub ghost struct CatalogModel {
    pub packets: Seq<PacketSchemaModel>,
    pub request_envelope: Seq<EnvelopeEntryModel>,
    pub response_envelope: Seq<EnvelopeEntryModel>,
}

impl View for PacketField {
    type V = PacketFieldModel;

    open spec fn view(&self) -> PacketFieldModel {
        PacketFieldModel {
            name: self.name@,
            number: self.number,
            constant_field: self.constant_field@,
            backing_field: opt_view(self.backing_field),
            type_index: self.type_index,
            resolved_type: opt_view(self.resolved_type),
        }
    }
}

/// The views of packet fields.
pub open spec fn packet_field_views(s: Seq<PacketField>) -> Seq<PacketFieldModel> {
    s.map_values(|f: PacketField| f@)
}

impl View for PacketSchema {
    type V = PacketSchemaModel;

    open spec fn view(&self) -> PacketSchemaModel {
        PacketSchemaModel {
            name: self.name@,
            namespace: self.namespace@,
            direction: self.direction@,
            type_definition_index: self.type_definition_index,
            fields: packet_field_views(self.fields@),
        }
    }
}

impl View for EnvelopeEntry {
    type V = EnvelopeEntryModel;

    open spec fn view(&self) -> EnvelopeEntryModel {
        EnvelopeEntryModel {
            tag: self.tag,
            field_name: self.field_name@,
            payload_type: opt_view(self.payload_type),
            type_index: self.type_index,
        }
    }
}

/// The views of packet schemas.
pub open spec fn packet_views(s: Seq<PacketSchema>) -> Seq<PacketSchemaModel> {
    s.map_values(|p: PacketSchema| p@)
}

/// The views of envelope entries.
pub open spec fn entry_views(s: Seq<EnvelopeEntry>) -> Seq<EnvelopeEntryModel> {
    s.map_values(|e: EnvelopeEntry| e@)
}

impl View for PacketCatalog {
    type V = CatalogModel;

    open spec fn view(&self) -> CatalogModel {
        CatalogModel {
            packets: packet_views(self.packets@),
            request_envelope: entry_views(self.request_envelope@),
            response_envelope: entry_views(self.response_envelope@),
        }
    }
}

/// The parts of parsed metadata that schema recovery reads.
pub ghost struct MetaModel {
    pub fields: Seq<FieldDefModel>,
    pub types: Seq<TypeDefModel>,
    pub defaults: Map<usize, i32>,
    pub names: Map<i32, Seq<char>>,
}

/// The parts of `m` that schema recovery reads.
pub open spec fn meta_model(m: &MetadataV39) -> MetaModel {
    MetaModel {
        fields: field_views(m.fields@),
        types: type_views(m.types@),
        defaults: m.field_defaults@,
        names: m.direct_names_view(),
    }
}

/// Where `x` goes into `s` so that it follows every element that `after` does not
/// put after it: before the first element that comes after `x`.
pub open spec fn insert_pos<T>(s: Seq<T>, x: T, after: spec_fn(T, T) -> bool) -> nat
    decreases s.len(),
{
    if s.len() == 0 {
        0
    } else if after(s[0], x) {
        0
    } else {
        1 + insert_pos(s.drop_first(), x, after)
    }
}

/// Stable insertion sort: `after(y, x)` holds when `y` must come after `x`.
pub open spec fn insertion_sort<T>(s: Seq<T>, after: spec_fn(T, T) -> bool) -> Seq<T>
    decreases s.len(),
{
    if s.len() == 0 {
        s
    } else {
        let r = insertion_sort(s.drop_last(), after);
        r.insert(insert_pos(r, s.last(), after) as int, s.last())
    }
}

/// Field order: by field number.
pub open spec fn field_after(y: PacketFieldModel, x: PacketFieldModel) -> bool {
    y.number > x.number
}

/// Envelope order: by tag.
pub open spec fn entry_after(y: EnvelopeEntryModel, x: EnvelopeEntryModel) -> bool {
    y.tag > x.tag
}

/// The field order as a relation.
pub open spec fn by_number() -> spec_fn(PacketFieldModel, PacketFieldModel) -> bool {
    |y: PacketFieldModel, x: PacketFieldModel| field_after(y, x)
}

/// The envelope order as a relation.
pub open spec fn by_tag() -> spec_fn(EnvelopeEntryModel, EnvelopeEntryModel) -> bool {
    |y: EnvelopeEntryModel, x: EnvelopeEntryModel| entry_after(y, x)
}

/// The packet order as a relation.
pub open spec fn by_name() -> spec_fn(PacketSchemaModel, PacketSchemaModel) -> bool {
    |y: PacketSchemaModel, x: PacketSchemaModel| packet_after(y, x)
}

/// Packet order: by the UTF-8 bytes of the name.
pub open spec fn packet_after(y: PacketSchemaModel, x: PacketSchemaModel) -> bool {
    bytes_lt(vstd::utf8::encode_utf8(x.name), vstd::utf8::encode_utf8(y.name))
}

/// Whether `name` starts with `prefix` followed by an ASCII uppercase letter.
pub open spec fn packet_prefix_spec(name: Seq<char>, prefix: Seq<char>) -> bool {
    has_prefix(name, prefix) && name.len() > prefix.len() && is_ascii_upper(name[prefix.len() as int])
}

/// Whether `name` starts with `prefix` followed by an ASCII uppercase letter.
pub fn packet_prefix(name: &str, prefix: &str) -> (b: bool)
    ensures
        b == packet_prefix_spec(name@, prefix@),
{
    let n = chars_of(name);
    let p = chars_of(prefix);
    if !starts_with(n.as_slice(), p.as_slice()) {
        return false;
    }
    if n.len() <= p.len() {
        return false;
    }
    let c = n[p.len()];
    'A' <= c && c <= 'Z'
}

/// The request prefix `Req`.
pub open spec fn req_chars() -> Seq<char> {
    seq!['R', 'e', 'q']
}

/// The message-request prefix `MsgReq`.
pub open spec fn msg_req_chars() -> Seq<char> {
    seq!['M', 's', 'g', 'R', 'e', 'q']
}

/// The response prefix `Rsp`.
pub open spec fn rsp_chars() -> Seq<char> {
    seq!['R', 's', 'p']
}

/// The message-response prefix `MsgRsp`.
pub open spec fn msg_rsp_chars() -> Seq<char> {
    seq!['M', 's', 'g', 'R', 's', 'p']
}

/// The direction `request`.
pub open spec fn request_chars() -> Seq<char> {
    seq!['r', 'e', 'q', 'u', 'e', 's', 't']
}

/// The direction `response`.
pub open spec fn response_chars() -> Seq<char> {
    seq!['r', 'e', 's', 'p', 'o', 'n', 's', 'e']
}

/// The direction of a packet type by its name: `Req`/`MsgReq` then an uppercase
/// letter is a request, `Rsp`/`MsgRsp` then an uppercase letter a response.
pub open spec fn direction_of(name: Seq<char>) -> Option<Seq<char>> {
    if packet_prefix_spec(name, req_chars()) || packet_prefix_spec(name, msg_req_chars()) {
        Some(request_chars())
    } else if packet_prefix_spec(name, rsp_chars()) || packet_prefix_spec(name, msg_rsp_chars()) {
        Some(response_chars())
    } else {
        None
    }
}

/// The field records of a type: none when its field start is negative, else those
/// from the start on, at most `count` of them; `None` when the start lies past the table.
pub open spec fn field_slice(fields: Seq<FieldDefModel>, field_start: i32, count: u16) -> Option<
    Seq<FieldDefModel>,
> {
    if field_start < 0 {
        Some(Seq::empty())
    } else if field_start > fields.len() {
        None
    } else {
        let end = if field_start + count <= fields.len() {
            field_start + count
        } else {
            fields.len() as int
        };
        Some(fields.subrange(field_start as int, end))
    }
}

/// The last position in `fs` of a field named `name`.
pub open spec fn last_named(fs: Seq<FieldDefModel>, name: Seq<char>) -> Option<int>
    decreases fs.len(),
{
    if fs.len() == 0 {
        None
    } else if fs.last().name == name {
        Some(fs.len() - 1)
    } else {
        last_named(fs.drop_last(), name)
    }
}

/// The end of an auto-property backing field name, `>k__BackingField`.
pub open spec fn backing_suffix_chars() -> Seq<char> {
    seq!['>', 'k', '_', '_', 'B', 'a', 'c', 'k', 'i', 'n', 'g', 'F', 'i', 'e', 'l', 'd']
}

/// The backing field of the constant `baseFieldNumber`: the first of `camel_`,
/// `base_`, `<base>k__BackingField` that names a field of the slice (its last one).
pub open spec fn backing_of(slice: Seq<FieldDefModel>, base: Seq<char>, camel: Seq<char>) -> Option<
    FieldDefModel,
> {
    let c1 = camel + seq!['_'];
    let c2 = base + seq!['_'];
    let c3 = seq!['<'] + base + backing_suffix_chars();
    match last_named(slice, c1) {
        Some(j) => Some(slice[j]),
        None => match last_named(slice, c2) {
            Some(j) => Some(slice[j]),
            None => match last_named(slice, c3) {
                Some(j) => Some(slice[j]),
                None => None,
            },
        },
    }
}

/// The direct type name of an optional `TypeIndex`.
pub open spec fn resolved(names: Map<i32, Seq<char>>, ti: Option<i32>) -> Option<Seq<char>> {
    match ti {
        Some(i) => if names.contains_key(i) {
            Some(names[i])
        } else {
            None
        },
        None => None,
    }
}

/// The constant `f` of a packet type, read as a recovered field when it is one:
/// its name ends in `FieldNumber` and its default value is a positive number.
pub open spec fn packet_field_of(mm: MetaModel, slice: Seq<FieldDefModel>, f: FieldDefModel) -> Option<
    PacketFieldModel,
> {
    match strip_suffix_spec(f.name, field_number_suffix()) {
        None => None,
        Some(base) => if !mm.defaults.contains_key(f.index) || mm.defaults[f.index] <= 0 {
            None
        } else {
            let camel = lower_first_spec(base);
            let b = backing_of(slice, base, camel);
            let ti = match b {
                Some(x) => Some(x.type_index),
                None => None,
            };
            Some(
                PacketFieldModel {
                    name: camel,
                    number: mm.defaults[f.index],
                    constant_field: f.name,
                    backing_field: match b {
                        Some(x) => Some(x.name),
                        None => None,
                    },
                    type_index: ti,
                    resolved_type: resolved(mm.names, ti),
                },
            )
        },
    }
}

/// The recovered fields among the first `n` fields of the slice, in slice order.
pub open spec fn packet_fields_upto(mm: MetaModel, slice: Seq<FieldDefModel>, n: nat) -> Seq<
    PacketFieldModel,
>
    decreases n,
{
    if n == 0 {
        Seq::empty()
    } else {
        let prev = packet_fields_upto(mm, slice, (n - 1) as nat);
        match packet_field_of(mm, slice, slice[n - 1]) {
            Some(pf) => prev.push(pf),
            None => prev,
        }
    }
}

/// The recovered fields of a packet type, sorted by number.
pub open spec fn packet_fields(mm: MetaModel, slice: Seq<FieldDefModel>) -> Seq<PacketFieldModel> {
    insertion_sort(packet_fields_upto(mm, slice, slice.len()), by_number())
}

/// The schema of type `t`, or `None` when it is no packet type.
pub open spec fn packet_of(mm: MetaModel, t: TypeDefModel) -> Option<Result<PacketSchemaModel, Error>> {
    match direction_of(t.name) {
        None => None,
        Some(dir) => match field_slice(mm.fields, t.field_start, t.field_count) {
            None => Some(Err(Error::FieldRangeOutOfBounds)),
            Some(slice) => Some(
                Ok(
                    PacketSchemaModel {
                        name: t.name,
                        namespace: t.namespace,
                        direction: dir,
                        type_definition_index: t.index,
                        fields: packet_fields(mm, slice),
                    },
                ),
            ),
        },
    }
}

/// The schemas of the packet types among the first `n` types, in type order.
pub open spec fn packets_upto(mm: MetaModel, n: nat) -> Result<Seq<PacketSchemaModel>, Error>
    decreases n,
{
    if n == 0 {
        Ok(Seq::empty())
    } else {
        match packets_upto(mm, (n - 1) as nat) {
            Err(e) => Err(e),
            Ok(prev) => match packet_of(mm, mm.types[n - 1]) {
                None => Ok(prev),
                Some(Err(e)) => Err(e),
                Some(Ok(p)) => Ok(prev.push(p)),
            },
        }
    }
}

/// The constant `f` of an envelope type, read as a payload tag when it is one:
/// its name ends in `FieldNumber` and its default value is at least 50.
pub open spec fn entry_of(mm: MetaModel, slice: Seq<FieldDefModel>, f: FieldDefModel) -> Option<
    EnvelopeEntryModel,
> {
    match strip_suffix_spec(f.name, field_number_suffix()) {
        None => None,
        Some(base) => if !mm.defaults.contains_key(f.index) || mm.defaults[f.index] < 50 {
            None
        } else {
            let camel = lower_first_spec(base);
            let b = backing_of(slice, base, camel);
            let ti = match b {
                Some(x) => Some(x.type_index),
                None => None,
            };
            Some(
                EnvelopeEntryModel {
                    tag: mm.defaults[f.index],
                    field_name: camel,
                    payload_type: resolved(mm.names, ti),
                    type_index: ti,
                },
            )
        },
    }
}

/// The payload tags among the first `n` fields of the slice, in slice order.
pub open spec fn entries_upto(mm: MetaModel, slice: Seq<FieldDefModel>, n: nat) -> Seq<
    EnvelopeEntryModel,
>
    decreases n,
{
    if n == 0 {
        Seq::empty()
    } else {
        let prev = entries_upto(mm, slice, (n - 1) as nat);
        match entry_of(mm, slice, slice[n - 1]) {
            Some(e) => prev.push(e),
            None => prev,
        }
    }
}

/// The position of the first type in the global namespace named `name`.
pub open spec fn first_type_named(types: Seq<TypeDefModel>, name: Seq<char>, from: nat) -> Option<nat>
    decreases types.len() - from,
{
    if from >= types.len() {
        None
    } else if types[from as int].namespace.len() == 0 && types[from as int].name == name {
        Some(from)
    } else {
        first_type_named(types, name, from + 1)
    }
}

/// The payload tags of the envelope type named `name`, sorted by tag.
pub open spec fn envelope_spec(mm: MetaModel, name: Seq<char>) -> Result<Seq<EnvelopeEntryModel>, Error> {
    match first_type_named(mm.types, name, 0) {
        None => Ok(Seq::empty()),
        Some(i) => {
            let t = mm.types[i as int];
            if t.field_start < 0 {
                Ok(Seq::empty())
            } else {
                match field_slice(mm.fields, t.field_start, t.field_count) {
                    None => Err(Error::EnvelopeRangeOutOfBounds),
                    Some(slice) => Ok(insertion_sort(entries_upto(mm, slice, slice.len()), by_tag())),
                }
            }
        },
    }
}

/// The name of the request envelope type, `Request`.
pub open spec fn request_type_chars() -> Seq<char> {
    seq!['R', 'e', 'q', 'u', 'e', 's', 't']
}

/// The name of the response envelope type, `Response`.
pub open spec fn response_type_chars() -> Seq<char> {
    seq!['R', 'e', 's', 'p', 'o', 'n', 's', 'e']
}

/// The catalog that schema recovery gives for `mm`.
pub open spec fn catalog_spec(mm: MetaModel) -> Result<CatalogModel, Error> {
    match packets_upto(mm, mm.types.len()) {
        Err(e) => Err(e),
        Ok(ps) => match envelope_spec(mm, request_type_chars()) {
            Err(e) => Err(e),
            Ok(req) => match envelope_spec(mm, response_type_chars()) {
                Err(e) => Err(e),
                Ok(rsp) => Ok(
                    CatalogModel {
                        packets: insertion_sort(ps, by_name()),
                        request_envelope: req,
                        response_envelope: rsp,
                    },
                ),
            },
        },
    }
}

/// Skipping an element that `x` does not go before moves the insert position by one.
proof fn lemma_insert_pos_step<T>(s: Seq<T>, x: T, after: spec_fn(T, T) -> bool, k: int)
    requires
        0 <= k < s.len(),
        !after(s[k], x),
    ensures
        insert_pos(s.skip(k), x, after) == 1 + insert_pos(s.skip(k + 1), x, after),
{
    assert(s.skip(k).drop_first() =~= s.skip(k + 1));
    assert(s.skip(k)[0] == s[k]);
}

/// Sorting a sequence with one more element inserts it into the sorted rest.
proof fn lemma_insertion_sort_push<T>(s: Seq<T>, x: T, after: spec_fn(T, T) -> bool)
    ensures
        insertion_sort(s.push(x), after) == insertion_sort(s, after).insert(
            insert_pos(insertion_sort(s, after), x, after) as int,
            x,
        ),
{
    assert(s.push(x).drop_last() =~= s);
}

/// Inserts `x` into `v` after every field whose number is not above its own.
fn insert_field_sorted(v: &mut Vec<PacketField>, x: PacketField)
    ensures
        packet_field_views(final(v)@) == packet_field_views(old(v)@).insert(
            insert_pos(packet_field_views(old(v)@), x@, by_number()) as int,
            x@,
        ),
{
    let ghost s = packet_field_views(v@);
    let mut k: usize = 0;
    assert(s.skip(0) =~= s);
    while k < v.len() && !(v[k].number > x.number)
        invariant
            k <= v.len(),
            s == packet_field_views(v@),
            insert_pos(s, x@, by_number()) == k + insert_pos(s.skip(k as int), x@, by_number()),
        decreases v.len() - k,
    {
        proof {
            lemma_insert_pos_step(s, x@, by_number(), k as int);
        }
        k = k + 1;
    }
    proof {
        if k < v.len() {
            assert(s.skip(k as int)[0] == s[k as int]);
        }
    }
    let ghost xv = x@;
    v.insert(k, x);
    assert(packet_field_views(v@) =~= s.insert(k as int, xv));
}

/// Inserts `x` into `v` after every entry whose tag is not above its own.
fn insert_entry_sorted(v: &mut Vec<EnvelopeEntry>, x: EnvelopeEntry)
    ensures
        entry_views(final(v)@) == entry_views(old(v)@).insert(
            insert_pos(entry_views(old(v)@), x@, by_tag()) as int,
            x@,
        ),
{
    let ghost s = entry_views(v@);
    let mut k: usize = 0;
    assert(s.skip(0) =~= s);
    while k < v.len() && !(v[k].tag > x.tag)
        invariant
            k <= v.len(),
            s == entry_views(v@),
            insert_pos(s, x@, by_tag()) == k + insert_pos(s.skip(k as int), x@, by_tag()),
        decreases v.len() - k,
    {
        proof {
            lemma_insert_pos_step(s, x@, by_tag(), k as int);
        }
        k = k + 1;
    }
    proof {
        if k < v.len() {
            assert(s.skip(k as int)[0] == s[k as int]);
        }
    }
    let ghost xv = x@;
    v.insert(k, x);
    assert(entry_views(v@) =~= s.insert(k as int, xv));
}

/// Inserts `x` into `v` after every schema whose name does not order after its own.
fn insert_packet_sorted(v: &mut Vec<PacketSchema>, x: PacketSchema)
    ensures
        packet_views(final(v)@) == packet_views(old(v)@).insert(
            insert_pos(packet_views(old(v)@), x@, by_name()) as int,
            x@,
        ),
{
    let ghost s = packet_views(v@);
    let mut k: usize = 0;
    assert(s.skip(0) =~= s);
    while k < v.len() && !crate::text::lex_less(x.name.as_str().as_bytes(), v[k].name.as_str().as_bytes())
        invariant
            k <= v.len(),
            s == packet_views(v@),
            insert_pos(s, x@, by_name()) == k + insert_pos(s.skip(k as int), x@, by_name()),
        decreases v.len() - k,
    {
        proof {
            lemma_insert_pos_step(s, x@, by_name(), k as int);
        }
        k = k + 1;
    }
    proof {
        if k < v.len() {
            assert(s.skip(k as int)[0] == s[k as int]);
        }
    }
    let ghost xv = x@;
    v.insert(k, x);
    assert(packet_views(v@) =~= s.insert(k as int, xv));
}

/// The last position in `fields[start..end]` of a field named `name`.
fn last_named_in(fields: &Vec<FieldDef>, start: usize, end: usize, name: &String) -> (r: Option<usize>)
    requires
        start <= end <= fields.len(),
    ensures
        match last_named(field_views(fields@).subrange(start as int, end as int), name@) {
            Some(j) => r == Some((start + j) as usize),
            None => r is None,
        },
        r matches Some(k) ==> start <= k < end,
{
    let ghost slice = field_views(fields@).subrange(start as int, end as int);
    let mut k: usize = end;
    assert(slice.take(end - start) =~= slice);
    while k > start
        invariant
            start <= k <= end <= fields.len(),
            slice == field_views(fields@).subrange(start as int, end as int),
            last_named(slice, name@) == last_named(slice.take(k - start), name@),
        decreases k - start,
    {
        let ghost pre = slice.take(k - start);
        assert(pre.last() == fields@[k - 1]@);
        if fields[k - 1].name == *name {
            assert(last_named(pre, name@) == Some(pre.len() - 1));
            return Some(k - 1);
        }
        assert(pre.drop_last() =~= slice.take(k - 1 - start));
        k = k - 1;
    }
    None
}

/// The candidate names of the backing field of the constant `baseFieldNumber`.
fn backing_candidates(base: &Vec<char>, camel: &String) -> (r: (String, String, String))
    ensures
        r.0@ == camel@ + seq!['_'],
        r.1@ == base@ + seq!['_'],
        r.2@ == seq!['<'] + base@ + backing_suffix_chars(),
{
    let mut c1 = camel.clone();
    push_char(&mut c1, '_');
    let mut c2 = string_from_chars(base.as_slice());
    push_char(&mut c2, '_');
    let mut c3 = String::new();
    push_char(&mut c3, '<');
    append_chars(&mut c3, base.as_slice());
    let tail = vec!['>', 'k', '_', '_', 'B', 'a', 'c', 'k', 'i', 'n', 'g', 'F', 'i', 'e', 'l', 'd'];
    assert(tail@ =~= backing_suffix_chars());
    append_chars(&mut c3, tail.as_slice());
    assert(c3@ =~= seq!['<'] + base@ + backing_suffix_chars());
    (c1, c2, c3)
}

/// The position in `fields` of the backing field of the constant `baseFieldNumber`,
/// looked up in `fields[start..end]`.
fn find_backing(fields: &Vec<FieldDef>, start: usize, end: usize, base: &Vec<char>, camel: &String) -> (r:
    Option<usize>)
    requires
        start <= end <= fields.len(),
    ensures
        match backing_of(field_views(fields@).subrange(start as int, end as int), base@, camel@) {
            Some(f) => r matches Some(k) && start <= k < end && fields@[k as int]@ == f,
            None => r is None,
        },
{
    let (c1, c2, c3) = backing_candidates(base, camel);
    let ghost slice = field_views(fields@).subrange(start as int, end as int);
    proof {
        lemma_last_named_bound(slice, c1@);
        lemma_last_named_bound(slice, c2@);
        lemma_last_named_bound(slice, c3@);
    }
    match last_named_in(fields, start, end, &c1) {
        Some(k) => return Some(k),
        None => {},
    }
    match last_named_in(fields, start, end, &c2) {
        Some(k) => return Some(k),
        None => {},
    }
    last_named_in(fields, start, end, &c3)
}

/// The last field of a given name is one of the fields and has that name.
proof fn lemma_last_named_bound(fs: Seq<FieldDefModel>, name: Seq<char>)
    ensures
        last_named(fs, name) matches Some(j) ==> 0 <= j < fs.len() && fs[j].name == name,
    decreases fs.len(),
{
    if fs.len() > 0 {
        lemma_last_named_bound(fs.drop_last(), name);
    }
}

/// The backing field of the constant `baseFieldNumber` in `fields[start..end]`:
/// its name, its `TypeIndex`, and the direct type name of that index.
fn backing_info(metadata: &MetadataV39, start: usize, end: usize, base: &Vec<char>, camel: &String) -> (r: (
    Option<String>,
    Option<i32>,
    Option<String>,
))
    requires
        start <= end <= metadata.fields.len(),
    ensures
        ({
            let b = backing_of(
                field_views(metadata.fields@).subrange(start as int, end as int),
                base@,
                camel@,
            );
            let ti = match b {
                Some(x) => Some(x.type_index),
                None => None,
            };
            &&& opt_view(r.0) == match b {
                Some(x) => Some(x.name),
                None => None::<Seq<char>>,
            }
            &&& r.1 == ti
            &&& opt_view(r.2) == resolved(metadata.direct_names_view(), ti)
        }),
{
    match find_backing(&metadata.fields, start, end, base, camel) {
        None => (None, None, None),
        Some(k) => {
            let ti = metadata.fields[k].type_index;
            let resolved_type = match metadata.resolve_direct_type(ti) {
                Some(t) => Some(t.to_owned()),
                None => None,
            };
            (Some(metadata.fields[k].name.clone()), Some(ti), resolved_type)
        },
    }
}

/// The base and camel-case names of the constant at `j` and its default value, when
/// its name ends in `FieldNumber` and it has a default.
fn constant_at(metadata: &MetadataV39, j: usize) -> (r: Option<(Vec<char>, String, i32)>)
    requires
        j < metadata.fields.len(),
    ensures
        ({
            let f = metadata.fields@[j as int]@;
            match strip_suffix_spec(f.name, field_number_suffix()) {
                None => r is None,
                Some(base) => if !metadata.field_defaults@.contains_key(f.index) {
                    r is None
                } else {
                    r matches Some((b, c, v)) && b@ == base && c@ == lower_first_spec(base) && v
                        == metadata.field_defaults@[f.index]
                },
            }
        }),
{
    let cs = chars_of(metadata.fields[j].name.as_str());
    let suffix = field_number_suffix_chars();
    let base = match strip_suffix(cs.as_slice(), suffix.as_slice()) {
        Some(b) => b,
        None => return None,
    };
    let value = match metadata.field_defaults.get(&metadata.fields[j].index) {
        Some(v) => *v,
        None => return None,
    };
    let base_s = string_from_chars(base.as_slice());
    let camel = lower_first(base_s.as_str());
    Some((base, camel, value))
}

/// The recovered packet field of the constant at `j`, looked up in `fields[start..end]`.
fn packet_field_at(metadata: &MetadataV39, start: usize, end: usize, j: usize) -> (r: Option<
    PacketField,
>)
    requires
        start <= j < end <= metadata.fields.len(),
    ensures
        match packet_field_of(
            meta_model(metadata),
            field_views(metadata.fields@).subrange(start as int, end as int),
            metadata.fields@[j as int]@,
        ) {
            Some(pf) => r matches Some(x) && x@ == pf,
            None => r is None,
        },
{
    let (base, camel, number) = match constant_at(metadata, j) {
        Some(c) => c,
        None => return None,
    };
    if number <= 0 {
        return None;
    }
    let (backing_field, type_index, resolved_type) = backing_info(metadata, start, end, &base, &camel);
    Some(PacketField {
        name: camel,
        number,
        constant_field: metadata.fields[j].name.clone(),
        backing_field,
        type_index,
        resolved_type,
    })
}

/// The envelope entry of the constant at `j`, looked up in `fields[start..end]`.
fn entry_at(metadata: &MetadataV39, start: usize, end: usize, j: usize) -> (r: Option<EnvelopeEntry>)
    requires
        start <= j < end <= metadata.fields.len(),
    ensures
        match entry_of(
            meta_model(metadata),
            field_views(metadata.fields@).subrange(start as int, end as int),
            metadata.fields@[j as int]@,
        ) {
            Some(e) => r matches Some(x) && x@ == e,
            None => r is None,
        },
{
    let (base, camel, tag) = match constant_at(metadata, j) {
        Some(c) => c,
        None => return None,
    };
    if tag < 50 {
        return None;
    }
    let (_backing_field, type_index, payload_type) = backing_info(metadata, start, end, &base, &camel);
    Some(EnvelopeEntry { tag, field_name: camel, payload_type, type_index })
}

/// The bounds in the field table of a type's field records: empty for a negative
/// start, else from the start on, at most `count` of them; `None` past the table.
fn field_range(fields: &Vec<FieldDef>, field_start: i32, count: u16) -> (r: Option<(usize, usize)>)
    ensures
        match field_slice(field_views(fields@), field_start, count) {
            None => r is None,
            Some(sl) => r matches Some((a, b)) && a <= b <= fields.len() && field_views(
                fields@,
            ).subrange(a as int, b as int) == sl,
        },
{
    if field_start < 0 {
        assert(field_views(fields@).subrange(0, 0) =~= Seq::<FieldDefModel>::empty());
        return Some((0, 0));
    }
    let start = field_start as usize;
    if start > fields.len() {
        return None;
    }
    let want = start + count as usize;
    let end = if want <= fields.len() {
        want
    } else {
        fields.len()
    };
    Some((start, end))
}

/// The recovered fields of a packet type whose records are `fields[start..end]`,
/// sorted by number.
fn recover_packet_fields(metadata: &MetadataV39, start: usize, end: usize) -> (v: Vec<PacketField>)
    requires
        start <= end <= metadata.fields.len(),
    ensures
        packet_field_views(v@) == packet_fields(
            meta_model(metadata),
            field_views(metadata.fields@).subrange(start as int, end as int),
        ),
{
    let ghost mm = meta_model(metadata);
    let ghost slice = field_views(metadata.fields@).subrange(start as int, end as int);
    let mut out: Vec<PacketField> = Vec::new();
    let mut j: usize = start;
    while j < end
        invariant
            start <= j <= end <= metadata.fields.len(),
            mm == meta_model(metadata),
            slice == field_views(metadata.fields@).subrange(start as int, end as int),
            packet_field_views(out@) == insertion_sort(
                packet_fields_upto(mm, slice, (j - start) as nat),
                by_number(),
            ),
        decreases end - j,
    {
        let ghost prev = packet_fields_upto(mm, slice, (j - start) as nat);
        assert(slice[j - start] == metadata.fields@[j as int]@);
        match packet_field_at(metadata, start, end, j) {
            Some(pf) => {
                proof {
                    lemma_insertion_sort_push(prev, pf@, by_number());
                }
                insert_field_sorted(&mut out, pf);
            },
            None => {},
        }
        j = j + 1;
    }
    out
}

/// The payload tags of an envelope type whose records are `fields[start..end]`,
/// sorted by tag.
fn recover_entries(metadata: &MetadataV39, start: usize, end: usize) -> (v: Vec<EnvelopeEntry>)
    requires
        start <= end <= metadata.fields.len(),
    ensures
        ({
            let slice = field_views(metadata.fields@).subrange(start as int, end as int);
            entry_views(v@) == insertion_sort(
                entries_upto(meta_model(metadata), slice, slice.len()),
                by_tag(),
            )
        }),
{
    let ghost mm = meta_model(metadata);
    let ghost slice = field_views(metadata.fields@).subrange(start as int, end as int);
    let mut out: Vec<EnvelopeEntry> = Vec::new();
    let mut j: usize = start;
    while j < end
        invariant
            start <= j <= end <= metadata.fields.len(),
            mm == meta_model(metadata),
            slice == field_views(metadata.fields@).subrange(start as int, end as int),
            entry_views(out@) == insertion_sort(entries_upto(mm, slice, (j - start) as nat), by_tag()),
        decreases end - j,
    {
        let ghost prev = entries_upto(mm, slice, (j - start) as nat);
        assert(slice[j - start] == metadata.fields@[j as int]@);
        match entry_at(metadata, start, end, j) {
            Some(e) => {
                proof {
                    lemma_insertion_sort_push(prev, e@, by_tag());
                }
                insert_entry_sorted(&mut out, e);
            },
            None => {},
        }
        j = j + 1;
    }
    out
}

/// The direction of a packet type by its name, as text.
fn direction_for(name: &str) -> (r: Option<String>)
    ensures
        match direction_of(name@) {
            Some(d) => r matches Some(s) && s@ == d,
            None => r is None,
        },
{
    proof {
        reveal_strlit("Req");
        reveal_strlit("MsgReq");
        reveal_strlit("Rsp");
        reveal_strlit("MsgRsp");
        reveal_strlit("request");
        reveal_strlit("response");
        assert("Req"@ =~= req_chars());
        assert("MsgReq"@ =~= msg_req_chars());
        assert("Rsp"@ =~= rsp_chars());
        assert("MsgRsp"@ =~= msg_rsp_chars());
        assert("request"@ =~= request_chars());
        assert("response"@ =~= response_chars());
    }
    if packet_prefix(name, "Req") || packet_prefix(name, "MsgReq") {
        Some("request".to_owned())
    } else if packet_prefix(name, "Rsp") || packet_prefix(name, "MsgRsp") {
        Some("response".to_owned())
    } else {
        None
    }
}

/// The position of the first type in the global namespace named `name`.
fn find_global_type(types: &Vec<TypeDef>, name: &str) -> (r: Option<usize>)
    ensures
        r matches Some(i) ==> first_type_named(type_views(types@), name@, 0) == Some(i as nat) && i
            < types.len(),
        r is None ==> first_type_named(type_views(types@), name@, 0) is None,
{
    let target = name.to_owned();
    let mut i: usize = 0;
    while i < types.len()
        invariant
            i <= types.len(),
            target@ == name@,
            first_type_named(type_views(types@), name@, 0) == first_type_named(
                type_views(types@),
                name@,
                i as nat,
            ),
        decreases types.len() - i,
    {
        if types[i].namespace.as_str().is_empty() && types[i].name == target {
            assert(first_type_named(type_views(types@), name@, i as nat) == Some(i as nat));
            return Some(i);
        }
        i = i + 1;
    }
    None
}

/// The first type of a given name from `from` on lies in the type table.
proof fn lemma_first_type_named_bound(types: Seq<TypeDefModel>, name: Seq<char>, from: nat)
    ensures
        first_type_named(types, name, from) matches Some(i) ==> from <= i < types.len(),
    decreases types.len() - from,
{
    if from < types.len() {
        lemma_first_type_named_bound(types, name, from + 1);
    }
}

/// Once schema recovery stops at an error, later types do not change it.
proof fn lemma_packets_err_stable(mm: MetaModel, n: nat, m: nat)
    requires
        n <= m,
        packets_upto(mm, n) is Err,
    ensures
        packets_upto(mm, m) == packets_upto(mm, n),
    decreases m,
{
    if m > n {
        lemma_packets_err_stable(mm, n, (m - 1) as nat);
    }
}

/// The payload tags of the envelope type named `envelope_name` in the global
/// namespace, sorted by tag; none when there is no such type.
#[verifier::rlimit(30)]
pub fn envelope_entries(metadata: &MetadataV39, envelope_name: &str) -> (r: Result<
    Vec<EnvelopeEntry>,
    Error,
>)
    ensures
        match envelope_spec(meta_model(metadata), envelope_name@) {
            Ok(es) => r matches Ok(v) && entry_views(v@) == es,
            Err(e) => r == Err::<Vec<EnvelopeEntry>, Error>(e),
        },
{
    let ghost mm = meta_model(metadata);
    let empty: Vec<EnvelopeEntry> = Vec::new();
    assert(entry_views(empty@) =~= Seq::<EnvelopeEntryModel>::empty());
    let i = match find_global_type(&metadata.types, envelope_name) {
        Some(i) => i,
        None => return Ok(empty),
    };
    proof {
        lemma_first_type_named_bound(mm.types, envelope_name@, 0);
    }
    assert(mm.types[i as int] == metadata.types@[i as int]@);
    assert(first_type_named(mm.types, envelope_name@, 0) == Some(i as nat));
    let t = &metadata.types[i];
    if t.field_start < 0 {
        return Ok(empty);
    }
    match field_range(&metadata.fields, t.field_start, t.field_count) {
        None => Err(Error::EnvelopeRangeOutOfBounds),
        Some((a, b)) => {
            let v = recover_entries(metadata, a, b);
            assert(field_slice(mm.fields, t.field_start, t.field_count) == Some(
                field_views(metadata.fields@).subrange(a as int, b as int),
            ));
            Ok(v)
        },
    }
}

/// The position of the first schema named `name` from position `from` on.
pub open spec fn first_packet_named(ps: Seq<PacketSchemaModel>, name: Seq<char>, from: nat) -> Option<
    nat,
>
    decreases ps.len() - from,
{
    if from >= ps.len() {
        None
    } else if ps[from as int].name == name {
        Some(from)
    } else {
        first_packet_named(ps, name, from + 1)
    }
}

/// Field number to field name, over the first `n` fields with a positive number,
/// later fields winning.
pub open spec fn name_map_upto(fields: Seq<PacketFieldModel>, n: nat) -> Map<u32, Seq<char>>
    decreases n,
{
    if n == 0 {
        Map::empty()
    } else {
        let f = fields[n - 1];
        if f.number > 0 {
            name_map_upto(fields, (n - 1) as nat).insert(f.number as u32, f.name)
        } else {
            name_map_upto(fields, (n - 1) as nat)
        }
    }
}

/// The field names of the first schema named `packet`, by field number.
pub open spec fn field_name_map_spec(c: CatalogModel, packet: Seq<char>) -> Option<
    Map<u32, Seq<char>>,
> {
    match first_packet_named(c.packets, packet, 0) {
        Some(i) => Some(name_map_upto(c.packets[i as int].fields, c.packets[i as int].fields.len())),
        None => None,
    }
}

/// The characters of each name of a field-name map.
pub open spec fn name_map_view(m: Map<u32, String>) -> Map<u32, Seq<char>> {
    m.map_values(|s: String| s@)
}

/// The first packet of a given name from `from` on lies in the packet list.
proof fn lemma_first_packet_named_bound(ps: Seq<PacketSchemaModel>, name: Seq<char>, from: nat)
    ensures
        first_packet_named(ps, name, from) matches Some(i) ==> from <= i < ps.len(),
    decreases ps.len() - from,
{
    if from < ps.len() {
        lemma_first_packet_named_bound(ps, name, from + 1);
    }
}

/// The position of the first schema named `name`.
pub(crate) fn find_packet(packets: &Vec<PacketSchema>, name: &str) -> (r: Option<usize>)
    ensures
        r matches Some(i) ==> first_packet_named(packet_views(packets@), name@, 0) == Some(i as nat)
            && i < packets.len(),
        r is None ==> first_packet_named(packet_views(packets@), name@, 0) is None,
{
    let target = name.to_owned();
    let mut i: usize = 0;
    while i < packets.len()
        invariant
            i <= packets.len(),
            target@ == name@,
            first_packet_named(packet_views(packets@), name@, 0) == first_packet_named(
                packet_views(packets@),
                name@,
                i as nat,
            ),
        decreases packets.len() - i,
    {
        assert(packet_views(packets@)[i as int] == packets@[i as int]@);
        if packets[i].name == target {
            return Some(i);
        }
        i = i + 1;
    }
    None
}

impl PacketCatalog {
    /// Field number to field name for the packet named `packet`.
    pub fn field_name_map(&self, packet: &str) -> (r: Result<HashMap<u32, String>, Error>)
        ensures
            match field_name_map_spec(self@, packet@) {
                Some(m) => r matches Ok(v) && name_map_view(v@) == m,
                None => r matches Err(Error::PacketNotFound(p)) && p@ == packet@,
            },
    {
        let ghost c = self@;
        let i = match find_packet(&self.packets, packet) {
            Some(i) => i,
            None => return Err(Error::PacketNotFound(packet.to_owned())),
        };
        proof {
            lemma_first_packet_named_bound(c.packets, packet@, 0);
            assert(c.packets[i as int] == self.packets@[i as int]@);
        }
        let fields = &self.packets[i].fields;
        let ghost fv = packet_field_views(fields@);
        let mut m: HashMap<u32, String> = HashMap::new();
        let mut j: usize = 0;
        while j < fields.len()
            invariant
                j <= fields.len(),
                fv == packet_field_views(fields@),
                name_map_view(m@) == name_map_upto(fv, j as nat),
            decreases fields.len() - j,
        {
            assert(fv[j as int] == fields@[j as int]@);
            if fields[j].number > 0 {
                let ghost before = m@;
                m.insert(fields[j].number as u32, fields[j].name.clone());
                assert(name_map_view(m@) =~= name_map_view(before).insert(
                    fields@[j as int].number as u32,
                    fields@[j as int].name@,
                ));
            }
            j = j + 1;
        }
        Ok(m)
    }

    /// Recovers the packet schemas (types named `Req*`, `MsgReq*`, `Rsp*`, `MsgRsp*`
    /// then an uppercase letter), sorted by name, and the payload tags of the
    /// `Request` and `Response` envelopes, sorted by tag.
    #[verifier::rlimit(30)]
    pub fn from_metadata(metadata: &MetadataV39) -> (r: Result<PacketCatalog, Error>)
        ensures
            match catalog_spec(meta_model(metadata)) {
                Ok(c) => r matches Ok(v) && v@ == c,
                Err(e) => r == Err::<PacketCatalog, Error>(e),
            },
    {
        let ghost mm = meta_model(metadata);
        let mut packets: Vec<PacketSchema> = Vec::new();
        let mut i: usize = 0;
        while i < metadata.types.len()
            invariant
                i <= metadata.types.len(),
                mm == meta_model(metadata),
                packets_upto(mm, i as nat) is Ok,
                packet_views(packets@) == insertion_sort(packets_upto(mm, i as nat)->Ok_0, by_name()),
            decreases metadata.types.len() - i,
        {
            let t = &metadata.types[i];
            assert(mm.types[i as int] == t@);
            let ghost prev = packets_upto(mm, i as nat)->Ok_0;
            match direction_for(t.name.as_str()) {
                None => {},
                Some(direction) => match field_range(&metadata.fields, t.field_start, t.field_count) {
                    None => {
                        proof {
                            lemma_packets_err_stable(mm, (i + 1) as nat, metadata.types.len() as nat);
                        }
                        return Err(Error::FieldRangeOutOfBounds);
                    },
                    Some((a, b)) => {
                        let fields = recover_packet_fields(metadata, a, b);
                        let p = PacketSchema {
                            name: t.name.clone(),
                            namespace: t.namespace.clone(),
                            direction,
                            type_definition_index: t.index,
                            fields,
                        };
                        proof {
                            lemma_insertion_sort_push(prev, p@, by_name());
                        }
                        insert_packet_sorted(&mut packets, p);
                    },
                },
            }
            i = i + 1;
        }
        assert(mm.types.len() == metadata.types.len());
        let request_envelope = match envelope_entries(metadata, "Request") {
            Ok(v) => v,
            Err(e) => {
                proof {
                    reveal_strlit("Request");
                    assert("Request"@ =~= request_type_chars());
                }
                return Err(e);
            },
        };
        let response_envelope = match envelope_entries(metadata, "Response") {
            Ok(v) => v,
            Err(e) => {
                proof {
                    reveal_strlit("Request");
                    assert("Request"@ =~= request_type_chars());
                    reveal_strlit("Response");
                    assert("Response"@ =~= response_type_chars());
                }
                return Err(e);
            },
        };
        proof {
            reveal_strlit("Request");
            assert("Request"@ =~= request_type_chars());
            reveal_strlit("Response");
            assert("Response"@ =~= response_type_chars());
        }
        Ok(PacketCatalog { packets, request_envelope, response_envelope })
    }
}

/// Whether no element of `s` must come after a later one.
pub open spec fn sorted_by<T>(s: Seq<T>, after: spec_fn(T, T) -> bool) -> bool {
    forall|i: int, j: int| 0 <= i < j < s.len() ==> !after(s[i], s[j])
}

/// The property of `after` that insertion relies on: an element that must come after
/// `x`, and need not come after `z`, leaves `x` free to precede `z`.
pub open spec fn insertion_compatible<T>(after: spec_fn(T, T) -> bool) -> bool {
    &&& forall|x: T, y: T| #[trigger] after(y, x) ==> !after(x, y)
    &&& forall|x: T, y: T, z: T| #[trigger] after(y, x) && !#[trigger] after(y, z) ==> !after(x, z)
}

/// The insert position follows every element that does not come after `x` and
/// precedes the first one that does.
proof fn lemma_insert_pos_props<T>(s: Seq<T>, x: T, after: spec_fn(T, T) -> bool)
    ensures
        insert_pos(s, x, after) <= s.len(),
        forall|j: int| 0 <= j < insert_pos(s, x, after) ==> !after(s[j], x),
        insert_pos(s, x, after) < s.len() ==> after(s[insert_pos(s, x, after) as int], x),
    decreases s.len(),
{
    if s.len() > 0 && !after(s[0], x) {
        lemma_insert_pos_props(s.drop_first(), x, after);
        assert forall|j: int| 0 <= j < insert_pos(s, x, after) implies !after(s[j], x) by {
            if j > 0 {
                assert(s[j] == s.drop_first()[j - 1]);
            }
        }
    }
}

/// Insertion sort puts its input in order and keeps its elements: the result is
/// sorted under `after` and holds the same multiset of elements.
proof fn lemma_insertion_sort_sorted<T>(s: Seq<T>, after: spec_fn(T, T) -> bool)
    requires
        insertion_compatible(after),
    ensures
        sorted_by(insertion_sort(s, after), after),
        insertion_sort(s, after).to_multiset() == s.to_multiset(),
        insertion_sort(s, after).len() == s.len(),
    decreases s.len(),
{
    broadcast use vstd::seq_lib::group_to_multiset_ensures;
    if s.len() > 0 {
        let r = insertion_sort(s.drop_last(), after);
        let x = s.last();
        lemma_insertion_sort_sorted(s.drop_last(), after);
        lemma_insert_pos_props(r, x, after);
        let k = insert_pos(r, x, after) as int;
        let t = r.insert(k, x);
        assert forall|i: int, j: int| 0 <= i < j < t.len() implies !after(t[i], t[j]) by {
            if j < k {
                assert(t[i] == r[i] && t[j] == r[j]);
                assert(!after(r[i], r[j]));
            } else if j == k {
                assert(t[i] == r[i]);
                assert(t[j] == x);
            } else if i == k {
                assert(t[i] == x);
                assert(t[j] == r[j - 1]);
                assert(after(r[k], x));
                if j - 1 > k {
                    assert(!after(r[k], r[j - 1]));
                    assert(!after(x, r[j - 1]));
                } else {
                    assert(!after(x, r[k]));
                }
            } else if i < k {
                assert(t[i] == r[i] && t[j] == r[j - 1]);
                assert(!after(r[i], r[j - 1]));
            } else {
                assert(t[i] == r[i - 1] && t[j] == r[j - 1]);
                assert(!after(r[i - 1], r[j - 1]));
            }
        }
        assert(s.drop_last().push(x) =~= s);
    }
}

/// Byte order is asymmetric.
proof fn lemma_bytes_lt_asym(a: Seq<u8>, b: Seq<u8>)
    ensures
        bytes_lt(a, b) ==> !bytes_lt(b, a),
    decreases a.len(),
{
    if a.len() > 0 && b.len() > 0 && a[0] == b[0] {
        lemma_bytes_lt_asym(a.drop_first(), b.drop_first());
    }
}

/// Byte order is transitive.
proof fn lemma_bytes_lt_trans(a: Seq<u8>, b: Seq<u8>, c: Seq<u8>)
    ensures
        bytes_lt(a, b) && bytes_lt(b, c) ==> bytes_lt(a, c),
    decreases a.len(),
{
    if a.len() > 0 && b.len() > 0 && c.len() > 0 {
        lemma_bytes_lt_trans(a.drop_first(), b.drop_first(), c.drop_first());
    }
}

/// The field, tag and name orders have the property that insertion relies on.
proof fn lemma_orders_compatible()
    ensures
        insertion_compatible(by_number()),
        insertion_compatible(by_tag()),
        insertion_compatible(by_name()),
{
    assert forall|x: PacketSchemaModel, y: PacketSchemaModel| #[trigger] by_name()(y, x) implies !by_name()(
        x,
        y,
    ) by {
        lemma_bytes_lt_asym(
            vstd::utf8::encode_utf8(x.name),
            vstd::utf8::encode_utf8(y.name),
        );
    }
    assert forall|x: PacketSchemaModel, y: PacketSchemaModel, z: PacketSchemaModel| #[trigger] by_name()(
        y,
        x,
    ) && !#[trigger] by_name()(y, z) implies !by_name()(x, z) by {
        lemma_bytes_lt_trans(
            vstd::utf8::encode_utf8(z.name),
            vstd::utf8::encode_utf8(x.name),
            vstd::utf8::encode_utf8(y.name),
        );
    }
}

/// Every element of an insertion-sorted sequence is an element of its input.
proof fn lemma_insertion_sort_elements<T>(s: Seq<T>, after: spec_fn(T, T) -> bool, v: T)
    requires
        insertion_sort(s, after).contains(v),
    ensures
        s.contains(v),
    decreases s.len(),
{
    if s.len() > 0 {
        let r = insertion_sort(s.drop_last(), after);
        let x = s.last();
        lemma_insert_pos_props(r, x, after);
        let k = insert_pos(r, x, after) as int;
        let t = r.insert(k, x);
        let i = choose|i: int| 0 <= i < t.len() && t[i] == v;
        if v != x {
            if i < k {
                assert(r[i] == v);
            } else {
                assert(r[i - 1] == v);
            }
            lemma_insertion_sort_elements(s.drop_last(), after, v);
            let j = choose|j: int| 0 <= j < s.drop_last().len() && s.drop_last()[j] == v;
            assert(s[j] == v);
        } else {
            assert(s[s.len() - 1] == v);
        }
    }
}

/// Every recovered field of a packet has a positive field number.
proof fn lemma_packet_fields_positive(mm: MetaModel, slice: Seq<FieldDefModel>, n: nat, v: PacketFieldModel)
    requires
        packet_fields_upto(mm, slice, n).contains(v),
    ensures
        v.number > 0,
    decreases n,
{
    if n > 0 {
        let prev = packet_fields_upto(mm, slice, (n - 1) as nat);
        match packet_field_of(mm, slice, slice[n - 1]) {
            Some(pf) => {
                if v != pf {
                    let i = choose|i: int|
                        0 <= i < prev.push(pf).len() && prev.push(pf)[i] == v;
                    assert(prev[i] == v);
                    lemma_packet_fields_positive(mm, slice, (n - 1) as nat, v);
                }
            },
            None => {
                lemma_packet_fields_positive(mm, slice, (n - 1) as nat, v);
            },
        }
    }
}

/// Every payload tag of an envelope is at least 50.
proof fn lemma_entries_tags(mm: MetaModel, slice: Seq<FieldDefModel>, n: nat, v: EnvelopeEntryModel)
    requires
        entries_upto(mm, slice, n).contains(v),
    ensures
        v.tag >= 50,
    decreases n,
{
    if n > 0 {
        let prev = entries_upto(mm, slice, (n - 1) as nat);
        match entry_of(mm, slice, slice[n - 1]) {
            Some(e) => {
                if v != e {
                    let i = choose|i: int| 0 <= i < prev.push(e).len() && prev.push(e)[i] == v;
                    assert(prev[i] == v);
                    lemma_entries_tags(mm, slice, (n - 1) as nat, v);
                }
            },
            None => {
                lemma_entries_tags(mm, slice, (n - 1) as nat, v);
            },
        }
    }
}

/// Whether a packet's fields are in field-number order, each number positive.
pub open spec fn fields_well_ordered(fs: Seq<PacketFieldModel>) -> bool {
    &&& forall|i: int, j: int| 0 <= i < j < fs.len() ==> fs[i].number <= fs[j].number
    &&& forall|i: int| 0 <= i < fs.len() ==> fs[i].number > 0
}

/// Whether an envelope's entries are in tag order, each tag at least 50.
pub open spec fn entries_well_ordered(es: Seq<EnvelopeEntryModel>) -> bool {
    &&& forall|i: int, j: int| 0 <= i < j < es.len() ==> es[i].tag <= es[j].tag
    &&& forall|i: int| 0 <= i < es.len() ==> es[i].tag >= 50
}

/// The recovered fields of a packet are in field-number order and each number is
/// positive.
pub proof fn law_packet_fields_ordered(mm: MetaModel, slice: Seq<FieldDefModel>)
    ensures
        fields_well_ordered(packet_fields(mm, slice)),
{
    let s = packet_fields_upto(mm, slice, slice.len());
    lemma_orders_compatible();
    lemma_insertion_sort_sorted(s, by_number());
    let t = packet_fields(mm, slice);
    assert forall|i: int, j: int| 0 <= i < j < t.len() implies t[i].number <= t[j].number by {
        assert(!by_number()(t[i], t[j]));
    }
    assert forall|i: int| 0 <= i < t.len() implies t[i].number > 0 by {
        assert(t.contains(t[i]));
        lemma_insertion_sort_elements(s, by_number(), t[i]);
        lemma_packet_fields_positive(mm, slice, slice.len(), t[i]);
    }
}

/// The payload tags of an envelope are in tag order and each is at least 50.
pub proof fn law_envelope_ordered(mm: MetaModel, name: Seq<char>)
    ensures
        envelope_spec(mm, name) matches Ok(es) ==> entries_well_ordered(es),
{
    if let Ok(es) = envelope_spec(mm, name) {
        if let Some(i) = first_type_named(mm.types, name, 0) {
            let t = mm.types[i as int];
            if t.field_start >= 0 {
                if let Some(slice) = field_slice(mm.fields, t.field_start, t.field_count) {
                    let s = entries_upto(mm, slice, slice.len());
                    lemma_orders_compatible();
                    lemma_insertion_sort_sorted(s, by_tag());
                    assert forall|i: int, j: int| 0 <= i < j < es.len() implies es[i].tag
                        <= es[j].tag by {
                        assert(!by_tag()(es[i], es[j]));
                    }
                    assert forall|i: int| 0 <= i < es.len() implies es[i].tag >= 50 by {
                        assert(es.contains(es[i]));
                        lemma_insertion_sort_elements(s, by_tag(), es[i]);
                        lemma_entries_tags(mm, slice, slice.len(), es[i]);
                    }
                }
            }
        }
    }
}

/// Whether a schema is well formed: its direction follows from its name and its
/// fields are in field-number order with positive numbers.
pub open spec fn schema_well_formed(p: PacketSchemaModel) -> bool {
    &&& direction_of(p.name) == Some(p.direction)
    &&& fields_well_ordered(p.fields)
}

/// Every recovered schema is well formed.
proof fn lemma_packets_well_formed(mm: MetaModel, n: nat, v: PacketSchemaModel)
    requires
        packets_upto(mm, n) is Ok,
        (packets_upto(mm, n)->Ok_0).contains(v),
    ensures
        schema_well_formed(v),
    decreases n,
{
    if n > 0 {
        let prev = packets_upto(mm, (n - 1) as nat)->Ok_0;
        let t = mm.types[n - 1];
        match packet_of(mm, t) {
            Some(Ok(p)) => {
                if v == p {
                    let slice = field_slice(mm.fields, t.field_start, t.field_count)->Some_0;
                    law_packet_fields_ordered(mm, slice);
                } else {
                    let i = choose|i: int| 0 <= i < prev.push(p).len() && prev.push(p)[i] == v;
                    assert(prev[i] == v);
                    lemma_packets_well_formed(mm, (n - 1) as nat, v);
                }
            },
            _ => {
                lemma_packets_well_formed(mm, (n - 1) as nat, v);
            },
        }
    }
}

/// A recovered catalog lists its packets in the order of their names' UTF-8 bytes,
/// holds exactly the schemas of the packet types, gives each schema the direction
/// that its name implies and its fields in field-number order with positive numbers,
/// and gives both envelopes in tag order with tags of at least 50.
pub proof fn law_catalog(mm: MetaModel)
    ensures
        catalog_spec(mm) matches Ok(c) ==> {
            &&& forall|i: int, j: int|
                0 <= i < j < c.packets.len() ==> !bytes_lt(
                    vstd::utf8::encode_utf8(c.packets[j].name),
                    vstd::utf8::encode_utf8(c.packets[i].name),
                )
            &&& c.packets.to_multiset() == (packets_upto(mm, mm.types.len())->Ok_0).to_multiset()
            &&& forall|i: int| 0 <= i < c.packets.len() ==> schema_well_formed(#[trigger] c.packets[i])
            &&& entries_well_ordered(c.request_envelope)
            &&& entries_well_ordered(c.response_envelope)
        },
{
    if let Ok(c) = catalog_spec(mm) {
        let ps = packets_upto(mm, mm.types.len())->Ok_0;
        lemma_orders_compatible();
        lemma_insertion_sort_sorted(ps, by_name());
        assert forall|i: int, j: int| 0 <= i < j < c.packets.len() implies !bytes_lt(
            vstd::utf8::encode_utf8(c.packets[j].name),
            vstd::utf8::encode_utf8(c.packets[i].name),
        ) by {
            assert(!by_name()(c.packets[i], c.packets[j]));
        }
        assert forall|i: int| 0 <= i < c.packets.len() implies schema_well_formed(
            #[trigger] c.packets[i],
        ) by {
            assert(c.packets.contains(c.packets[i]));
            lemma_insertion_sort_elements(ps, by_name(), c.packets[i]);
            lemma_packets_well_formed(mm, mm.types.len(), c.packets[i]);
        }
        law_envelope_ordered(mm, request_type_chars());
        law_envelope_ordered(mm, response_type_chars());
    }
}

/// The keys of a field-name map are the positive field numbers of its fields.
proof fn lemma_name_map_keys(fields: Seq<PacketFieldModel>, n: nat, k: u32)
    requires
        n <= fields.len(),
    ensures
        name_map_upto(fields, n).contains_key(k) <==> exists|j: int|
            0 <= j < n && #[trigger] fields[j].number > 0 && fields[j].number as u32 == k,
    decreases n,
{
    if n > 0 {
        lemma_name_map_keys(fields, (n - 1) as nat, k);
        if name_map_upto(fields, n).contains_key(k) {
            if !name_map_upto(fields, (n - 1) as nat).contains_key(k) {
                assert(fields[n - 1].number > 0 && fields[n - 1].number as u32 == k);
            }
        }
    }
}

/// The field-name map of a packet has exactly the field numbers of its fields as
/// keys, each naming a field with that number.
pub proof fn law_field_name_map(c: CatalogModel, packet: Seq<char>)
    ensures
        field_name_map_spec(c, packet) matches Some(m) ==> {
            let fs = c.packets[first_packet_named(c.packets, packet, 0)->Some_0 as int].fields;
            forall|k: u32|
                #![trigger m.contains_key(k)]
                m.contains_key(k) <==> exists|j: int|
                    0 <= j < fs.len() && #[trigger] fs[j].number > 0 && fs[j].number as u32 == k
        },
{
    if let Some(m) = field_name_map_spec(c, packet) {
        let fs = c.packets[first_packet_named(c.packets, packet, 0)->Some_0 as int].fields;
        assert forall|k: u32| #![trigger m.contains_key(k)] m.contains_key(k) <==> exists|j: int|
            0 <= j < fs.len() && #[trigger] fs[j].number > 0 && fs[j].number as u32 == k by {
            lemma_name_map_keys(fs, fs.len(), k);
        }
    }
}

/// Every recovered field among the first `n` constants of a slice is what one of
/// those constants reads as.
proof fn lemma_packet_field_source(mm: MetaModel, slice: Seq<FieldDefModel>, n: nat, v: PacketFieldModel)
    requires
        n <= slice.len(),
        packet_fields_upto(mm, slice, n).contains(v),
    ensures
        exists|l: int| 0 <= l < n && packet_field_of(mm, slice, #[trigger] slice[l]) == Some(v),
    decreases n,
{
    let prev = packet_fields_upto(mm, slice, (n - 1) as nat);
    match packet_field_of(mm, slice, slice[n - 1]) {
        Some(pf) => {
            if v != pf {
                let i = choose|i: int| 0 <= i < prev.push(pf).len() && prev.push(pf)[i] == v;
                assert(prev[i] == v);
                lemma_packet_field_source(mm, slice, (n - 1) as nat, v);
            }
        },
        None => {
            lemma_packet_field_source(mm, slice, (n - 1) as nat, v);
        },
    }
}

/// Every payload tag among the first `n` constants of a slice is what one of those
/// constants reads as.
proof fn lemma_entry_source(mm: MetaModel, slice: Seq<FieldDefModel>, n: nat, v: EnvelopeEntryModel)
    requires
        n <= slice.len(),
        entries_upto(mm, slice, n).contains(v),
    ensures
        exists|l: int| 0 <= l < n && entry_of(mm, slice, #[trigger] slice[l]) == Some(v),
    decreases n,
{
    let prev = entries_upto(mm, slice, (n - 1) as nat);
    match entry_of(mm, slice, slice[n - 1]) {
        Some(e) => {
            if v != e {
                let i = choose|i: int| 0 <= i < prev.push(e).len() && prev.push(e)[i] == v;
                assert(prev[i] == v);
                lemma_entry_source(mm, slice, (n - 1) as nat, v);
            }
        },
        None => {
            lemma_entry_source(mm, slice, (n - 1) as nat, v);
        },
    }
}

/// Every schema recovered from the first `n` types is the schema of one of them.
proof fn lemma_packet_source(mm: MetaModel, n: nat, v: PacketSchemaModel)
    requires
        n <= mm.types.len(),
        packets_upto(mm, n) is Ok,
        (packets_upto(mm, n)->Ok_0).contains(v),
    ensures
        exists|k: int| 0 <= k < n && packet_of(mm, #[trigger] mm.types[k]) == Some(Ok::<PacketSchemaModel, Error>(v)),
    decreases n,
{
    let prev = packets_upto(mm, (n - 1) as nat)->Ok_0;
    match packet_of(mm, mm.types[n - 1]) {
        Some(Ok(p)) => {
            if v != p {
                let i = choose|i: int| 0 <= i < prev.push(p).len() && prev.push(p)[i] == v;
                assert(prev[i] == v);
                lemma_packet_source(mm, (n - 1) as nat, v);
            }
        },
        _ => {
            lemma_packet_source(mm, (n - 1) as nat, v);
        },
    }
}

/// The fields of a packet type are its field-number constants read one for one, in
/// field-number order: the same multiset as the constants that qualify, each the
/// reading of one constant of the slice (its name, number, backing field, `TypeIndex`
/// and resolved type as `packet_field_of` gives them).
pub proof fn law_packet_fields_from_constants(mm: MetaModel, slice: Seq<FieldDefModel>)
    ensures
        packet_fields(mm, slice).to_multiset() == packet_fields_upto(mm, slice, slice.len()).to_multiset(),
        forall|j: int|
            0 <= j < packet_fields(mm, slice).len() ==> exists|l: int|
                0 <= l < slice.len() && packet_field_of(mm, slice, #[trigger] slice[l]) == Some(
                    #[trigger] packet_fields(mm, slice)[j],
                ),
{
    let s = packet_fields_upto(mm, slice, slice.len());
    let t = packet_fields(mm, slice);
    lemma_orders_compatible();
    lemma_insertion_sort_sorted(s, by_number());
    assert forall|j: int| 0 <= j < t.len() implies exists|l: int|
        0 <= l < slice.len() && packet_field_of(mm, slice, #[trigger] slice[l]) == Some(#[trigger] t[j]) by {
        assert(t.contains(t[j]));
        lemma_insertion_sort_elements(s, by_number(), t[j]);
        lemma_packet_field_source(mm, slice, slice.len(), t[j]);
    }
}

/// The payload tags of an envelope are its qualifying field-number constants read one
/// for one, in tag order: the same multiset as those constants give, each the reading
/// of one constant of the envelope's slice (as `entry_of` gives it).
pub proof fn law_envelope_from_constants(mm: MetaModel, name: Seq<char>)
    ensures
        envelope_spec(mm, name) matches Ok(es) ==> match first_type_named(mm.types, name, 0) {
            None => es.len() == 0,
            Some(i) => match field_slice(mm.fields, mm.types[i as int].field_start, mm.types[i as int].field_count) {
                Some(slice) => if mm.types[i as int].field_start < 0 {
                    es.len() == 0
                } else {
                    &&& es.to_multiset() == entries_upto(mm, slice, slice.len()).to_multiset()
                    &&& forall|j: int|
                        0 <= j < es.len() ==> exists|l: int|
                            0 <= l < slice.len() && entry_of(mm, slice, #[trigger] slice[l]) == Some(
                                #[trigger] es[j],
                            )
                },
                None => false,
            },
        },
{
    if let Ok(es) = envelope_spec(mm, name) {
        if let Some(i) = first_type_named(mm.types, name, 0) {
            lemma_first_type_named_bound(mm.types, name, 0);
            let t = mm.types[i as int];
            if let Some(slice) = field_slice(mm.fields, t.field_start, t.field_count) {
                if t.field_start >= 0 {
                    let s = entries_upto(mm, slice, slice.len());
                    lemma_orders_compatible();
                    lemma_insertion_sort_sorted(s, by_tag());
                    assert forall|j: int| 0 <= j < es.len() implies exists|l: int|
                        0 <= l < slice.len() && entry_of(mm, slice, #[trigger] slice[l]) == Some(
                            #[trigger] es[j],
                        ) by {
                        assert(es.contains(es[j]));
                        lemma_insertion_sort_elements(s, by_tag(), es[j]);
                        lemma_entry_source(mm, slice, slice.len(), es[j]);
                    }
                }
            }
        }
    }
}

/// Every schema of a recovered catalog is the schema of one of the metadata's types.
pub proof fn law_catalog_from_types(mm: MetaModel)
    ensures
        catalog_spec(mm) matches Ok(c) ==> forall|i: int|
            0 <= i < c.packets.len() ==> exists|k: int|
                0 <= k < mm.types.len() && packet_of(mm, #[trigger] mm.types[k]) == Some(
                    Ok::<PacketSchemaModel, Error>(#[trigger] c.packets[i]),
                ),
{
    if let Ok(c) = catalog_spec(mm) {
        let ps = packets_upto(mm, mm.types.len())->Ok_0;
        assert forall|i: int| 0 <= i < c.packets.len() implies exists|k: int|
            0 <= k < mm.types.len() && packet_of(mm, #[trigger] mm.types[k]) == Some(
                Ok::<PacketSchemaModel, Error>(#[trigger] c.packets[i]),
            ) by {
            assert(c.packets.contains(c.packets[i]));
            lemma_insertion_sort_elements(ps, by_name(), c.packets[i]);
            lemma_packet_source(mm, mm.types.len(), c.packets[i]);
        }
    }
}

/// Whether `v` is the reading of one of the field-number constants of the field range
/// of type `k`.
pub open spec fn field_from_type(mm: MetaModel, k: int, v: PacketFieldModel) -> bool {
    match field_slice(mm.fields, mm.types[k].field_start, mm.types[k].field_count) {
        Some(slice) => exists|l: int|
            0 <= l < slice.len() && packet_field_of(mm, slice, #[trigger] slice[l]) == Some(v),
        None => false,
    }
}

/// Whether `v` is the reading of a field-number constant of a type named `name`.
pub open spec fn field_has_source(mm: MetaModel, name: Seq<char>, v: PacketFieldModel) -> bool {
    exists|k: int|
        0 <= k < mm.types.len() && mm.types[k].name == name && #[trigger] field_from_type(mm, k, v)
}

/// Every field of every schema of a recovered catalog is the reading of one of the
/// field-number constants of a type of the same name: its name is the constant's base
/// with the first letter lowered, its number the constant's default, and its backing
/// field the last field named `camel_`, else `base_`, else `<base>k__BackingField`
/// (as `packet_field_of` and `backing_of` give them).
pub proof fn law_catalog_fields_from_constants(mm: MetaModel)
    ensures
        catalog_spec(mm) matches Ok(c) ==> forall|i: int, j: int|
            0 <= i < c.packets.len() && 0 <= j < c.packets[i].fields.len() ==> field_has_source(
                mm,
                c.packets[i].name,
                #[trigger] c.packets[i].fields[j],
            ),
{
    if let Ok(c) = catalog_spec(mm) {
        law_catalog_from_types(mm);
        assert forall|i: int, j: int|
            0 <= i < c.packets.len() && 0 <= j < c.packets[i].fields.len() implies field_has_source(
                mm,
                c.packets[i].name,
                #[trigger] c.packets[i].fields[j],
            ) by {
            let p = c.packets[i];
            let k = choose|k: int|
                0 <= k < mm.types.len() && packet_of(mm, #[trigger] mm.types[k]) == Some(
                    Ok::<PacketSchemaModel, Error>(p),
                );
            let t = mm.types[k];
            let slice = field_slice(mm.fields, t.field_start, t.field_count)->Some_0;
            law_packet_fields_from_constants(mm, slice);
            assert(p.fields == packet_fields(mm, slice));
            assert(field_from_type(mm, k, p.fields[j]));
        }
    }
}

/// A type named `Req` or `MsgReq`, then an ASCII uppercase letter, then anything, is
/// a request packet; one named `Rsp` or `MsgRsp`, then an uppercase letter, then
/// anything, is a response packet.
pub proof fn law_direction_of_prefixes(c: char, rest: Seq<char>)
    requires
        'A' <= c <= 'Z',
    ensures
        direction_of(seq!['R', 'e', 'q', c] + rest) == Some(seq!['r', 'e', 'q', 'u', 'e', 's', 't']),
        direction_of(seq!['M', 's', 'g', 'R', 'e', 'q', c] + rest) == Some(
            seq!['r', 'e', 'q', 'u', 'e', 's', 't'],
        ),
        direction_of(seq!['R', 's', 'p', c] + rest) == Some(
            seq!['r', 'e', 's', 'p', 'o', 'n', 's', 'e'],
        ),
        direction_of(seq!['M', 's', 'g', 'R', 's', 'p', c] + rest) == Some(
            seq!['r', 'e', 's', 'p', 'o', 'n', 's', 'e'],
        ),
{
    let a = seq!['R', 'e', 'q', c] + rest;
    assert(a.take(3) =~= seq!['R', 'e', 'q']);
    let b = seq!['M', 's', 'g', 'R', 'e', 'q', c] + rest;
    assert(b.take(6) =~= seq!['M', 's', 'g', 'R', 'e', 'q']);
    assert(b.take(3)[0] == 'M');
    let d = seq!['R', 's', 'p', c] + rest;
    assert(d.take(3) =~= seq!['R', 's', 'p']);
    assert(d.take(3)[1] == 's');
    assert(d[0] == 'R' && d[1] == 's');
    let e = seq!['M', 's', 'g', 'R', 's', 'p', c] + rest;
    assert(e.take(6) =~= seq!['M', 's', 'g', 'R', 's', 'p']);
    assert(e.take(3)[0] == 'M');
    assert(e.take(6)[5] == 'p');
    assert(e[0] == 'M' && e[5] == 'p');
}

/// Only those four forms are packet types: a name that is a packet type starts with
/// `Req`, `MsgReq`, `Rsp` or `MsgRsp` followed by an ASCII uppercase letter.
pub proof fn law_direction_only_prefixes(name: Seq<char>)
    ensures
        direction_of(name) is Some ==> exists|k: int|
            (k == 3 || k == 6) && 0 <= k < name.len() && 'A' <= #[trigger] name[k] <= 'Z' && (
            name.take(k) == seq!['R', 'e', 'q'] || name.take(k) == seq!['R', 's', 'p'] || name.take(
                k,
            ) == seq!['M', 's', 'g', 'R', 'e', 'q'] || name.take(k) == seq!['M', 's', 'g', 'R', 's', 'p']),
{
    if direction_of(name) is Some {
        if packet_prefix_spec(name, req_chars()) || packet_prefix_spec(name, rsp_chars()) {
            assert(name[3] == name[3]);
        } else {
            assert(name[6] == name[6]);
        }
    }
}

/// The reading of each qualifying constant among the first `n` stands among the
/// payload tags that they give.
proof fn lemma_entries_keep(mm: MetaModel, slice: Seq<FieldDefModel>, n: nat, l: int)
    requires
        0 <= l < n <= slice.len(),
        entry_of(mm, slice, slice[l]) is Some,
    ensures
        entries_upto(mm, slice, n).contains(entry_of(mm, slice, slice[l])->Some_0),
    decreases n,
{
    let prev = entries_upto(mm, slice, (n - 1) as nat);
    if l < n - 1 {
        lemma_entries_keep(mm, slice, (n - 1) as nat, l);
        let j = choose|j: int| 0 <= j < prev.len() && prev[j] == entry_of(mm, slice, slice[l])->Some_0;
        match entry_of(mm, slice, slice[n - 1]) {
            Some(e) => assert(prev.push(e)[j] == prev[j]),
            None => {},
        }
    } else {
        let e = entry_of(mm, slice, slice[l])->Some_0;
        assert(prev.push(e)[prev.len() as int] == e);
    }
}

/// The reading of each qualifying constant among the first `n` stands among the
/// recovered fields that they give.
proof fn lemma_packet_fields_keep(mm: MetaModel, slice: Seq<FieldDefModel>, n: nat, l: int)
    requires
        0 <= l < n <= slice.len(),
        packet_field_of(mm, slice, slice[l]) is Some,
    ensures
        packet_fields_upto(mm, slice, n).contains(packet_field_of(mm, slice, slice[l])->Some_0),
    decreases n,
{
    let prev = packet_fields_upto(mm, slice, (n - 1) as nat);
    if l < n - 1 {
        lemma_packet_fields_keep(mm, slice, (n - 1) as nat, l);
        let j = choose|j: int|
            0 <= j < prev.len() && prev[j] == packet_field_of(mm, slice, slice[l])->Some_0;
        match packet_field_of(mm, slice, slice[n - 1]) {
            Some(e) => assert(prev.push(e)[j] == prev[j]),
            None => {},
        }
    } else {
        let e = packet_field_of(mm, slice, slice[l])->Some_0;
        assert(prev.push(e)[prev.len() as int] == e);
    }
}

/// `base` followed by `FieldNumber` has `base` as what stands before the suffix.
proof fn lemma_strip_field_number(base: Seq<char>)
    ensures
        strip_suffix_spec(base + "FieldNumber"@, field_number_suffix()) == Some(base),
{
    reveal_strlit("FieldNumber");
    assert("FieldNumber"@ =~= field_number_suffix());
    let n = base + "FieldNumber"@;
    assert(n.subrange(n.len() - 11, n.len() as int) =~= field_number_suffix());
    assert(n.take(n.len() - 11) =~= base);
}

/// Every constant `<base>FieldNumber` of an envelope's field range whose default is
/// at least 50 gives a payload tag, whatever its size: some entry of the envelope has
/// that tag and the field name `base` with its first letter lowered.
pub proof fn law_envelope_keeps_tags(
    mm: MetaModel,
    name: Seq<char>,
    slice: Seq<FieldDefModel>,
    base: Seq<char>,
    l: int,
)
    requires
        first_type_named(mm.types, name, 0) matches Some(i) && mm.types[i as int].field_start >= 0
            && field_slice(mm.fields, mm.types[i as int].field_start, mm.types[i as int].field_count)
            == Some(slice),
        0 <= l < slice.len(),
        slice[l].name == base + "FieldNumber"@,
        mm.defaults.contains_key(slice[l].index),
        mm.defaults[slice[l].index] >= 50,
    ensures
        envelope_spec(mm, name) matches Ok(es) && exists|j: int|
            0 <= j < es.len() && (#[trigger] es[j]).tag == mm.defaults[slice[l].index]
                && es[j].field_name == lower_first_spec(base),
{
    lemma_strip_field_number(base);
    let e = entry_of(mm, slice, slice[l])->Some_0;
    assert(e.tag == mm.defaults[slice[l].index] && e.field_name == lower_first_spec(base));
    lemma_entries_keep(mm, slice, slice.len(), l);
    let s = entries_upto(mm, slice, slice.len());
    lemma_orders_compatible();
    lemma_insertion_sort_sorted(s, by_tag());
    let es = envelope_spec(mm, name)->Ok_0;
    assert(es == insertion_sort(s, by_tag()));
    assert(s.to_multiset().count(e) > 0) by {
        broadcast use vstd::seq_lib::group_to_multiset_ensures;
    }
    assert(es.contains(e)) by {
        broadcast use vstd::seq_lib::group_to_multiset_ensures;
    }
    let j = choose|j: int| 0 <= j < es.len() && es[j] == e;
    assert(es[j].tag == mm.defaults[slice[l].index]);
}

/// Every constant `<base>FieldNumber` of a packet type's field range whose default is
/// positive gives a recovered field, whatever its size: some field has that number and
/// the name `base` with its first letter lowered.
pub proof fn law_packet_fields_keep_numbers(
    mm: MetaModel,
    slice: Seq<FieldDefModel>,
    base: Seq<char>,
    l: int,
)
    requires
        0 <= l < slice.len(),
        slice[l].name == base + "FieldNumber"@,
        mm.defaults.contains_key(slice[l].index),
        mm.defaults[slice[l].index] > 0,
    ensures
        exists|j: int|
            0 <= j < packet_fields(mm, slice).len() && (#[trigger] packet_fields(mm, slice)[j]).number
                == mm.defaults[slice[l].index] && packet_fields(mm, slice)[j].name == lower_first_spec(
                base,
            ),
{
    lemma_strip_field_number(base);
    let e = packet_field_of(mm, slice, slice[l])->Some_0;
    lemma_packet_fields_keep(mm, slice, slice.len(), l);
    let s = packet_fields_upto(mm, slice, slice.len());
    lemma_orders_compatible();
    lemma_insertion_sort_sorted(s, by_number());
    let fs = packet_fields(mm, slice);
    assert(s.to_multiset().count(e) > 0) by {
        broadcast use vstd::seq_lib::group_to_multiset_ensures;
    }
    assert(fs.contains(e)) by {
        broadcast use vstd::seq_lib::group_to_multiset_ensures;
    }
    let j = choose|j: int| 0 <= j < fs.len() && fs[j] == e;
    assert(fs[j].number == mm.defaults[slice[l].index]);
}

/// `last_named` finds the last field of a name, and nothing when none has it.
proof fn lemma_last_named_is_last(fs: Seq<FieldDefModel>, name: Seq<char>, l: int)
    ensures
        (forall|j: int| 0 <= j < fs.len() ==> (#[trigger] fs[j]).name != name) ==> last_named(fs, name)
            is None,
        0 <= l < fs.len() && fs[l].name == name && (forall|j: int|
            l < j < fs.len() ==> (#[trigger] fs[j]).name != name) ==> last_named(fs, name) == Some(l),
    decreases fs.len(),
{
    if fs.len() > 0 {
        let t = fs.drop_last();
        assert forall|j: int| 0 <= j < t.len() implies t[j] == fs[j] by {}
        lemma_last_named_is_last(t, name, l);
        if (forall|j: int| 0 <= j < fs.len() ==> (#[trigger] fs[j]).name != name) {
            assert(fs[fs.len() - 1].name != name);
            assert forall|j: int| 0 <= j < t.len() implies (#[trigger] t[j]).name != name by {
                assert(t[j] == fs[j]);
            }
        }
        if 0 <= l < fs.len() && fs[l].name == name && (forall|j: int|
            l < j < fs.len() ==> (#[trigger] fs[j]).name != name) {
            if l < fs.len() - 1 {
                assert(fs[fs.len() - 1].name != name);
                assert(t[l] == fs[l]);
                assert forall|j: int| l < j < t.len() implies (#[trigger] t[j]).name != name by {
                    assert(t[j] == fs[j]);
                }
            }
        }
    }
}

/// Whether no field of `fs` is named `name`.
pub open spec fn none_named(fs: Seq<FieldDefModel>, name: Seq<char>) -> bool {
    forall|j: int| 0 <= j < fs.len() ==> (#[trigger] fs[j]).name != name
}

/// Whether field `l` of `fs` is the last one named `name`.
pub open spec fn last_one_named(fs: Seq<FieldDefModel>, name: Seq<char>, l: int) -> bool {
    &&& 0 <= l < fs.len()
    &&& fs[l].name == name
    &&& forall|j: int| l < j < fs.len() ==> (#[trigger] fs[j]).name != name
}

/// The backing field of the constant `<base>FieldNumber` is the last field named
/// `<camel>_`; when there is none, the last named `<base>_`; when there is none
/// either, the last named `<<base>>k__BackingField`; and nothing otherwise.
pub proof fn law_backing_field_choice(slice: Seq<FieldDefModel>, base: Seq<char>, camel: Seq<char>, l: int)
    ensures
        last_one_named(slice, camel + seq!['_'], l) ==> backing_of(slice, base, camel) == Some(slice[l]),
        none_named(slice, camel + seq!['_']) && last_one_named(slice, base + seq!['_'], l) ==> backing_of(
            slice,
            base,
            camel,
        ) == Some(slice[l]),
        none_named(slice, camel + seq!['_']) && none_named(slice, base + seq!['_']) && last_one_named(
            slice,
            seq!['<'] + base + seq!['>', 'k', '_', '_', 'B', 'a', 'c', 'k', 'i', 'n', 'g', 'F', 'i', 'e', 'l', 'd'],
            l,
        ) ==> backing_of(slice, base, camel) == Some(slice[l]),
        none_named(slice, camel + seq!['_']) && none_named(slice, base + seq!['_']) && none_named(
            slice,
            seq!['<'] + base + seq!['>', 'k', '_', '_', 'B', 'a', 'c', 'k', 'i', 'n', 'g', 'F', 'i', 'e', 'l', 'd'],
        ) ==> backing_of(slice, base, camel) is None,
{
    let c1 = camel + seq!['_'];
    let c2 = base + seq!['_'];
    let c3 = seq!['<'] + base + seq!['>', 'k', '_', '_', 'B', 'a', 'c', 'k', 'i', 'n', 'g', 'F', 'i', 'e', 'l', 'd'];
    assert(c3 == seq!['<'] + base + backing_suffix_chars());
    lemma_last_named_is_last(slice, c1, l);
    lemma_last_named_is_last(slice, c2, l);
    lemma_last_named_is_last(slice, c3, l);
}

} // verus!
