//! The binary form of a compiled protocol definition. Integers are little
//! endian; each enum is written as a tag byte and its fields; each list as
//! its `u32` length and its items.
use vstd::prelude::*;

use crate::constraints::{MAX_FIELDS, MAX_GROUPS, MAX_MESSAGES, MAX_VARIANTS};
use crate::definition::{Access, DefinitionModel, ProtocolDefinition};
use crate::meta::{TypeId, TypeMeta};
use crate::pool::StringId;
use crate::size::Size;
use crate::symbols::{
    ArraySymbol, EnumSymbol, Enums, FieldSymbol, FieldType, Fields, GroupSymbol, MessageSymbol,
    Messages, NumericSymbol, Remainder, StructSymbol, Structs, Type, Variants,
};
use crate::table::{FinishedModel, builtin_symbols};
use crate::version::Version;

verus! {

// Integers.

pub open spec fn enc_u16(v: u16) -> Seq<u8> {
    seq![(v % 256) as u8, (v / 256) as u8]
}

pub open spec fn enc_u32(v: u32) -> Seq<u8> {
    seq![(v % 256) as u8, ((v / 256) % 256) as u8, ((v / 65536) % 256) as u8, (v / 16777216) as u8]
}

/// A decoder reads a value from the front of a byte sequence and says how
/// many bytes it took.
pub open spec fn dec_u8(s: Seq<u8>) -> Option<(u8, nat)> {
    if s.len() >= 1 {
        Some((s[0], 1))
    } else {
        None
    }
}

pub open spec fn dec_u16(s: Seq<u8>) -> Option<(u16, nat)> {
    if s.len() >= 2 {
        Some(((s[0] + 256 * s[1]) as u16, 2))
    } else {
        None
    }
}

pub open spec fn dec_u32(s: Seq<u8>) -> Option<(u32, nat)> {
    if s.len() >= 4 {
        Some(((s[0] + 256 * s[1] + 65536 * s[2] + 16777216 * s[3]) as u32, 4))
    } else {
        None
    }
}

// Lists.

/// The encodings of the items, one after the other.
pub open spec fn enc_items<T>(items: Seq<T>, enc: spec_fn(T) -> Seq<u8>) -> Seq<u8>
    decreases items.len(),
{
    if items.len() == 0 {
        Seq::empty()
    } else {
        enc_items(items.drop_last(), enc) + enc(items.last())
    }
}

/// Reads `n` items one after the other.
pub open spec fn dec_items<T>(s: Seq<u8>, n: nat, dec: spec_fn(Seq<u8>) -> Option<(T, nat)>) -> Option<
    (Seq<T>, nat),
>
    decreases n,
{
    if n == 0 {
        Some((Seq::empty(), 0))
    } else {
        match dec_items(s, (n - 1) as nat, dec) {
            None => None,
            Some((items, k)) => match dec(s.skip(k as int)) {
                None => None,
                Some((x, m)) => Some((items.push(x), k + m)),
            },
        }
    }
}

/// A list: its length, then its items.
pub open spec fn enc_list<T>(items: Seq<T>, enc: spec_fn(T) -> Seq<u8>) -> Seq<u8> {
    enc_u32(items.len() as u32) + enc_items(items, enc)
}

/// Reads a list of at most `max` items.
pub open spec fn dec_list<T>(s: Seq<u8>, max: nat, dec: spec_fn(Seq<u8>) -> Option<(T, nat)>) -> Option<
    (Seq<T>, nat),
> {
    match dec_u32(s) {
        None => None,
        Some((n, k)) => if n > max {
            None
        } else {
            match dec_items(s.skip(k as int), n as nat, dec) {
                None => None,
                Some((items, m)) => Some((items, k + m)),
            }
        },
    }
}

// Identifiers and descriptors.

pub open spec fn enc_type_id(t: TypeId) -> Seq<u8> {
    enc_u16(t.index) + seq![t.group, t.meta.value]
}

/// A type identifier's group is never the zero group.
pub open spec fn type_id_valid(t: TypeId) -> bool {
    t.group != 0
}

pub open spec fn dec_type_id(s: Seq<u8>) -> Option<(TypeId, nat)> {
    if s.len() >= 4 && s[2] != 0 {
        Some((TypeId { index: (s[0] + 256 * s[1]) as u16, group: s[2], meta: TypeMeta { value: s[3] } }, 4))
    } else {
        None
    }
}

pub open spec fn dec_size(s: Seq<u8>) -> Option<(Size, nat)> {
    if s.len() >= 1 && s[0] != 0 {
        Some((Size { value: s[0] }, 1))
    } else {
        None
    }
}

pub open spec fn enc_array(a: ArraySymbol) -> Seq<u8> {
    enc_type_id(a.kind) + seq![a.len.value]
}

pub open spec fn array_valid(a: ArraySymbol) -> bool {
    type_id_valid(a.kind) && a.len.value != 0
}

pub open spec fn dec_array(s: Seq<u8>) -> Option<(ArraySymbol, nat)> {
    match dec_type_id(s) {
        None => None,
        Some((kind, k)) => match dec_size(s.skip(k as int)) {
            None => None,
            Some((len, m)) => Some((ArraySymbol { kind, len }, k + m)),
        },
    }
}

// Runs.

pub open spec fn enc_fields_run(r: Fields) -> Seq<u8> {
    enc_u32(r.start) + seq![r.len]
}

pub open spec fn dec_fields_run(s: Seq<u8>) -> Option<(Fields, nat)> {
    match dec_u32(s) {
        None => None,
        Some((start, k)) => if s.len() >= 5 {
            Some((Fields { start, len: s[4] }, 5))
        } else {
            None
        },
    }
}

pub open spec fn enc_variants_run(r: Variants) -> Seq<u8> {
    enc_u16(r.start) + enc_u16(r.len)
}

pub open spec fn dec_variants_run(s: Seq<u8>) -> Option<(Variants, nat)> {
    if s.len() >= 4 {
        Some((Variants { start: (s[0] + 256 * s[1]) as u16, len: (s[2] + 256 * s[3]) as u16 }, 4))
    } else {
        None
    }
}

// Fields.

pub open spec fn enc_field_type(t: FieldType) -> Seq<u8> {
    match t {
        FieldType::Type(id) => seq![0u8] + enc_type_id(id),
        FieldType::Array(a) => seq![1u8] + enc_array(a),
    }
}

pub open spec fn field_type_valid(t: FieldType) -> bool {
    match t {
        FieldType::Type(id) => type_id_valid(id),
        FieldType::Array(a) => array_valid(a),
    }
}

pub open spec fn dec_field_type(s: Seq<u8>) -> Option<(FieldType, nat)> {
    if s.len() == 0 {
        None
    } else if s[0] == 0 {
        match dec_type_id(s.skip(1)) {
            None => None,
            Some((id, k)) => Some((FieldType::Type(id), 1 + k)),
        }
    } else if s[0] == 1 {
        match dec_array(s.skip(1)) {
            None => None,
            Some((a, k)) => Some((FieldType::Array(a), 1 + k)),
        }
    } else {
        None
    }
}

pub open spec fn enc_field(f: FieldSymbol) -> Seq<u8> {
    enc_u16(f.name.value) + enc_field_type(f.kind)
}

pub open spec fn field_valid(f: FieldSymbol) -> bool {
    field_type_valid(f.kind)
}

pub open spec fn dec_field(s: Seq<u8>) -> Option<(FieldSymbol, nat)> {
    match dec_u16(s) {
        None => None,
        Some((name, k)) => match dec_field_type(s.skip(k as int)) {
            None => None,
            Some((kind, m)) => Some((FieldSymbol { name: StringId { value: name }, kind }, k + m)),
        },
    }
}

// Groups.

pub open spec fn enc_group(g: GroupSymbol) -> Seq<u8> {
    enc_u16(g.name.value) + seq![g.messages.start, g.messages.len] + enc_u32(g.structs.start) + seq![
        g.structs.len,
    ] + enc_u32(g.enums.start) + seq![g.enums.len]
}

pub open spec fn dec_group(s: Seq<u8>) -> Option<(GroupSymbol, nat)> {
    if s.len() >= 14 {
        Some(
            (
                GroupSymbol {
                    name: StringId { value: (s[0] + 256 * s[1]) as u16 },
                    messages: Messages { start: s[2], len: s[3] },
                    structs: Structs {
                        start: (s[4] + 256 * s[5] + 65536 * s[6] + 16777216 * s[7]) as u32,
                        len: s[8],
                    },
                    enums: Enums {
                        start: (s[9] + 256 * s[10] + 65536 * s[11] + 16777216 * s[12]) as u32,
                        len: s[13],
                    },
                },
                14,
            ),
        )
    } else {
        None
    }
}

// Messages.

pub open spec fn enc_remainder(r: Remainder) -> Seq<u8> {
    match r.name {
        None => seq![0u8],
        Some(id) => seq![1u8] + enc_u16(id.value),
    }
}

pub open spec fn dec_remainder(s: Seq<u8>) -> Option<(Remainder, nat)> {
    if s.len() == 0 {
        None
    } else if s[0] == 0 {
        Some((Remainder { name: None }, 1))
    } else if s[0] == 1 && s.len() >= 3 {
        Some((Remainder { name: Some(StringId { value: (s[1] + 256 * s[2]) as u16 }) }, 3))
    } else {
        None
    }
}

pub open spec fn enc_message(m: MessageSymbol) -> Seq<u8> {
    enc_u16(m.name.value) + enc_fields_run(m.fields) + enc_remainder(m.remainder)
}

pub open spec fn dec_message(s: Seq<u8>) -> Option<(MessageSymbol, nat)> {
    match dec_u16(s) {
        None => None,
        Some((name, k)) => match dec_fields_run(s.skip(k as int)) {
            None => None,
            Some((fields, m)) => match dec_remainder(s.skip((k + m) as int)) {
                None => None,
                Some((remainder, n)) => Some(
                    (MessageSymbol { name: StringId { value: name }, fields, remainder }, k + m + n),
                ),
            },
        },
    }
}

// Types.

pub open spec fn dec_numeric(s: Seq<u8>) -> Option<(NumericSymbol, nat)> {
    if s.len() >= 1 && s[0] < 12 {
        Some((builtin_symbols()[s[0] as int], 1))
    } else {
        None
    }
}

pub open spec fn enc_type(t: Type) -> Seq<u8> {
    match t {
        Type::Numeric(n) => seq![0u8, n.spec_ordinal() as u8],
        Type::Array(a) => seq![1u8] + enc_array(a),
        Type::Struct(sym) => seq![2u8] + enc_u16(sym.name.value) + enc_fields_run(sym.fields),
        Type::Enum(sym) => seq![3u8] + enc_u16(sym.name.value) + enc_variants_run(sym.variants),
    }
}

pub open spec fn type_valid(t: Type) -> bool {
    match t {
        Type::Array(a) => array_valid(a),
        _ => true,
    }
}

pub open spec fn dec_type(s: Seq<u8>) -> Option<(Type, nat)> {
    if s.len() == 0 {
        None
    } else if s[0] == 0 {
        match dec_numeric(s.skip(1)) {
            None => None,
            Some((n, k)) => Some((Type::Numeric(n), 1 + k)),
        }
    } else if s[0] == 1 {
        match dec_array(s.skip(1)) {
            None => None,
            Some((a, k)) => Some((Type::Array(a), 1 + k)),
        }
    } else if s[0] == 2 {
        match dec_u16(s.skip(1)) {
            None => None,
            Some((name, k)) => match dec_fields_run(s.skip((1 + k) as int)) {
                None => None,
                Some((fields, m)) => Some(
                    (Type::Struct(StructSymbol { name: StringId { value: name }, fields }), 1 + k + m),
                ),
            },
        }
    } else if s[0] == 3 {
        match dec_u16(s.skip(1)) {
            None => None,
            Some((name, k)) => match dec_variants_run(s.skip((1 + k) as int)) {
                None => None,
                Some((variants, m)) => Some(
                    (Type::Enum(EnumSymbol { name: StringId { value: name }, variants }), 1 + k + m),
                ),
            },
        }
    } else {
        None
    }
}

// The whole definition.

pub open spec fn enc_string_id(id: StringId) -> Seq<u8> {
    enc_u16(id.value)
}

pub open spec fn dec_string_id(s: Seq<u8>) -> Option<(StringId, nat)> {
    match dec_u16(s) {
        None => None,
        Some((v, k)) => Some((StringId { value: v }, k)),
    }
}

pub open spec fn enc_access(a: Access) -> Seq<u8> {
    match a {
        Access::ExclusiveWrite => seq![0u8],
        Access::MultipleWrite => seq![1u8],
    }
}

pub open spec fn dec_access(s: Seq<u8>) -> Option<(Access, nat)> {
    if s.len() >= 1 && s[0] == 0 {
        Some((Access::ExclusiveWrite, 1))
    } else if s.len() >= 1 && s[0] == 1 {
        Some((Access::MultipleWrite, 1))
    } else {
        None
    }
}

/// The table: the number of groups in use, one count per group and one for
/// the builtins, then the list of types.
pub open spec fn enc_table(t: FinishedModel) -> Seq<u8> {
    seq![t.count] + enc_items(t.counts, |c: u16| enc_u16(c)) + enc_list(t.types, |x: Type| enc_type(x))
}

pub open spec fn table_valid(t: FinishedModel) -> bool {
    &&& t.counts.len() == t.count + 1
    &&& t.types.len() <= u32::MAX
    &&& forall|i: int| 0 <= i < t.types.len() ==> type_valid(#[trigger] t.types[i])
}

pub open spec fn dec_table(s: Seq<u8>) -> Option<(FinishedModel, nat)> {
    match dec_u8(s) {
        None => None,
        Some((count, k)) => match dec_items(s.skip(k as int), (count + 1) as nat, |b: Seq<u8>| dec_u16(b)) {
            None => None,
            Some((counts, m)) => match dec_list(
                s.skip((k + m) as int),
                u32::MAX as nat,
                |b: Seq<u8>| dec_type(b),
            ) {
                None => None,
                Some((types, n)) => Some((FinishedModel { count, counts, types }, k + m + n)),
            },
        },
    }
}

/// The head of a definition: name, version and access.
pub open spec fn enc_head(d: DefinitionModel) -> Seq<u8> {
    enc_u16(d.name.value) + enc_u16(d.version.major) + enc_u16(d.version.minor) + enc_access(d.access)
}

pub open spec fn dec_head(s: Seq<u8>) -> Option<((StringId, Version, Access), nat)> {
    if s.len() >= 7 {
        match dec_access(s.skip(6)) {
            None => None,
            Some((access, k)) => Some(
                (
                    (
                        StringId { value: (s[0] + 256 * s[1]) as u16 },
                        Version {
                            major: (s[2] + 256 * s[3]) as u16,
                            minor: (s[4] + 256 * s[5]) as u16,
                        },
                        access,
                    ),
                    6 + k,
                ),
            ),
        }
    } else {
        None
    }
}

pub open spec fn enc_definition(d: DefinitionModel) -> Seq<u8> {
    enc_head(d) + (enc_list(d.variants, |v: StringId| enc_string_id(v)) + (enc_list(
        d.fields,
        |f: FieldSymbol| enc_field(f),
    ) + (enc_list(d.groups, |g: GroupSymbol| enc_group(g)) + (enc_list(
        d.messages,
        |m: MessageSymbol| enc_message(m),
    ) + enc_table(d.table)))))
}

/// A definition that its binary form can hold: every list within its limit,
/// one count per group in use and the builtins, and no zero group or array
/// length.
pub open spec fn definition_valid(d: DefinitionModel) -> bool {
    &&& d.variants.len() <= MAX_VARIANTS
    &&& d.fields.len() <= MAX_FIELDS
    &&& d.groups.len() <= MAX_GROUPS
    &&& d.messages.len() <= MAX_MESSAGES
    &&& forall|i: int| 0 <= i < d.fields.len() ==> field_valid(#[trigger] d.fields[i])
    &&& table_valid(d.table)
}

/// Reads the messages and the table.
pub open spec fn dec_tail_messages(s: Seq<u8>) -> Option<((Seq<MessageSymbol>, FinishedModel), nat)> {
    match dec_list(s, MAX_MESSAGES as nat, |b: Seq<u8>| dec_message(b)) {
        None => None,
        Some((messages, k)) => match dec_table(s.skip(k as int)) {
            None => None,
            Some((table, m)) => Some(((messages, table), k + m)),
        },
    }
}

/// Reads the groups, the messages and the table.
pub open spec fn dec_tail_groups(s: Seq<u8>) -> Option<
    ((Seq<GroupSymbol>, Seq<MessageSymbol>, FinishedModel), nat),
> {
    match dec_list(s, MAX_GROUPS as nat, |b: Seq<u8>| dec_group(b)) {
        None => None,
        Some((groups, k)) => match dec_tail_messages(s.skip(k as int)) {
            None => None,
            Some(((messages, table), m)) => Some(((groups, messages, table), k + m)),
        },
    }
}

/// Reads the fields and everything after them.
pub open spec fn dec_tail_fields(s: Seq<u8>) -> Option<
    ((Seq<FieldSymbol>, Seq<GroupSymbol>, Seq<MessageSymbol>, FinishedModel), nat),
> {
    match dec_list(s, MAX_FIELDS as nat, |b: Seq<u8>| dec_field(b)) {
        None => None,
        Some((fields, k)) => match dec_tail_groups(s.skip(k as int)) {
            None => None,
            Some(((groups, messages, table), m)) => Some(((fields, groups, messages, table), k + m)),
        },
    }
}

/// Reads the variants and everything after them.
pub open spec fn dec_tail_variants(s: Seq<u8>) -> Option<
    ((Seq<StringId>, Seq<FieldSymbol>, Seq<GroupSymbol>, Seq<MessageSymbol>, FinishedModel), nat),
> {
    match dec_list(s, MAX_VARIANTS as nat, |b: Seq<u8>| dec_string_id(b)) {
        None => None,
        Some((variants, k)) => match dec_tail_fields(s.skip(k as int)) {
            None => None,
            Some(((fields, groups, messages, table), m)) => Some(
                ((variants, fields, groups, messages, table), k + m),
            ),
        },
    }
}

pub open spec fn dec_definition(s: Seq<u8>) -> Option<(DefinitionModel, nat)> {
    match dec_head(s) {
        None => None,
        Some(((name, version, access), k)) => match dec_tail_variants(s.skip(k as int)) {
            None => None,
            Some(((variants, fields, groups, messages, table), m)) => Some(
                (
                    DefinitionModel { name, version, access, variants, fields, groups, messages, table },
                    k + m,
                ),
            ),
        },
    }
}

// Reading back what was written.

/// A decoder reads back, from the front of any byte sequence, each valid
/// value that the encoder wrote there.
pub open spec fn roundtrips<T>(
    enc: spec_fn(T) -> Seq<u8>,
    dec: spec_fn(Seq<u8>) -> Option<(T, nat)>,
    valid: spec_fn(T) -> bool,
) -> bool {
    forall|x: T, rest: Seq<u8>| valid(x) ==> #[trigger] dec(enc(x) + rest) == Some((x, enc(x).len()))
}

proof fn lemma_u16(v: u16, rest: Seq<u8>)
    ensures
        dec_u16(enc_u16(v) + rest) == Some((v, 2nat)),
{
    let s = enc_u16(v) + rest;
    assert(s[0] == (v % 256) as u8);
    assert(s[1] == (v / 256) as u8);
}

proof fn lemma_u32(v: u32, rest: Seq<u8>)
    ensures
        dec_u32(enc_u32(v) + rest) == Some((v, 4nat)),
{
    let s = enc_u32(v) + rest;
    assert(s[0] == (v % 256) as u8);
    assert(s[1] == ((v / 256) % 256) as u8);
    assert(s[2] == ((v / 65536) % 256) as u8);
    assert(s[3] == (v / 16777216) as u8);
}

proof fn lemma_type_id(t: TypeId, rest: Seq<u8>)
    requires
        type_id_valid(t),
    ensures
        dec_type_id(enc_type_id(t) + rest) == Some((t, 4nat)),
{
    let s = enc_type_id(t) + rest;
    lemma_u16(t.index, seq![t.group, t.meta.value] + rest);
    assert(s =~= enc_u16(t.index) + (seq![t.group, t.meta.value] + rest));
    assert(s[2] == t.group);
    assert(s[3] == t.meta.value);
}

proof fn lemma_array(a: ArraySymbol, rest: Seq<u8>)
    requires
        array_valid(a),
    ensures
        dec_array(enc_array(a) + rest) == Some((a, 5nat)),
{
    let s = enc_array(a) + rest;
    assert(s =~= enc_type_id(a.kind) + (seq![a.len.value] + rest));
    lemma_type_id(a.kind, seq![a.len.value] + rest);
    assert(s.skip(4) =~= seq![a.len.value] + rest);
}

proof fn lemma_fields_run(r: Fields, rest: Seq<u8>)
    ensures
        dec_fields_run(enc_fields_run(r) + rest) == Some((r, 5nat)),
{
    let s = enc_fields_run(r) + rest;
    assert(s =~= enc_u32(r.start) + (seq![r.len] + rest));
    lemma_u32(r.start, seq![r.len] + rest);
    assert(s[4] == r.len);
}

proof fn lemma_variants_run(r: Variants, rest: Seq<u8>)
    ensures
        dec_variants_run(enc_variants_run(r) + rest) == Some((r, 4nat)),
{
    let s = enc_variants_run(r) + rest;
    assert(s =~= enc_u16(r.start) + (enc_u16(r.len) + rest));
    lemma_u16(r.start, enc_u16(r.len) + rest);
    lemma_u16(r.len, rest);
    assert(s.skip(2) =~= enc_u16(r.len) + rest);
    assert(s[2] == (enc_u16(r.len) + rest)[0]);
    assert(s[3] == (enc_u16(r.len) + rest)[1]);
}

proof fn lemma_field_type(t: FieldType, rest: Seq<u8>)
    requires
        field_type_valid(t),
    ensures
        dec_field_type(enc_field_type(t) + rest) == Some((t, enc_field_type(t).len())),
{
    let s = enc_field_type(t) + rest;
    match t {
        FieldType::Type(id) => {
            assert(s.skip(1) =~= enc_type_id(id) + rest);
            lemma_type_id(id, rest);
        },
        FieldType::Array(a) => {
            assert(s.skip(1) =~= enc_array(a) + rest);
            lemma_array(a, rest);
        },
    }
}

proof fn lemma_field(f: FieldSymbol, rest: Seq<u8>)
    requires
        field_valid(f),
    ensures
        dec_field(enc_field(f) + rest) == Some((f, enc_field(f).len())),
{
    let s = enc_field(f) + rest;
    assert(s =~= enc_u16(f.name.value) + (enc_field_type(f.kind) + rest));
    lemma_u16(f.name.value, enc_field_type(f.kind) + rest);
    assert(s.skip(2) =~= enc_field_type(f.kind) + rest);
    lemma_field_type(f.kind, rest);
}

proof fn lemma_group(g: GroupSymbol, rest: Seq<u8>)
    ensures
        dec_group(enc_group(g) + rest) == Some((g, enc_group(g).len())),
{
    let s = enc_group(g) + rest;
    let e = enc_group(g);
    assert(e.len() == 14);
    lemma_u16(g.name.value, Seq::empty());
    lemma_u32(g.structs.start, Seq::empty());
    lemma_u32(g.enums.start, Seq::empty());
    assert(enc_u16(g.name.value) + Seq::<u8>::empty() =~= enc_u16(g.name.value));
    assert(enc_u32(g.structs.start) + Seq::<u8>::empty() =~= enc_u32(g.structs.start));
    assert(enc_u32(g.enums.start) + Seq::<u8>::empty() =~= enc_u32(g.enums.start));
    assert(s.subrange(0, 2) =~= enc_u16(g.name.value));
    assert(s.subrange(4, 8) =~= enc_u32(g.structs.start));
    assert(s.subrange(9, 13) =~= enc_u32(g.enums.start));
    assert(s[2] == g.messages.start);
    assert(s[3] == g.messages.len);
    assert(s[8] == g.structs.len);
    assert(s[13] == g.enums.len);
}

proof fn lemma_remainder(r: Remainder, rest: Seq<u8>)
    ensures
        dec_remainder(enc_remainder(r) + rest) == Some((r, enc_remainder(r).len())),
{
    let s = enc_remainder(r) + rest;
    match r.name {
        None => {},
        Some(id) => {
            lemma_u16(id.value, rest);
            assert(s.skip(1) =~= enc_u16(id.value) + rest);
            assert(s[1] == (enc_u16(id.value) + rest)[0]);
            assert(s[2] == (enc_u16(id.value) + rest)[1]);
        },
    }
}

proof fn lemma_message(m: MessageSymbol, rest: Seq<u8>)
    ensures
        dec_message(enc_message(m) + rest) == Some((m, enc_message(m).len())),
{
    let s = enc_message(m) + rest;
    let tail = enc_remainder(m.remainder) + rest;
    assert(s =~= enc_u16(m.name.value) + (enc_fields_run(m.fields) + tail));
    lemma_u16(m.name.value, enc_fields_run(m.fields) + tail);
    assert(s.skip(2) =~= enc_fields_run(m.fields) + tail);
    lemma_fields_run(m.fields, tail);
    assert(s.skip(7) =~= tail);
    lemma_remainder(m.remainder, rest);
}

proof fn lemma_type(t: Type, rest: Seq<u8>)
    requires
        type_valid(t),
    ensures
        dec_type(enc_type(t) + rest) == Some((t, enc_type(t).len())),
{
    let s = enc_type(t) + rest;
    match t {
        Type::Numeric(n) => {
            assert(s[1] == n.spec_ordinal() as u8);
            assert(s.skip(1)[0] == s[1]);
            assert(builtin_symbols()[n.spec_ordinal() as int] == n);
        },
        Type::Array(a) => {
            assert(s.skip(1) =~= enc_array(a) + rest);
            lemma_array(a, rest);
        },
        Type::Struct(sym) => {
            let tail = enc_fields_run(sym.fields) + rest;
            assert(s.skip(1) =~= enc_u16(sym.name.value) + tail);
            lemma_u16(sym.name.value, tail);
            assert(s.skip(3) =~= tail);
            lemma_fields_run(sym.fields, rest);
        },
        Type::Enum(sym) => {
            let tail = enc_variants_run(sym.variants) + rest;
            assert(s.skip(1) =~= enc_u16(sym.name.value) + tail);
            lemma_u16(sym.name.value, tail);
            assert(s.skip(3) =~= tail);
            lemma_variants_run(sym.variants, rest);
        },
    }
}

proof fn lemma_access(a: Access, rest: Seq<u8>)
    ensures
        dec_access(enc_access(a) + rest) == Some((a, 1nat)),
{
    let s = enc_access(a) + rest;
    assert(s[0] == enc_access(a)[0]);
}

/// Reading back `n` items written one after the other.
proof fn lemma_items<T>(
    items: Seq<T>,
    rest: Seq<u8>,
    enc: spec_fn(T) -> Seq<u8>,
    dec: spec_fn(Seq<u8>) -> Option<(T, nat)>,
    valid: spec_fn(T) -> bool,
)
    requires
        roundtrips(enc, dec, valid),
        forall|i: int| 0 <= i < items.len() ==> valid(#[trigger] items[i]),
    ensures
        dec_items(enc_items(items, enc) + rest, items.len(), dec) == Some(
            (items, enc_items(items, enc).len()),
        ),
    decreases items.len(),
{
    if items.len() > 0 {
        let init = items.drop_last();
        let x = items.last();
        let s = enc_items(items, enc) + rest;
        assert(s =~= enc_items(init, enc) + (enc(x) + rest));
        lemma_items(init, enc(x) + rest, enc, dec, valid);
        let k = enc_items(init, enc).len();
        assert(s.skip(k as int) =~= enc(x) + rest);
        assert(valid(items[items.len() - 1]));
        assert(dec(enc(x) + rest) == Some((x, enc(x).len())));
        assert(init.push(x) =~= items);
    }
}

/// The law of bounded lists, for any item type: when the item decoder
/// reads back each valid item that the item encoder wrote, a list of valid
/// items within its bound reads back from its binary form (a 32-bit
/// length, then the items) as the same list, taking exactly the bytes that
/// were written, whatever follows them.
pub proof fn lemma_list<T>(
    items: Seq<T>,
    rest: Seq<u8>,
    max: nat,
    enc: spec_fn(T) -> Seq<u8>,
    dec: spec_fn(Seq<u8>) -> Option<(T, nat)>,
    valid: spec_fn(T) -> bool,
)
    requires
        roundtrips(enc, dec, valid),
        forall|i: int| 0 <= i < items.len() ==> valid(#[trigger] items[i]),
        items.len() <= max,
        items.len() <= u32::MAX,
    ensures
        dec_list(enc_list(items, enc) + rest, max, dec) == Some((items, enc_list(items, enc).len())),
{
    let s = enc_list(items, enc) + rest;
    let body = enc_items(items, enc) + rest;
    assert(s =~= enc_u32(items.len() as u32) + body);
    lemma_u32(items.len() as u32, body);
    assert(s.skip(4) =~= body);
    lemma_items(items, rest, enc, dec, valid);
}

proof fn lemma_roundtrips_u16()
    ensures
        roundtrips(|c: u16| enc_u16(c), |b: Seq<u8>| dec_u16(b), |c: u16| true),
{
    assert forall|x: u16, rest: Seq<u8>| true implies #[trigger] dec_u16(enc_u16(x) + rest) == Some(
        (x, enc_u16(x).len()),
    ) by {
        lemma_u16(x, rest);
    }
}

proof fn lemma_roundtrips_type()
    ensures
        roundtrips(|x: Type| enc_type(x), |b: Seq<u8>| dec_type(b), |x: Type| type_valid(x)),
{
    assert forall|x: Type, rest: Seq<u8>| type_valid(x) implies #[trigger] dec_type(enc_type(x) + rest)
        == Some((x, enc_type(x).len())) by {
        lemma_type(x, rest);
    }
}

proof fn lemma_table(t: FinishedModel, rest: Seq<u8>)
    requires
        table_valid(t),
    ensures
        dec_table(enc_table(t) + rest) == Some((t, enc_table(t).len())),
{
    let counts = enc_items(t.counts, |c: u16| enc_u16(c));
    let types = enc_list(t.types, |x: Type| enc_type(x));
    let s = enc_table(t) + rest;
    assert(s =~= seq![t.count] + (counts + (types + rest)));
    assert(s.skip(1) =~= counts + (types + rest));
    lemma_roundtrips_u16();
    lemma_items(t.counts, types + rest, |c: u16| enc_u16(c), |b: Seq<u8>| dec_u16(b), |c: u16| true);
    assert(s.skip((1 + counts.len()) as int) =~= types + rest);
    lemma_roundtrips_type();
    lemma_list(
        t.types,
        rest,
        u32::MAX as nat,
        |x: Type| enc_type(x),
        |b: Seq<u8>| dec_type(b),
        |x: Type| type_valid(x),
    );
}

proof fn lemma_head(d: DefinitionModel, rest: Seq<u8>)
    ensures
        dec_head(enc_head(d) + rest) == Some(((d.name, d.version, d.access), 7nat)),
{
    let s = enc_head(d) + rest;
    lemma_u16(d.name.value, Seq::empty());
    lemma_u16(d.version.major, Seq::empty());
    lemma_u16(d.version.minor, Seq::empty());
    assert(enc_u16(d.name.value) + Seq::<u8>::empty() =~= enc_u16(d.name.value));
    assert(enc_u16(d.version.major) + Seq::<u8>::empty() =~= enc_u16(d.version.major));
    assert(enc_u16(d.version.minor) + Seq::<u8>::empty() =~= enc_u16(d.version.minor));
    assert(s.subrange(0, 2) =~= enc_u16(d.name.value));
    assert(s.subrange(2, 4) =~= enc_u16(d.version.major));
    assert(s.subrange(4, 6) =~= enc_u16(d.version.minor));
    assert(s.skip(6) =~= enc_access(d.access) + rest);
    lemma_access(d.access, rest);
}

/// Reading a definition back from its binary form gives the definition,
/// and takes exactly the bytes that were written, whatever follows them.
proof fn lemma_tail_messages(d: DefinitionModel, rest: Seq<u8>)
    requires
        definition_valid(d),
    ensures
        ({
            let e = enc_list(d.messages, |m: MessageSymbol| enc_message(m)) + enc_table(d.table);
            dec_tail_messages(e + rest) == Some(((d.messages, d.table), e.len()))
        }),
{
    let e5 = enc_list(d.messages, |m: MessageSymbol| enc_message(m));
    let e6 = enc_table(d.table);
    let s = (e5 + e6) + rest;
    assert(s =~= e5 + (e6 + rest));
    assert forall|x: MessageSymbol, r: Seq<u8>| true implies #[trigger] dec_message(enc_message(x) + r)
        == Some((x, enc_message(x).len())) by {
        lemma_message(x, r);
    }
    lemma_list(
        d.messages,
        e6 + rest,
        MAX_MESSAGES as nat,
        |m: MessageSymbol| enc_message(m),
        |b: Seq<u8>| dec_message(b),
        |m: MessageSymbol| true,
    );
    assert(s.skip(e5.len() as int) =~= e6 + rest);
    lemma_table(d.table, rest);
}

proof fn lemma_tail_groups(d: DefinitionModel, rest: Seq<u8>)
    requires
        definition_valid(d),
    ensures
        ({
            let e = enc_list(d.groups, |g: GroupSymbol| enc_group(g)) + (enc_list(
                d.messages,
                |m: MessageSymbol| enc_message(m),
            ) + enc_table(d.table));
            dec_tail_groups(e + rest) == Some(((d.groups, d.messages, d.table), e.len()))
        }),
{
    let e4 = enc_list(d.groups, |g: GroupSymbol| enc_group(g));
    let t = enc_list(d.messages, |m: MessageSymbol| enc_message(m)) + enc_table(d.table);
    let s = (e4 + t) + rest;
    assert(s =~= e4 + (t + rest));
    assert forall|x: GroupSymbol, r: Seq<u8>| true implies #[trigger] dec_group(enc_group(x) + r) == Some(
        (x, enc_group(x).len()),
    ) by {
        lemma_group(x, r);
    }
    lemma_list(
        d.groups,
        t + rest,
        MAX_GROUPS as nat,
        |g: GroupSymbol| enc_group(g),
        |b: Seq<u8>| dec_group(b),
        |g: GroupSymbol| true,
    );
    assert(s.skip(e4.len() as int) =~= t + rest);
    lemma_tail_messages(d, rest);
}

#[verifier::rlimit(40)]
proof fn lemma_tail_fields(d: DefinitionModel, rest: Seq<u8>)
    requires
        definition_valid(d),
    ensures
        ({
            let e = enc_list(d.fields, |f: FieldSymbol| enc_field(f)) + (enc_list(
                d.groups,
                |g: GroupSymbol| enc_group(g),
            ) + (enc_list(d.messages, |m: MessageSymbol| enc_message(m)) + enc_table(d.table)));
            dec_tail_fields(e + rest) == Some(((d.fields, d.groups, d.messages, d.table), e.len()))
        }),
{
    let e3 = enc_list(d.fields, |f: FieldSymbol| enc_field(f));
    let t = enc_list(d.groups, |g: GroupSymbol| enc_group(g)) + (enc_list(
        d.messages,
        |m: MessageSymbol| enc_message(m),
    ) + enc_table(d.table));
    let s = (e3 + t) + rest;
    assert(s =~= e3 + (t + rest));
    assert forall|x: FieldSymbol, r: Seq<u8>| field_valid(x) implies #[trigger] dec_field(enc_field(x) + r)
        == Some((x, enc_field(x).len())) by {
        lemma_field(x, r);
    }
    lemma_list(
        d.fields,
        t + rest,
        MAX_FIELDS as nat,
        |f: FieldSymbol| enc_field(f),
        |b: Seq<u8>| dec_field(b),
        |f: FieldSymbol| field_valid(f),
    );
    assert(s.skip(e3.len() as int) =~= t + rest);
    lemma_tail_groups(d, rest);
}

#[verifier::rlimit(40)]
proof fn lemma_tail_variants(d: DefinitionModel, rest: Seq<u8>)
    requires
        definition_valid(d),
    ensures
        ({
            let e = enc_list(d.variants, |v: StringId| enc_string_id(v)) + (enc_list(
                d.fields,
                |f: FieldSymbol| enc_field(f),
            ) + (enc_list(d.groups, |g: GroupSymbol| enc_group(g)) + (enc_list(
                d.messages,
                |m: MessageSymbol| enc_message(m),
            ) + enc_table(d.table))));
            dec_tail_variants(e + rest) == Some(
                ((d.variants, d.fields, d.groups, d.messages, d.table), e.len()),
            )
        }),
{
    let e2 = enc_list(d.variants, |v: StringId| enc_string_id(v));
    let t = enc_list(d.fields, |f: FieldSymbol| enc_field(f)) + (enc_list(
        d.groups,
        |g: GroupSymbol| enc_group(g),
    ) + (enc_list(d.messages, |m: MessageSymbol| enc_message(m)) + enc_table(d.table)));
    let s = (e2 + t) + rest;
    assert(s =~= e2 + (t + rest));
    assert forall|x: StringId, r: Seq<u8>| true implies #[trigger] dec_string_id(enc_string_id(x) + r)
        == Some((x, enc_string_id(x).len())) by {
        lemma_u16(x.value, r);
    }
    lemma_list(
        d.variants,
        t + rest,
        MAX_VARIANTS as nat,
        |v: StringId| enc_string_id(v),
        |b: Seq<u8>| dec_string_id(b),
        |v: StringId| true,
    );
    assert(s.skip(e2.len() as int) =~= t + rest);
    lemma_tail_fields(d, rest);
}

/// Reading a definition back from its binary form gives the definition,
/// and takes exactly the bytes that were written, whatever follows them.
pub proof fn lemma_definition_roundtrip(d: DefinitionModel, rest: Seq<u8>)
    requires
        definition_valid(d),
    ensures
        dec_definition(enc_definition(d) + rest) == Some((d, enc_definition(d).len())),
{
    let e1 = enc_head(d);
    let t = enc_list(d.variants, |v: StringId| enc_string_id(v)) + (enc_list(
        d.fields,
        |f: FieldSymbol| enc_field(f),
    ) + (enc_list(d.groups, |g: GroupSymbol| enc_group(g)) + (enc_list(
        d.messages,
        |m: MessageSymbol| enc_message(m),
    ) + enc_table(d.table))));
    assert(enc_definition(d) =~= e1 + t);
    let s = enc_definition(d) + rest;
    assert(s =~= e1 + (t + rest));
    lemma_head(d, t + rest);
    assert(s.skip(7) =~= t + rest);
    lemma_tail_variants(d, rest);
}

// Writing.

fn put_u16(out: &mut Vec<u8>, v: u16)
    ensures
        final(out)@ == old(out)@ + enc_u16(v),
{
    out.push((v % 256) as u8);
    out.push((v / 256) as u8);
    assert(out@ =~= old(out)@ + enc_u16(v));
}

fn put_u32(out: &mut Vec<u8>, v: u32)
    ensures
        final(out)@ == old(out)@ + enc_u32(v),
{
    out.push((v % 256) as u8);
    out.push(((v / 256) % 256) as u8);
    out.push(((v / 65536) % 256) as u8);
    out.push((v / 16777216) as u8);
    assert(out@ =~= old(out)@ + enc_u32(v));
}

fn put_type_id(out: &mut Vec<u8>, t: TypeId)
    ensures
        final(out)@ == old(out)@ + enc_type_id(t),
{
    put_u16(out, t.index);
    out.push(t.group);
    out.push(t.meta.value);
    assert(out@ =~= old(out)@ + enc_type_id(t));
}

fn put_array(out: &mut Vec<u8>, a: ArraySymbol)
    ensures
        final(out)@ == old(out)@ + enc_array(a),
{
    put_type_id(out, a.kind);
    out.push(a.len.value);
    assert(out@ =~= old(out)@ + enc_array(a));
}

fn put_field(out: &mut Vec<u8>, f: FieldSymbol)
    ensures
        final(out)@ == old(out)@ + enc_field(f),
{
    put_u16(out, f.name.value);
    let ghost mid = out@;
    match f.kind {
        FieldType::Type(id) => {
            out.push(0u8);
            put_type_id(out, id);
        },
        FieldType::Array(a) => {
            out.push(1u8);
            put_array(out, a);
        },
    }
    assert(out@ =~= mid + enc_field_type(f.kind));
    assert(out@ =~= old(out)@ + enc_field(f));
}

fn put_group(out: &mut Vec<u8>, g: GroupSymbol)
    ensures
        final(out)@ == old(out)@ + enc_group(g),
{
    put_u16(out, g.name.value);
    out.push(g.messages.start);
    out.push(g.messages.len);
    put_u32(out, g.structs.start);
    out.push(g.structs.len);
    put_u32(out, g.enums.start);
    out.push(g.enums.len);
    assert(out@ =~= old(out)@ + enc_group(g));
}

fn put_message(out: &mut Vec<u8>, m: MessageSymbol)
    ensures
        final(out)@ == old(out)@ + enc_message(m),
{
    put_u16(out, m.name.value);
    put_u32(out, m.fields.start);
    out.push(m.fields.len);
    let ghost mid = out@;
    match m.remainder.name {
        None => out.push(0u8),
        Some(id) => {
            out.push(1u8);
            put_u16(out, id.value);
        },
    }
    assert(out@ =~= mid + enc_remainder(m.remainder));
    assert(out@ =~= old(out)@ + enc_message(m));
}

fn put_type(out: &mut Vec<u8>, t: Type)
    ensures
        final(out)@ == old(out)@ + enc_type(t),
{
    match t {
        Type::Numeric(n) => {
            out.push(0u8);
            let ordinal = n.name().value;
            out.push(ordinal as u8);
        },
        Type::Array(a) => {
            out.push(1u8);
            put_array(out, a);
        },
        Type::Struct(sym) => {
            out.push(2u8);
            put_u16(out, sym.name.value);
            put_u32(out, sym.fields.start);
            out.push(sym.fields.len);
        },
        Type::Enum(sym) => {
            out.push(3u8);
            put_u16(out, sym.name.value);
            put_u16(out, sym.variants.start);
            put_u16(out, sym.variants.len);
        },
    }
    assert(out@ =~= old(out)@ + enc_type(t));
}

/// One encoded item more.
proof fn lemma_enc_items_step<T>(items: Seq<T>, i: int, enc: spec_fn(T) -> Seq<u8>)
    requires
        0 <= i < items.len(),
    ensures
        enc_items(items.take(i + 1), enc) == enc_items(items.take(i), enc) + enc(items[i]),
{
    let p = items.take(i + 1);
    assert(p.drop_last() =~= items.take(i));
}

fn put_variants(out: &mut Vec<u8>, items: &[StringId])
    ensures
        final(out)@ == old(out)@ + enc_list(items@, |v: StringId| enc_string_id(v)),
{
    let ghost start = out@;
    put_u32(out, items.len() as u32);
    let ghost base = out@;
    let mut i: usize = 0;
    assert(items@.take(0) =~= Seq::<StringId>::empty());
    while i < items.len()
        invariant
            0 <= i <= items@.len(),
            out@ == base + enc_items(items@.take(i as int), |v: StringId| enc_string_id(v)),
        decreases items.len() - i,
    {
        proof { lemma_enc_items_step(items@, i as int, |v: StringId| enc_string_id(v)); }
        put_u16(out, items[i].value);
        i = i + 1;
        assert(out@ =~= base + enc_items(items@.take(i as int), |v: StringId| enc_string_id(v)));
    }
    assert(items@.take(items@.len() as int) =~= items@);
    assert(out@ =~= start + enc_list(items@, |v: StringId| enc_string_id(v)));
}

fn put_fields(out: &mut Vec<u8>, items: &[FieldSymbol])
    ensures
        final(out)@ == old(out)@ + enc_list(items@, |f: FieldSymbol| enc_field(f)),
{
    let ghost start = out@;
    put_u32(out, items.len() as u32);
    let ghost base = out@;
    let mut i: usize = 0;
    assert(items@.take(0) =~= Seq::<FieldSymbol>::empty());
    while i < items.len()
        invariant
            0 <= i <= items@.len(),
            out@ == base + enc_items(items@.take(i as int), |f: FieldSymbol| enc_field(f)),
        decreases items.len() - i,
    {
        proof { lemma_enc_items_step(items@, i as int, |f: FieldSymbol| enc_field(f)); }
        put_field(out, items[i]);
        i = i + 1;
        assert(out@ =~= base + enc_items(items@.take(i as int), |f: FieldSymbol| enc_field(f)));
    }
    assert(items@.take(items@.len() as int) =~= items@);
    assert(out@ =~= start + enc_list(items@, |f: FieldSymbol| enc_field(f)));
}

fn put_groups(out: &mut Vec<u8>, items: &[GroupSymbol])
    ensures
        final(out)@ == old(out)@ + enc_list(items@, |g: GroupSymbol| enc_group(g)),
{
    let ghost start = out@;
    put_u32(out, items.len() as u32);
    let ghost base = out@;
    let mut i: usize = 0;
    assert(items@.take(0) =~= Seq::<GroupSymbol>::empty());
    while i < items.len()
        invariant
            0 <= i <= items@.len(),
            out@ == base + enc_items(items@.take(i as int), |g: GroupSymbol| enc_group(g)),
        decreases items.len() - i,
    {
        proof { lemma_enc_items_step(items@, i as int, |g: GroupSymbol| enc_group(g)); }
        put_group(out, items[i]);
        i = i + 1;
        assert(out@ =~= base + enc_items(items@.take(i as int), |g: GroupSymbol| enc_group(g)));
    }
    assert(items@.take(items@.len() as int) =~= items@);
    assert(out@ =~= start + enc_list(items@, |g: GroupSymbol| enc_group(g)));
}

fn put_messages(out: &mut Vec<u8>, items: &[MessageSymbol])
    ensures
        final(out)@ == old(out)@ + enc_list(items@, |m: MessageSymbol| enc_message(m)),
{
    let ghost start = out@;
    put_u32(out, items.len() as u32);
    let ghost base = out@;
    let mut i: usize = 0;
    assert(items@.take(0) =~= Seq::<MessageSymbol>::empty());
    while i < items.len()
        invariant
            0 <= i <= items@.len(),
            out@ == base + enc_items(items@.take(i as int), |m: MessageSymbol| enc_message(m)),
        decreases items.len() - i,
    {
        proof { lemma_enc_items_step(items@, i as int, |m: MessageSymbol| enc_message(m)); }
        put_message(out, items[i]);
        i = i + 1;
        assert(out@ =~= base + enc_items(items@.take(i as int), |m: MessageSymbol| enc_message(m)));
    }
    assert(items@.take(items@.len() as int) =~= items@);
    assert(out@ =~= start + enc_list(items@, |m: MessageSymbol| enc_message(m)));
}

fn put_table(out: &mut Vec<u8>, count: u8, counts: &[u16], types: &[Type])
    ensures
        final(out)@ == old(out)@ + enc_table(FinishedModel { count, counts: counts@, types: types@ }),
{
    let ghost start = out@;
    out.push(count);
    let ghost base = out@;
    let mut i: usize = 0;
    assert(counts@.take(0) =~= Seq::<u16>::empty());
    while i < counts.len()
        invariant
            0 <= i <= counts@.len(),
            out@ == base + enc_items(counts@.take(i as int), |c: u16| enc_u16(c)),
        decreases counts.len() - i,
    {
        proof { lemma_enc_items_step(counts@, i as int, |c: u16| enc_u16(c)); }
        put_u16(out, counts[i]);
        i = i + 1;
        assert(out@ =~= base + enc_items(counts@.take(i as int), |c: u16| enc_u16(c)));
    }
    assert(counts@.take(counts@.len() as int) =~= counts@);
    let ghost mid = out@;
    put_u32(out, types.len() as u32);
    let ghost base2 = out@;
    let mut k: usize = 0;
    assert(types@.take(0) =~= Seq::<Type>::empty());
    while k < types.len()
        invariant
            0 <= k <= types@.len(),
            out@ == base2 + enc_items(types@.take(k as int), |x: Type| enc_type(x)),
        decreases types.len() - k,
    {
        proof { lemma_enc_items_step(types@, k as int, |x: Type| enc_type(x)); }
        put_type(out, types[k]);
        k = k + 1;
        assert(out@ =~= base2 + enc_items(types@.take(k as int), |x: Type| enc_type(x)));
    }
    assert(types@.take(types@.len() as int) =~= types@);
    assert(out@ =~= start + enc_table(FinishedModel { count, counts: counts@, types: types@ }));
}

impl ProtocolDefinition {
    /// The binary form of the definition; a valid definition (every
    /// compiled one is) reads back from it.
    pub fn to_bytes(&self) -> (r: Vec<u8>)
        ensures
            r@ == enc_definition(self.model()),
            definition_valid(self.model()) ==> dec_definition(r@) == Some((self.model(), r@.len())),
    {
        let ghost d = self.model();
        let mut out: Vec<u8> = Vec::new();
        put_u16(&mut out, self.name().value);
        let version = self.version();
        put_u16(&mut out, version.major);
        put_u16(&mut out, version.minor);
        match self.access() {
            Access::ExclusiveWrite => out.push(0u8),
            Access::MultipleWrite => out.push(1u8),
        }
        assert(out@ =~= enc_head(d));
        let ghost e1 = out@;
        put_variants(&mut out, self.variants());
        let ghost e2 = out@;
        put_fields(&mut out, self.fields());
        let ghost e3 = out@;
        put_groups(&mut out, self.groups());
        let ghost e4 = out@;
        put_messages(&mut out, self.messages());
        let ghost e5 = out@;
        let table = self.table();
        put_table(&mut out, table.group_count() as u8, table.counts(), table.types());
        assert(out@ =~= enc_definition(d));
        proof {
            if definition_valid(d) {
                lemma_definition_roundtrip(d, Seq::empty());
                assert(enc_definition(d) + Seq::<u8>::empty() =~= enc_definition(d));
            }
        }
        out
    }
}

// Reading.

/// What a reader at `pos` of a byte sequence of length `len` gives for a
/// decoder's result: nothing, or the value and the position just past it.
pub open spec fn read_result<T>(d: Option<(T, nat)>, len: nat, pos: usize, r: Option<(T, usize)>) -> bool {
    match d {
        None => r is None,
        Some((v, n)) => pos + n <= len && (r matches Some((x, p)) && x == v && p == pos + n),
    }
}

proof fn lemma_skip_skip(b: Seq<u8>, i: int, j: int)
    requires
        0 <= i,
        0 <= j,
        i + j <= b.len(),
    ensures
        b.skip(i).skip(j) == b.skip(i + j),
{
    assert(b.skip(i).skip(j) =~= b.skip(i + j));
}

fn get_u8(b: &[u8], pos: usize) -> (r: Option<(u8, usize)>)
    requires
        pos <= b@.len(),
    ensures
        read_result(dec_u8(b@.skip(pos as int)), b@.len(), pos, r),
{
    if pos >= b.len() {
        return None;
    }
    Some((b[pos], pos + 1))
}

fn get_u16(b: &[u8], pos: usize) -> (r: Option<(u16, usize)>)
    requires
        pos <= b@.len(),
    ensures
        read_result(dec_u16(b@.skip(pos as int)), b@.len(), pos, r),
{
    if b.len() - pos < 2 {
        return None;
    }
    let v = b[pos] as u16 + 256 * (b[pos + 1] as u16);
    Some((v, pos + 2))
}

fn get_u32(b: &[u8], pos: usize) -> (r: Option<(u32, usize)>)
    requires
        pos <= b@.len(),
    ensures
        read_result(dec_u32(b@.skip(pos as int)), b@.len(), pos, r),
{
    if b.len() - pos < 4 {
        return None;
    }
    let v = b[pos] as u32 + 256 * (b[pos + 1] as u32) + 65536 * (b[pos + 2] as u32) + 16777216 * (b[pos
        + 3] as u32);
    Some((v, pos + 4))
}

fn get_type_id(b: &[u8], pos: usize) -> (r: Option<(TypeId, usize)>)
    requires
        pos <= b@.len(),
    ensures
        read_result(dec_type_id(b@.skip(pos as int)), b@.len(), pos, r),
{
    if b.len() - pos < 4 || b[pos + 2] == 0 {
        return None;
    }
    let index = b[pos] as u16 + 256 * (b[pos + 1] as u16);
    Some((TypeId { index, group: b[pos + 2], meta: TypeMeta { value: b[pos + 3] } }, pos + 4))
}

fn get_array(b: &[u8], pos: usize) -> (r: Option<(ArraySymbol, usize)>)
    requires
        pos <= b@.len(),
    ensures
        read_result(dec_array(b@.skip(pos as int)), b@.len(), pos, r),
{
    let (kind, p) = match get_type_id(b, pos) {
        Some(x) => x,
        None => return None,
    };
    proof { lemma_skip_skip(b@, pos as int, 4); }
    if p >= b.len() || b[p] == 0 {
        return None;
    }
    Some((ArraySymbol { kind, len: Size { value: b[p] } }, p + 1))
}

fn get_field(b: &[u8], pos: usize) -> (r: Option<(FieldSymbol, usize)>)
    requires
        pos <= b@.len(),
    ensures
        read_result(dec_field(b@.skip(pos as int)), b@.len(), pos, r),
{
    let ghost s = b@.skip(pos as int);
    let (name, p) = match get_u16(b, pos) {
        Some(x) => x,
        None => return None,
    };
    proof { lemma_skip_skip(b@, pos as int, 2); }
    if p >= b.len() {
        return None;
    }
    let tag = b[p];
    proof { lemma_skip_skip(b@, p as int, 1); }
    if tag == 0 {
        let (id, q) = match get_type_id(b, p + 1) {
            Some(x) => x,
            None => return None,
        };
        Some((FieldSymbol { name: StringId { value: name }, kind: FieldType::Type(id) }, q))
    } else if tag == 1 {
        let (a, q) = match get_array(b, p + 1) {
            Some(x) => x,
            None => return None,
        };
        Some((FieldSymbol { name: StringId { value: name }, kind: FieldType::Array(a) }, q))
    } else {
        None
    }
}

fn get_group(b: &[u8], pos: usize) -> (r: Option<(GroupSymbol, usize)>)
    requires
        pos <= b@.len(),
    ensures
        read_result(dec_group(b@.skip(pos as int)), b@.len(), pos, r),
{
    if b.len() - pos < 14 {
        return None;
    }
    let name = b[pos] as u16 + 256 * (b[pos + 1] as u16);
    let structs = b[pos + 4] as u32 + 256 * (b[pos + 5] as u32) + 65536 * (b[pos + 6] as u32)
        + 16777216 * (b[pos + 7] as u32);
    let enums = b[pos + 9] as u32 + 256 * (b[pos + 10] as u32) + 65536 * (b[pos + 11] as u32)
        + 16777216 * (b[pos + 12] as u32);
    Some(
        (
            GroupSymbol {
                name: StringId { value: name },
                messages: Messages { start: b[pos + 2], len: b[pos + 3] },
                structs: Structs { start: structs, len: b[pos + 8] },
                enums: Enums { start: enums, len: b[pos + 13] },
            },
            pos + 14,
        ),
    )
}

fn get_message(b: &[u8], pos: usize) -> (r: Option<(MessageSymbol, usize)>)
    requires
        pos <= b@.len(),
    ensures
        read_result(dec_message(b@.skip(pos as int)), b@.len(), pos, r),
{
    let (name, p) = match get_u16(b, pos) {
        Some(x) => x,
        None => return None,
    };
    proof { lemma_skip_skip(b@, pos as int, 2); }
    let (start, q) = match get_u32(b, p) {
        Some(x) => x,
        None => return None,
    };
    if q >= b.len() {
        return None;
    }
    let fields = Fields { start, len: b[q] };
    let p2 = q + 1;
    proof { lemma_skip_skip(b@, pos as int, 7); }
    if p2 >= b.len() {
        return None;
    }
    let tag = b[p2];
    if tag == 0 {
        Some((MessageSymbol { name: StringId { value: name }, fields, remainder: Remainder { name: None } }, p2 + 1))
    } else if tag == 1 && b.len() - p2 >= 3 {
        let id = b[p2 + 1] as u16 + 256 * (b[p2 + 2] as u16);
        Some(
            (
                MessageSymbol {
                    name: StringId { value: name },
                    fields,
                    remainder: Remainder { name: Some(StringId { value: id }) },
                },
                p2 + 3,
            ),
        )
    } else {
        None
    }
}

fn get_type(b: &[u8], pos: usize) -> (r: Option<(Type, usize)>)
    requires
        pos <= b@.len(),
    ensures
        read_result(dec_type(b@.skip(pos as int)), b@.len(), pos, r),
{
    if pos >= b.len() {
        return None;
    }
    let tag = b[pos];
    let p = pos + 1;
    proof { lemma_skip_skip(b@, pos as int, 1); }
    if tag == 0 {
        if p >= b.len() || b[p] >= 12 {
            return None;
        }
        let n = crate::table::builtin_symbol(b[p] as usize);
        Some((Type::Numeric(n), p + 1))
    } else if tag == 1 {
        let (a, q) = match get_array(b, p) {
            Some(x) => x,
            None => return None,
        };
        Some((Type::Array(a), q))
    } else if tag == 2 {
        let (name, q) = match get_u16(b, p) {
            Some(x) => x,
            None => return None,
        };
        proof { lemma_skip_skip(b@, pos as int, 3); }
        let (start, q2) = match get_u32(b, q) {
            Some(x) => x,
            None => return None,
        };
        if q2 >= b.len() {
            return None;
        }
        let fields = Fields { start, len: b[q2] };
        Some((Type::Struct(StructSymbol { name: StringId { value: name }, fields }), q2 + 1))
    } else if tag == 3 {
        let (name, q) = match get_u16(b, p) {
            Some(x) => x,
            None => return None,
        };
        proof { lemma_skip_skip(b@, pos as int, 3); }
        if b.len() - q < 4 {
            return None;
        }
        let start = b[q] as u16 + 256 * (b[q + 1] as u16);
        let len = b[q + 2] as u16 + 256 * (b[q + 3] as u16);
        Some((Type::Enum(EnumSymbol { name: StringId { value: name }, variants: Variants { start, len } }), q + 4))
    } else {
        None
    }
}

/// Reading `n` items gives `n` items.
proof fn lemma_items_len<T>(s: Seq<u8>, n: nat, dec: spec_fn(Seq<u8>) -> Option<(T, nat)>)
    ensures
        dec_items(s, n, dec) matches Some((xs, _)) ==> xs.len() == n,
    decreases n,
{
    if n > 0 {
        lemma_items_len(s, (n - 1) as nat, dec);
    }
}

/// Once reading some items fails, reading more of them fails too.
proof fn lemma_items_none<T>(s: Seq<u8>, i: nat, n: nat, dec: spec_fn(Seq<u8>) -> Option<(T, nat)>)
    requires
        i <= n,
        dec_items(s, i, dec) is None,
    ensures
        dec_items(s, n, dec) is None,
    decreases n - i,
{
    if i < n {
        lemma_items_none(s, i, (n - 1) as nat, dec);
    }
}

fn get_string_id(b: &[u8], pos: usize) -> (r: Option<(StringId, usize)>)
    requires
        pos <= b@.len(),
    ensures
        read_result(dec_string_id(b@.skip(pos as int)), b@.len(), pos, r),
{
    match get_u16(b, pos) {
        Some((v, p)) => Some((StringId { value: v }, p)),
        None => None,
    }
}

fn get_variants(b: &[u8], pos: usize) -> (r: Option<(Vec<StringId>, usize)>)
    requires
        pos <= b@.len(),
    ensures
        match dec_list(b@.skip(pos as int), MAX_VARIANTS as nat, |b: Seq<u8>| dec_string_id(b)) {
            None => r is None,
            Some((xs, n)) => pos + n <= b@.len() && (r matches Some((v, p)) && v@ == xs && p == pos + n),
        },
        r matches Some((v, _)) ==> v@.len() <= MAX_VARIANTS,
{
    let (n, start) = match get_u32(b, pos) {
        Some(x) => x,
        None => return None,
    };
    proof { lemma_skip_skip(b@, pos as int, 4); }
    if n as u64 > MAX_VARIANTS as u64 {
        return None;
    }
    let ghost s = b@.skip(start as int);
    let mut items: Vec<StringId> = Vec::new();
    let mut p: usize = start;
    let mut i: u32 = 0;
    while i < n
        invariant
            0 <= i <= n,
            start <= p <= b@.len(),
            start == pos + 4,
            s == b@.skip(start as int),
            s == b@.skip(pos as int).skip(4),
            dec_u32(b@.skip(pos as int)) == Some((n, 4nat)),
            n <= MAX_VARIANTS,
            items@.len() == i,
            dec_items(s, i as nat, |b: Seq<u8>| dec_string_id(b)) == Some((items@, (p - start) as nat)),
        decreases n - i,
    {
        proof { lemma_skip_skip(b@, start as int, p - start); }
        let (x, q) = match get_string_id(b, p) {
            Some(x) => x,
            None => {
                proof { lemma_items_none(s, (i + 1) as nat, n as nat, |b: Seq<u8>| dec_string_id(b)); }
                return None;
            },
        };
        items.push(x);
        p = q;
        i = i + 1;
    }
    Some((items, p))
}

fn get_fields(b: &[u8], pos: usize) -> (r: Option<(Vec<FieldSymbol>, usize)>)
    requires
        pos <= b@.len(),
    ensures
        match dec_list(b@.skip(pos as int), MAX_FIELDS as nat, |b: Seq<u8>| dec_field(b)) {
            None => r is None,
            Some((xs, n)) => pos + n <= b@.len() && (r matches Some((v, p)) && v@ == xs && p == pos + n),
        },
        r matches Some((v, _)) ==> v@.len() <= MAX_FIELDS,
{
    let (n, start) = match get_u32(b, pos) {
        Some(x) => x,
        None => return None,
    };
    proof { lemma_skip_skip(b@, pos as int, 4); }
    if n as u64 > MAX_FIELDS as u64 {
        return None;
    }
    let ghost s = b@.skip(start as int);
    let mut items: Vec<FieldSymbol> = Vec::new();
    let mut p: usize = start;
    let mut i: u32 = 0;
    while i < n
        invariant
            0 <= i <= n,
            start <= p <= b@.len(),
            start == pos + 4,
            s == b@.skip(start as int),
            s == b@.skip(pos as int).skip(4),
            dec_u32(b@.skip(pos as int)) == Some((n, 4nat)),
            n <= MAX_FIELDS,
            items@.len() == i,
            dec_items(s, i as nat, |b: Seq<u8>| dec_field(b)) == Some((items@, (p - start) as nat)),
        decreases n - i,
    {
        proof { lemma_skip_skip(b@, start as int, p - start); }
        let (x, q) = match get_field(b, p) {
            Some(x) => x,
            None => {
                proof { lemma_items_none(s, (i + 1) as nat, n as nat, |b: Seq<u8>| dec_field(b)); }
                return None;
            },
        };
        items.push(x);
        p = q;
        i = i + 1;
    }
    Some((items, p))
}

fn get_groups(b: &[u8], pos: usize) -> (r: Option<(Vec<GroupSymbol>, usize)>)
    requires
        pos <= b@.len(),
    ensures
        match dec_list(b@.skip(pos as int), MAX_GROUPS as nat, |b: Seq<u8>| dec_group(b)) {
            None => r is None,
            Some((xs, n)) => pos + n <= b@.len() && (r matches Some((v, p)) && v@ == xs && p == pos + n),
        },
        r matches Some((v, _)) ==> v@.len() <= MAX_GROUPS,
{
    let (n, start) = match get_u32(b, pos) {
        Some(x) => x,
        None => return None,
    };
    proof { lemma_skip_skip(b@, pos as int, 4); }
    if n as u64 > MAX_GROUPS as u64 {
        return None;
    }
    let ghost s = b@.skip(start as int);
    let mut items: Vec<GroupSymbol> = Vec::new();
    let mut p: usize = start;
    let mut i: u32 = 0;
    while i < n
        invariant
            0 <= i <= n,
            start <= p <= b@.len(),
            start == pos + 4,
            s == b@.skip(start as int),
            s == b@.skip(pos as int).skip(4),
            dec_u32(b@.skip(pos as int)) == Some((n, 4nat)),
            n <= MAX_GROUPS,
            items@.len() == i,
            dec_items(s, i as nat, |b: Seq<u8>| dec_group(b)) == Some((items@, (p - start) as nat)),
        decreases n - i,
    {
        proof { lemma_skip_skip(b@, start as int, p - start); }
        let (x, q) = match get_group(b, p) {
            Some(x) => x,
            None => {
                proof { lemma_items_none(s, (i + 1) as nat, n as nat, |b: Seq<u8>| dec_group(b)); }
                return None;
            },
        };
        items.push(x);
        p = q;
        i = i + 1;
    }
    Some((items, p))
}

fn get_messages(b: &[u8], pos: usize) -> (r: Option<(Vec<MessageSymbol>, usize)>)
    requires
        pos <= b@.len(),
    ensures
        match dec_list(b@.skip(pos as int), MAX_MESSAGES as nat, |b: Seq<u8>| dec_message(b)) {
            None => r is None,
            Some((xs, n)) => pos + n <= b@.len() && (r matches Some((v, p)) && v@ == xs && p == pos + n),
        },
        r matches Some((v, _)) ==> v@.len() <= MAX_MESSAGES,
{
    let (n, start) = match get_u32(b, pos) {
        Some(x) => x,
        None => return None,
    };
    proof { lemma_skip_skip(b@, pos as int, 4); }
    if n as u64 > MAX_MESSAGES as u64 {
        return None;
    }
    let ghost s = b@.skip(start as int);
    let mut items: Vec<MessageSymbol> = Vec::new();
    let mut p: usize = start;
    let mut i: u32 = 0;
    while i < n
        invariant
            0 <= i <= n,
            start <= p <= b@.len(),
            start == pos + 4,
            s == b@.skip(start as int),
            s == b@.skip(pos as int).skip(4),
            dec_u32(b@.skip(pos as int)) == Some((n, 4nat)),
            n <= MAX_MESSAGES,
            items@.len() == i,
            dec_items(s, i as nat, |b: Seq<u8>| dec_message(b)) == Some((items@, (p - start) as nat)),
        decreases n - i,
    {
        proof { lemma_skip_skip(b@, start as int, p - start); }
        let (x, q) = match get_message(b, p) {
            Some(x) => x,
            None => {
                proof { lemma_items_none(s, (i + 1) as nat, n as nat, |b: Seq<u8>| dec_message(b)); }
                return None;
            },
        };
        items.push(x);
        p = q;
        i = i + 1;
    }
    Some((items, p))
}

fn get_types(b: &[u8], pos: usize) -> (r: Option<(Vec<Type>, usize)>)
    requires
        pos <= b@.len(),
    ensures
        match dec_list(b@.skip(pos as int), u32::MAX as nat, |b: Seq<u8>| dec_type(b)) {
            None => r is None,
            Some((xs, n)) => pos + n <= b@.len() && (r matches Some((v, p)) && v@ == xs && p == pos + n),
        },
        r matches Some((v, _)) ==> v@.len() <= u32::MAX,
{
    let (n, start) = match get_u32(b, pos) {
        Some(x) => x,
        None => return None,
    };
    proof { lemma_skip_skip(b@, pos as int, 4); }
    if n as u64 > u32::MAX as u64 {
        return None;
    }
    let ghost s = b@.skip(start as int);
    let mut items: Vec<Type> = Vec::new();
    let mut p: usize = start;
    let mut i: u32 = 0;
    while i < n
        invariant
            0 <= i <= n,
            start <= p <= b@.len(),
            start == pos + 4,
            s == b@.skip(start as int),
            s == b@.skip(pos as int).skip(4),
            dec_u32(b@.skip(pos as int)) == Some((n, 4nat)),
            n <= u32::MAX,
            items@.len() == i,
            dec_items(s, i as nat, |b: Seq<u8>| dec_type(b)) == Some((items@, (p - start) as nat)),
        decreases n - i,
    {
        proof { lemma_skip_skip(b@, start as int, p - start); }
        let (x, q) = match get_type(b, p) {
            Some(x) => x,
            None => {
                proof { lemma_items_none(s, (i + 1) as nat, n as nat, |b: Seq<u8>| dec_type(b)); }
                return None;
            },
        };
        items.push(x);
        p = q;
        i = i + 1;
    }
    Some((items, p))
}

fn get_table(b: &[u8], pos: usize) -> (r: Option<(crate::table::FinishedTypeTable, usize)>)
    requires
        pos <= b@.len(),
    ensures
        match dec_table(b@.skip(pos as int)) {
            None => r is None,
            Some((t, n)) => pos + n <= b@.len() && (r matches Some((tt, p)) && tt.model() == t && p
                == pos + n && tt.wf()),
        },
{
    let (count, start) = match get_u8(b, pos) {
        Some(x) => x,
        None => return None,
    };
    proof { lemma_skip_skip(b@, pos as int, 1); }
    let ghost s = b@.skip(start as int);
    let mut counts: Vec<u16> = Vec::new();
    let mut p: usize = start;
    let mut i: usize = 0;
    let n: usize = count as usize + 1;
    while i < n
        invariant
            0 <= i <= n,
            n == count + 1,
            start <= p <= b@.len(),
            start == pos + 1,
            s == b@.skip(start as int),
            s == b@.skip(pos as int).skip(1),
            dec_u8(b@.skip(pos as int)) == Some((count, 1nat)),
            counts@.len() == i,
            dec_items(s, i as nat, |b: Seq<u8>| dec_u16(b)) == Some((counts@, (p - start) as nat)),
        decreases n - i,
    {
        proof { lemma_skip_skip(b@, start as int, p - start); }
        let (c, q) = match get_u16(b, p) {
            Some(x) => x,
            None => {
                proof { lemma_items_none(s, (i + 1) as nat, n as nat, |b: Seq<u8>| dec_u16(b)); }
                return None;
            },
        };
        counts.push(c);
        p = q;
        i = i + 1;
    }
    proof {
        lemma_skip_skip(b@, pos as int, p - pos);
        lemma_items_len(s, n as nat, |b: Seq<u8>| dec_u16(b));
    }
    let (types, q) = match get_types(b, p) {
        Some(x) => x,
        None => return None,
    };
    let table = crate::table::FinishedTypeTable::from_parts(count, counts, types);
    Some((table, q))
}

fn get_tail_messages(b: &[u8], pos: usize) -> (r: Option<
    (Vec<MessageSymbol>, crate::table::FinishedTypeTable, usize),
>)
    requires
        pos <= b@.len(),
    ensures
        match dec_tail_messages(b@.skip(pos as int)) {
            None => r is None,
            Some(((ms, t), n)) => pos + n <= b@.len() && (r matches Some((v, tt, p)) && v@ == ms
                && tt.model() == t && tt.wf() && p == pos + n),
        },
        r matches Some((v, _, _)) ==> v@.len() <= MAX_MESSAGES,
{
    let (messages, p) = match get_messages(b, pos) {
        Some(x) => x,
        None => return None,
    };
    proof { lemma_skip_skip(b@, pos as int, p - pos); }
    let (table, q) = match get_table(b, p) {
        Some(x) => x,
        None => return None,
    };
    Some((messages, table, q))
}

fn get_tail_groups(b: &[u8], pos: usize) -> (r: Option<
    (Vec<GroupSymbol>, Vec<MessageSymbol>, crate::table::FinishedTypeTable, usize),
>)
    requires
        pos <= b@.len(),
    ensures
        match dec_tail_groups(b@.skip(pos as int)) {
            None => r is None,
            Some(((gs, ms, t), n)) => pos + n <= b@.len() && (r matches Some((g, v, tt, p)) && g@
                == gs && v@ == ms && tt.model() == t && tt.wf() && p == pos + n),
        },
        r matches Some((g, v, _, _)) ==> g@.len() <= MAX_GROUPS && v@.len() <= MAX_MESSAGES,
{
    let (groups, p) = match get_groups(b, pos) {
        Some(x) => x,
        None => return None,
    };
    proof { lemma_skip_skip(b@, pos as int, p - pos); }
    let (messages, table, q) = match get_tail_messages(b, p) {
        Some(x) => x,
        None => return None,
    };
    Some((groups, messages, table, q))
}

fn get_tail_fields(b: &[u8], pos: usize) -> (r: Option<
    (Vec<FieldSymbol>, Vec<GroupSymbol>, Vec<MessageSymbol>, crate::table::FinishedTypeTable, usize),
>)
    requires
        pos <= b@.len(),
    ensures
        match dec_tail_fields(b@.skip(pos as int)) {
            None => r is None,
            Some(((fs, gs, ms, t), n)) => pos + n <= b@.len() && (r matches Some((f, g, v, tt, p))
                && f@ == fs && g@ == gs && v@ == ms && tt.model() == t && tt.wf() && p == pos + n),
        },
        r matches Some((f, g, v, _, _)) ==> f@.len() <= MAX_FIELDS && g@.len() <= MAX_GROUPS
            && v@.len() <= MAX_MESSAGES,
{
    let (fields, p) = match get_fields(b, pos) {
        Some(x) => x,
        None => return None,
    };
    proof { lemma_skip_skip(b@, pos as int, p - pos); }
    let (groups, messages, table, q) = match get_tail_groups(b, p) {
        Some(x) => x,
        None => return None,
    };
    Some((fields, groups, messages, table, q))
}

fn get_tail_variants(b: &[u8], pos: usize) -> (r: Option<
    (
        Vec<StringId>,
        Vec<FieldSymbol>,
        Vec<GroupSymbol>,
        Vec<MessageSymbol>,
        crate::table::FinishedTypeTable,
        usize,
    ),
>)
    requires
        pos <= b@.len(),
    ensures
        match dec_tail_variants(b@.skip(pos as int)) {
            None => r is None,
            Some(((vs, fs, gs, ms, t), n)) => pos + n <= b@.len() && (r matches Some(
                (w, f, g, v, tt, p),
            ) && w@ == vs && f@ == fs && g@ == gs && v@ == ms && tt.model() == t && tt.wf() && p
                == pos + n),
        },
        r matches Some((w, f, g, v, _, _)) ==> w@.len() <= MAX_VARIANTS && f@.len() <= MAX_FIELDS
            && g@.len() <= MAX_GROUPS && v@.len() <= MAX_MESSAGES,
{
    let (variants, p) = match get_variants(b, pos) {
        Some(x) => x,
        None => return None,
    };
    proof { lemma_skip_skip(b@, pos as int, p - pos); }
    let (fields, groups, messages, table, q) = match get_tail_fields(b, p) {
        Some(x) => x,
        None => return None,
    };
    Some((variants, fields, groups, messages, table, q))
}

impl ProtocolDefinition {
    /// Reads a definition from the front of its binary form; gives it with
    /// the number of bytes it took, or nothing when the bytes are not a
    /// definition.
    pub fn from_bytes(b: &[u8]) -> (r: Option<(ProtocolDefinition, usize)>)
        ensures
            match dec_definition(b@) {
                None => r is None,
                Some((m, n)) => r matches Some((d, p)) && d.model() == m && p == n && d.wf(),
            },
    {
        if b.len() < 7 || b[6] > 1 {
            return None;
        }
        let name = b[0] as u16 + 256 * (b[1] as u16);
        let major = b[2] as u16 + 256 * (b[3] as u16);
        let minor = b[4] as u16 + 256 * (b[5] as u16);
        let access = if b[6] == 0 {
            Access::ExclusiveWrite
        } else {
            Access::MultipleWrite
        };
        assert(dec_head(b@) == Some(((StringId { value: name }, Version { major, minor }, access), 7nat)));
        let (variants, fields, groups, messages, table, q) = match get_tail_variants(b, 7) {
            Some(x) => x,
            None => return None,
        };
        let d = ProtocolDefinition::new(
            StringId { value: name },
            Version { major, minor },
            access,
            crate::bounded::BoundedVec::from_vec(variants),
            crate::bounded::BoundedVec::from_vec(fields),
            crate::bounded::BoundedVec::from_vec(groups),
            crate::bounded::BoundedVec::from_vec(messages),
            table,
        );
        Some((d, q))
    }
}

} // verus!
