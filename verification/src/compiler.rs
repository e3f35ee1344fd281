//! Compiling a protocol: the XML is tokenized, the tokens are built into a
//! tree, and each group's enums, structs and messages are resolved into
//! symbols and registered in the type table.
use vstd::prelude::*;

use crate::bounded::BoundedVec;
use crate::constraints::{MAX_FIELDS, MAX_GROUPS, MAX_MESSAGES};
use crate::definition::{Access, DefinitionModel, ProtocolDefinition, spec_access};
use crate::error::{ErrorView, ProtocolError, ProtocolErrorExt, errors_view};
use crate::layout::{fields_wf, layout_end, lemma_layout_end_bound, spec_struct_meta};
use crate::meta::{TypeId, TypeMeta, meta_pack};
use crate::nodes::{EnumNode, FieldNode, FieldTypeNode, GroupNode, MessageNode, Range, StructNode};
use crate::pool::{StringId, StringPool};
use crate::size::Size;
use crate::symbols::{
    ArraySymbol, EnumSymbol, Enums, FieldSymbol, FieldType, Fields, GroupSymbol, MessageSymbol,
    Messages, Remainder, StructSymbol, Structs, Type, Variants,
};
use crate::table::{TableModel, TypeTable, builtin_table, slot_of, table_finish, table_register};
use crate::text::{chars_to_string, spec_trim, to_chars, trim};
use crate::token::tokens_view;
use crate::tokenizer::{spec_tokenize, tokenize};
use crate::tree::{ProtocolTree, TreeModel, protocol_attrs, spec_tree, tree_pool};
use crate::version::{Version, spec_version};

verus! {

/// The state of resolution: the errors so far, the type table, and the
/// resolved fields and messages.
#[verifier::ext_equal]
pub struct ResolveModel {
    pub errors: Seq<ErrorView>,
    pub table: TableModel,
    pub fields: Seq<FieldSymbol>,
    pub messages: Seq<MessageSymbol>,
}

/// The parts of a protocol tree that resolution reads.
pub struct TreeParts {
    pub name: StringId,
    pub version: Seq<char>,
    pub access: Seq<char>,
    pub groups: Seq<GroupNode>,
    pub messages: Seq<MessageNode>,
    pub fields: Seq<FieldNode>,
    pub structs: Seq<StructNode>,
    pub enums: Seq<EnumNode>,
    pub variants: Seq<StringId>,
}

/// Resolving one field: its type must be registered; an array's size must
/// be valid (else the error is kept and the size is 1).
pub open spec fn resolve_one_field(st: ResolveModel, f: FieldNode) -> Option<ResolveModel> {
    let names = st.table.names;
    let resolved = match f.kind {
        FieldTypeNode::Type(name) => if names.contains_key(name@) {
            Some((st.errors, FieldType::Type(names[name@])))
        } else {
            None
        },
        FieldTypeNode::Array(a) => if names.contains_key(a.kind@) {
            match crate::size::spec_size_new(a.size) {
                Ok(v) => Some(
                    (st.errors, FieldType::Array(ArraySymbol { kind: names[a.kind@], len: Size { value: v } })),
                ),
                Err(e) => Some(
                    (
                        st.errors.push(e),
                        FieldType::Array(ArraySymbol { kind: names[a.kind@], len: Size { value: 1 } }),
                    ),
                ),
            }
        } else {
            None
        },
    };
    match resolved {
        None => None,
        Some((errors, kind)) => if st.fields.len() >= MAX_FIELDS {
            None
        } else {
            Some(
                ResolveModel {
                    errors,
                    fields: st.fields.push(FieldSymbol { name: f.name, kind }),
                    ..st
                },
            )
        },
    }
}

/// A field keeps the shape it was declared with: resolving it adds one
/// field symbol with the field's name; a field of a plain type gets that
/// type's identifier; a field of an array type `[T; N]` stays an array of
/// `T`'s identifier, of length `N` when `1 <= N <= 28` (no error is kept
/// then), and otherwise of length 1 with the size error kept.
pub proof fn lemma_resolve_keeps_field_shape(st: ResolveModel, f: FieldNode)
    requires
        resolve_one_field(st, f) is Some,
    ensures
        ({
            let st1 = resolve_one_field(st, f)->0;
            let names = st.table.names;
            &&& st1.fields.len() == st.fields.len() + 1
            &&& st1.fields.drop_last() == st.fields
            &&& st1.fields.last().name == f.name
            &&& match f.kind {
                FieldTypeNode::Type(t) => st1.fields.last().kind == FieldType::Type(names[t@])
                    && st1.errors == st.errors,
                FieldTypeNode::Array(a) => if 1 <= a.size <= 28 {
                    &&& st1.fields.last().kind == FieldType::Array(
                        ArraySymbol { kind: names[a.kind@], len: Size { value: a.size } },
                    )
                    &&& st1.errors == st.errors
                } else {
                    &&& st1.fields.last().kind == FieldType::Array(
                        ArraySymbol { kind: names[a.kind@], len: Size { value: 1 } },
                    )
                    &&& st1.errors.len() == st.errors.len() + 1
                },
            }
        }),
{
    let st1 = resolve_one_field(st, f)->0;
    assert(st1.fields.drop_last() =~= st.fields);
}

/// Whether a field symbol is what a declared field resolves to: it keeps
/// the declaration's name; a plain type becomes that type's identifier;
/// an array `[T; N]` stays an array of `T`'s identifier, of length `N`
/// whenever `1 <= N <= 28`.
pub open spec fn declared_as(names: Map<u16, TypeId>, f: FieldNode, s: FieldSymbol) -> bool {
    &&& s.name == f.name
    &&& match f.kind {
        FieldTypeNode::Type(t) => s.kind == FieldType::Type(names[t@]),
        FieldTypeNode::Array(a) => s.kind is Array && s.kind->Array_0.kind == names[a.kind@] && (1
            <= a.size <= 28 ==> s.kind->Array_0.len == Size { value: a.size }),
    }
}

/// Resolving a run of declared fields adds one field symbol per
/// declaration, in declaration order, each keeping its declaration's name
/// and shape, and leaves the table alone.
pub proof fn lemma_resolve_fields_shapes(st: ResolveModel, from: Seq<FieldNode>)
    requires
        resolve_fields(st, from) is Some,
    ensures
        ({
            let st1 = resolve_fields(st, from)->0;
            &&& st1.table == st.table
            &&& st1.fields.len() == st.fields.len() + from.len()
            &&& st1.fields.take(st.fields.len() as int) == st.fields
            &&& forall|i: int|
                0 <= i < from.len() ==> declared_as(
                    st.table.names,
                    from[i],
                    #[trigger] st1.fields[st.fields.len() + i],
                )
        }),
    decreases from.len(),
{
    if from.len() > 0 {
        let st1 = resolve_one_field(st, from[0])->0;
        lemma_resolve_keeps_field_shape(st, from[0]);
        let rest = from.drop_first();
        lemma_resolve_fields_shapes(st1, rest);
        let st2 = resolve_fields(st1, rest)->0;
        let n = st.fields.len() as int;
        assert(st1.fields == st.fields.push(st1.fields.last()));
        assert(st2.fields.take(n + 1) == st1.fields);
        assert(st2.fields.take(n) =~= st1.fields.take(n));
        assert(st1.fields.take(n) =~= st.fields);
        assert forall|i: int| 0 <= i < from.len() implies declared_as(
            st.table.names,
            from[i],
            #[trigger] st2.fields[n + i],
        ) by {
            if i == 0 {
                assert(st2.fields[n] == st2.fields.take(n + 1)[n]);
            } else {
                assert(rest[i - 1] == from[i]);
                assert(st2.fields[n + 1 + (i - 1)] == st2.fields[n + i]);
            }
        }
    } else {
        assert(st.fields.take(st.fields.len() as int) =~= st.fields);
    }
}

/// Resolving fields in order.
pub open spec fn resolve_fields(st: ResolveModel, from: Seq<FieldNode>) -> Option<ResolveModel>
    decreases from.len(),
{
    if from.len() == 0 {
        Some(st)
    } else {
        match resolve_one_field(st, from[0]) {
            None => None,
            Some(st1) => resolve_fields(st1, from.drop_first()),
        }
    }
}

/// The descriptor of an enum with `len` variants.
pub open spec fn enum_meta(len: u16) -> TypeMeta {
    TypeMeta {
        value: if len <= 255 {
            meta_pack(1, 0)
        } else {
            meta_pack(2, 1)
        },
    }
}

/// Registering a group's enums in order.
pub open spec fn resolve_enums(st: ResolveModel, group: u8, enums: Seq<EnumNode>) -> Option<
    ResolveModel,
>
    decreases enums.len(),
{
    if enums.len() == 0 {
        Some(st)
    } else {
        let e = enums[0];
        let variants = Variants { start: e.variants.start as u16, len: e.variants.len as u16 };
        let sym = EnumSymbol { name: e.name, variants };
        match table_register(st.table, group, enum_meta(variants.len), Type::Enum(sym)) {
            None => None,
            Some(t) => resolve_enums(ResolveModel { table: t, ..st }, group, enums.drop_first()),
        }
    }
}

/// The descriptor of the last `len` resolved fields, as a struct.
pub open spec fn last_fields_meta(st: ResolveModel, len: int) -> Result<u8, ErrorView> {
    spec_struct_meta(st.fields.subrange(st.fields.len() - len, st.fields.len() as int))
}

/// Whether some field's type is not registered.
pub open spec fn has_unknown_type(t: TableModel, from: Seq<FieldNode>) -> bool {
    exists|i: int| 0 <= i < from.len() && !t.names.contains_key(from[i].kind.spec_kind_name()@)
}

/// The fields of a run, when the run lies within the list.
pub open spec fn fields_of(f_from: Seq<FieldNode>, r: Range) -> Option<Seq<FieldNode>> {
    if r.start + r.len > f_from.len() {
        None
    } else {
        Some(f_from.subrange(r.start as int, r.start + r.len))
    }
}

/// Resolving a struct whose field types are all registered: its fields,
/// its descriptor (an invalid layout is kept as an error, with the
/// default descriptor), its registration.
pub open spec fn resolve_struct(st: ResolveModel, group: u8, s: StructNode, from: Seq<FieldNode>) -> Option<
    ResolveModel,
> {
    match resolve_fields(st, from) {
        None => None,
        Some(st1) => {
            let (errors, meta) = match last_fields_meta(st1, s.fields.len as int) {
                Ok(v) => (st1.errors, TypeMeta { value: v }),
                Err(e) => (st1.errors.push(e), TypeMeta { value: meta_pack(1, 0) }),
            };
            let sym = StructSymbol {
                name: s.name,
                fields: Fields { start: s.fields.start as u32, len: s.fields.len as u8 },
            };
            match table_register(st1.table, group, meta, Type::Struct(sym)) {
                None => None,
                Some(t) => Some(ResolveModel { errors, table: t, ..st1 }),
            }
        },
    }
}

/// One pass over a group's structs: a struct with an unregistered field
/// type is passed over while nothing has been resolved yet (`fresh`) and
/// is fatal after; a struct whose name is registered is passed over; any
/// other struct is resolved. Gives the state, whether nothing has been
/// resolved yet, and how many structs the pass resolved.
pub open spec fn struct_pass(
    st: ResolveModel,
    group: u8,
    structs: Seq<StructNode>,
    f_from: Seq<FieldNode>,
    fresh: bool,
) -> Option<(ResolveModel, bool, nat)>
    decreases structs.len(),
{
    if structs.len() == 0 {
        Some((st, fresh, 0))
    } else {
        let s = structs[0];
        match fields_of(f_from, s.fields) {
            None => None,
            Some(from) => if has_unknown_type(st.table, from) {
                if !fresh {
                    None
                } else {
                    struct_pass(st, group, structs.drop_first(), f_from, fresh)
                }
            } else if st.table.names.contains_key(s.name@) {
                struct_pass(st, group, structs.drop_first(), f_from, fresh)
            } else {
                match resolve_struct(st, group, s, from) {
                    None => None,
                    Some(st1) => match struct_pass(st1, group, structs.drop_first(), f_from, false) {
                        None => None,
                        Some((st2, f2, n)) => Some((st2, f2, n + 1)),
                    },
                }
            },
        }
    }
}

/// Resolving a group's structs: passes are made until every struct is
/// resolved. A first pass that resolves nothing would repeat forever, and
/// a second pass that leaves a struct unresolved leaves it so for ever.
pub open spec fn resolve_structs(
    st: ResolveModel,
    group: u8,
    structs: Seq<StructNode>,
    f_from: Seq<FieldNode>,
) -> Option<ResolveModel> {
    if structs.len() == 0 {
        Some(st)
    } else {
        match struct_pass(st, group, structs, f_from, true) {
            None => None,
            Some((st1, fresh1, n1)) => if n1 == structs.len() {
                Some(st1)
            } else if n1 == 0 {
                None
            } else {
                match struct_pass(st1, group, structs, f_from, fresh1) {
                    None => None,
                    Some((st2, _, n2)) => if n1 + n2 == structs.len() {
                        Some(st2)
                    } else {
                        None
                    },
                }
            },
        }
    }
}

/// Resolving a group's messages in order: their fields, a check of their
/// layout (an invalid one is kept as an error), their symbol.
pub open spec fn resolve_messages(
    st: ResolveModel,
    messages: Seq<MessageNode>,
    f_from: Seq<FieldNode>,
) -> Option<ResolveModel>
    decreases messages.len(),
{
    if messages.len() == 0 {
        Some(st)
    } else {
        let m = messages[0];
        match fields_of(f_from, m.fields) {
            None => None,
            Some(from) => match resolve_fields(st, from) {
                None => None,
                Some(st1) => {
                    let errors = match last_fields_meta(st1, m.fields.len as int) {
                        Ok(_) => st1.errors,
                        Err(e) => st1.errors.push(e),
                    };
                    let sym = MessageSymbol {
                        name: m.name,
                        fields: Fields { start: m.fields.start as u32, len: m.fields.len as u8 },
                        remainder: Remainder { name: m.remainder },
                    };
                    if st1.messages.len() >= MAX_MESSAGES {
                        None
                    } else {
                        resolve_messages(
                            ResolveModel { errors, messages: st1.messages.push(sym), ..st1 },
                            messages.drop_first(),
                            f_from,
                        )
                    }
                },
            },
        }
    }
}

/// Resolving fields adds fields only: the messages and the table stay.
proof fn lemma_resolve_fields_keeps_messages(st: ResolveModel, from: Seq<FieldNode>)
    ensures
        resolve_fields(st, from) matches Some(st1) ==> st1.messages == st.messages && st1.table == st.table,
    decreases from.len(),
{
    if from.len() > 0 {
        if let Some(st1) = resolve_one_field(st, from[0]) {
            lemma_resolve_fields_keeps_messages(st1, from.drop_first());
        }
    }
}

/// Resolving a group's messages adds one message symbol per message node,
/// in order, each with the node's name, its remainder (a declared
/// remainder is kept, none stays none) and its run of fields (start and
/// length in the symbol's 32-bit and 8-bit widths).
pub proof fn lemma_resolve_messages_keep_nodes(
    st: ResolveModel,
    messages: Seq<MessageNode>,
    f_from: Seq<FieldNode>,
)
    requires
        resolve_messages(st, messages, f_from) is Some,
    ensures
        ({
            let st1 = resolve_messages(st, messages, f_from)->0;
            &&& st1.messages.len() == st.messages.len() + messages.len()
            &&& st1.messages.take(st.messages.len() as int) == st.messages
            &&& forall|i: int|
                0 <= i < messages.len() ==> {
                    let sym = #[trigger] st1.messages[st.messages.len() + i];
                    &&& sym.name == messages[i].name
                    &&& sym.remainder.name == messages[i].remainder
                    &&& sym.fields.start == messages[i].fields.start as u32
                    &&& sym.fields.len == messages[i].fields.len as u8
                }
        }),
    decreases messages.len(),
{
    if messages.len() > 0 {
        let m = messages[0];
        let from = fields_of(f_from, m.fields)->0;
        lemma_resolve_fields_keeps_messages(st, from);
        let st1 = resolve_fields(st, from)->0;
        let errors = match last_fields_meta(st1, m.fields.len as int) {
            Ok(_) => st1.errors,
            Err(e) => st1.errors.push(e),
        };
        let sym = MessageSymbol {
            name: m.name,
            fields: Fields { start: m.fields.start as u32, len: m.fields.len as u8 },
            remainder: Remainder { name: m.remainder },
        };
        let st2 = ResolveModel { errors, messages: st1.messages.push(sym), ..st1 };
        let rest = messages.drop_first();
        lemma_resolve_messages_keep_nodes(st2, rest, f_from);
        let st3 = resolve_messages(st2, rest, f_from)->0;
        let n = st.messages.len() as int;
        assert(st3.messages.take(n + 1) == st2.messages);
        assert(st3.messages.take(n) =~= st2.messages.take(n));
        assert(st2.messages.take(n) =~= st.messages);
        assert(st3.messages[n] == st3.messages.take(n + 1)[n]);
        assert forall|i: int| 0 <= i < messages.len() implies {
            let sym = #[trigger] st3.messages[n + i];
            &&& sym.name == messages[i].name
            &&& sym.remainder.name == messages[i].remainder
            &&& sym.fields.start == messages[i].fields.start as u32
            &&& sym.fields.len == messages[i].fields.len as u8
        } by {
            if i > 0 {
                assert(rest[i - 1] == messages[i]);
                assert(st3.messages[n + 1 + (i - 1)] == st3.messages[n + i]);
            }
        }
    } else {
        assert(st.messages.take(st.messages.len() as int) =~= st.messages);
    }
}

/// The run of a list, when it lies within the list.
pub open spec fn run_in<T>(s: Seq<T>, r: Range) -> Option<Seq<T>> {
    if r.start + r.len > s.len() {
        None
    } else {
        Some(s.subrange(r.start as int, r.start + r.len))
    }
}

/// The symbol of a group node (runs are narrowed to the symbol's widths).
pub open spec fn group_symbol(g: GroupNode) -> GroupSymbol {
    GroupSymbol {
        name: g.name,
        messages: Messages { start: g.messages.start as u8, len: g.messages.len as u8 },
        structs: Structs { start: g.structs.start as u32, len: g.structs.len as u8 },
        enums: Enums { start: g.enums.start as u32, len: g.enums.len as u8 },
    }
}

/// Resolving one group, the `idx`-th (its identifier is `idx + 1`): its
/// enums, then its structs, then its messages.
pub open spec fn resolve_group(st: ResolveModel, idx: int, g: GroupNode, tree: TreeParts) -> Option<
    ResolveModel,
> {
    let gid = (idx + 1) as u8;
    match run_in(tree.enums, g.enums) {
        None => None,
        Some(enums) => match resolve_enums(st, gid, enums) {
            None => None,
            Some(st1) => match run_in(tree.structs, g.structs) {
                None => None,
                Some(structs) => match resolve_structs(st1, gid, structs, tree.fields) {
                    None => None,
                    Some(st2) => match run_in(tree.messages, g.messages) {
                        None => None,
                        Some(msgs) => resolve_messages(st2, msgs, tree.fields),
                    },
                },
            },
        },
    }
}

/// Resolving the groups from the `idx`-th on.
pub open spec fn resolve_groups(st: ResolveModel, idx: int, tree: TreeParts) -> Option<ResolveModel>
    decreases tree.groups.len() - idx,
{
    if idx >= tree.groups.len() || idx < 0 {
        Some(st)
    } else if idx >= MAX_GROUPS {
        None
    } else {
        match resolve_group(st, idx, tree.groups[idx], tree) {
            None => None,
            Some(st1) => resolve_groups(st1, idx + 1, tree),
        }
    }
}

/// The version of a tree, or the default with the error kept.
pub open spec fn version_of(s: Seq<char>) -> (Version, Seq<ErrorView>) {
    match spec_version(s) {
        Ok((a, b)) => (Version { major: a, minor: b }, Seq::empty()),
        Err(e) => (Version { major: 0, minor: 0 }, seq![e]),
    }
}

/// The access mode of a tree, or the default with the error kept.
pub open spec fn access_of(s: Seq<char>) -> (Access, Seq<ErrorView>) {
    match spec_access(s) {
        Ok(a) => (a, Seq::empty()),
        Err(e) => (Access::ExclusiveWrite, seq![e]),
    }
}

/// The definition of a tree: every error found while resolving it, in
/// order, or the definition when there is none. Nothing when the
/// resolution cannot finish (an unknown type, a name declared twice, a
/// full list or table, or a type left outside every group).
pub open spec fn spec_resolve(tree: TreeParts) -> Option<Result<DefinitionModel, Seq<ErrorView>>> {
    let (version, e1) = version_of(tree.version);
    let (access, e2) = access_of(tree.access);
    match resolve_groups(initial_state(tree), 0, tree) {
        None => None,
        Some(st) => if st.errors.len() == 0 {
            match table_finish(st.table) {
                None => None,
                Some(fin) => Some(
                    Ok(
                        DefinitionModel {
                            name: tree.name,
                            version,
                            access,
                            variants: tree.variants,
                            fields: st.fields,
                            groups: tree.groups.map_values(|g: GroupNode| group_symbol(g)),
                            messages: st.messages,
                            table: fin,
                        },
                    ),
                ),
            }
        } else {
            Some(Err(st.errors))
        },
    }
}

/// The state before the first group: the version and access errors, and
/// a table with the builtins.
pub open spec fn initial_state(tree: TreeParts) -> ResolveModel {
    ResolveModel {
        errors: version_of(tree.version).1 + access_of(tree.access).1,
        table: builtin_table(tree.groups.len() as u8, (tree.enums.len() + tree.structs.len()) as u16),
        fields: Seq::empty(),
        messages: Seq::empty(),
    }
}

/// The parts of a final tree state.
pub open spec fn tree_parts(m: TreeModel, name: u16, attrs: (Seq<char>, Seq<char>)) -> TreeParts {
    TreeParts {
        name: StringId { value: name },
        version: attrs.0,
        access: attrs.1,
        groups: m.groups,
        messages: m.messages,
        fields: m.fields,
        structs: m.structs,
        enums: m.enums,
        variants: m.variants,
    }
}

/// The pool after compiling a text: unchanged when tokenizing fails, else
/// the pool that building the tree leaves, up to the first token refused.
pub open spec fn spec_compile_pool(content: Seq<char>, pool: Seq<Seq<char>>) -> Seq<Seq<char>> {
    match spec_tokenize(spec_trim(content)) {
        Err(_) => pool,
        Ok(tokens) => tree_pool(tokens, pool),
    }
}

/// Compiling a text: the errors of tokenizing or of building the tree come
/// alone; then resolution. Nothing when resolution cannot finish.
pub open spec fn spec_compile(content: Seq<char>, pool: Seq<Seq<char>>) -> Option<
    Result<DefinitionModel, Seq<ErrorView>>,
> {
    match spec_tokenize(spec_trim(content)) {
        Err(e) => Some(Err(seq![e])),
        Ok(tokens) => match spec_tree(tokens, pool) {
            Err(e) => Some(Err(seq![e])),
            Ok((m, id)) => spec_resolve(tree_parts(m, id, protocol_attrs(tokens[0]))),
        },
    }
}

} // verus!

verus! {

/// Every registered type has a group and a valid descriptor.
pub open spec fn names_wf(t: TableModel) -> bool {
    forall|n: u16| #[trigger] t.names.contains_key(n) ==> t.names[n].wf()
}

/// A table slot that is empty or holds a type other than an array.
pub open spec fn slot_ok(o: Option<Type>) -> bool {
    match o {
        Some(Type::Array(_)) => false,
        _ => true,
    }
}

/// The slots of a table: no more than the builtins and a `u16` count of
/// protocol types, and never an array.
pub open spec fn slots_wf(t: TableModel) -> bool {
    &&& t.types.len() <= 65547
    &&& forall|i: int| 0 <= i < t.types.len() ==> slot_ok(#[trigger] t.types[i])
}

/// Every array field has a length.
pub open spec fn arrays_sized(fields: Seq<FieldSymbol>) -> bool {
    forall|i: int|
        0 <= i < fields.len() ==> match (#[trigger] fields[i]).kind {
            FieldType::Array(a) => a.len.value != 0,
            _ => true,
        }
}

/// A pass result with `k` more structs counted as resolved.
pub open spec fn pass_shift(r: Option<(ResolveModel, bool, nat)>, k: nat) -> Option<(ResolveModel, bool, nat)> {
    match r {
        None => None,
        Some((st, f, n)) => Some((st, f, n + k)),
    }
}

/// The state of resolution.
struct Resolver {
    errors: Vec<ProtocolError>,
    tt: TypeTable,
    fields: BoundedVec<FieldSymbol, MAX_FIELDS>,
    messages: BoundedVec<MessageSymbol, MAX_MESSAGES>,
}

impl Resolver {
    spec fn model(&self) -> ResolveModel {
        ResolveModel {
            errors: errors_view(self.errors@),
            table: self.tt.model(),
            fields: self.fields@,
            messages: self.messages@,
        }
    }

    spec fn inv(&self) -> bool {
        &&& self.tt.wf()
        &&& names_wf(self.tt.model())
        &&& slots_wf(self.tt.model())
        &&& fields_wf(self.fields@)
        &&& arrays_sized(self.fields@)
        &&& self.fields.wf()
        &&& self.messages.wf()
    }

    fn resolve_one(&mut self, f: FieldNode) -> (r: bool)
        requires
            old(self).inv(),
        ensures
            r == resolve_one_field(old(self).model(), f) is Some,
            r ==> final(self).model() =~= resolve_one_field(old(self).model(), f)->0,
            r ==> final(self).inv(),
            r ==> final(self).fields@.len() == old(self).fields@.len() + 1,
    {
        let kind = match f.kind() {
            FieldTypeNode::Type(name) => match self.tt.get_type_by_name(name) {
                Some(id) => FieldType::Type(id),
                None => return false,
            },
            FieldTypeNode::Array(array) => {
                let kind = match self.tt.get_type_by_name(array.kind()) {
                    Some(id) => id,
                    None => return false,
                };
                let size = Size::new(array.size());
                let ghost errors0 = self.errors@;
                let ghost size_g = size;
                let len = size.or_save_to(&mut self.errors);
                proof {
                    if let Err(e) = size_g {
                        crate::error::lemma_errors_push(errors0, e);
                    }
                }
                FieldType::Array(ArraySymbol::new(kind, len))
            },
        };
        let sym = FieldSymbol::new(f.name(), kind);
        let ghost fields0 = self.fields@;
        if !self.fields.push(sym) {
            return false;
        }
        proof {
            assert(self.fields@ == fields0.push(sym));
            assert(fields_wf(self.fields@)) by {
                assert forall|i: int| 0 <= i < self.fields@.len() implies (#[trigger] self.fields@[i]).spec_type_id().wf() by {
                    if i < fields0.len() {
                        assert(self.fields@[i] == fields0[i]);
                    }
                }
            }
            assert(arrays_sized(self.fields@)) by {
                assert forall|i: int| 0 <= i < self.fields@.len() implies match (#[trigger] self.fields@[i]).kind {
                    FieldType::Array(a) => a.len.value != 0,
                    _ => true,
                } by {
                    if i < fields0.len() {
                        assert(self.fields@[i] == fields0[i]);
                    }
                }
            }
        }
        true
    }

    fn resolve_field(&mut self, from: &[FieldNode]) -> (r: bool)
        requires
            old(self).inv(),
        ensures
            r == resolve_fields(old(self).model(), from@) is Some,
            r ==> final(self).model() =~= resolve_fields(old(self).model(), from@)->0,
            r ==> final(self).inv(),
            r ==> final(self).fields@.len() == old(self).fields@.len() + from@.len(),
    {
        let ghost m0 = self.model();
        let ghost len0 = self.fields@.len();
        let mut i: usize = 0;
        assert(from@.skip(0) =~= from@);
        while i < from.len()
            invariant
                0 <= i <= from@.len(),
                self.inv(),
                m0 == old(self).model(),
                len0 == old(self).fields@.len(),
                resolve_fields(m0, from@) == resolve_fields(self.model(), from@.skip(i as int)),
                self.fields@.len() == len0 + i,
            decreases from.len() - i,
        {
            assert(from@.skip(i as int)[0] == from@[i as int]);
            assert(from@.skip(i as int).drop_first() =~= from@.skip(i + 1));
            if !self.resolve_one(from[i]) {
                return false;
            }
            i = i + 1;
        }
        assert(from@.skip(i as int) =~= Seq::<FieldNode>::empty());
        true
    }
}

} // verus!

verus! {

/// Registering a type with a group and a valid descriptor keeps every
/// registered type valid.
proof fn lemma_register_names_wf(t: TableModel, group: u8, meta: TypeMeta, sym: Type)
    requires
        names_wf(t),
        group >= 1,
        meta.wf(),
        table_register(t, group, meta, sym) is Some,
    ensures
        names_wf(table_register(t, group, meta, sym)->0),
        slots_wf(t) ==> slots_wf(table_register(t, group, meta, sym)->0),
{
    let t1 = table_register(t, group, meta, sym)->0;
    if slots_wf(t) {
        let index = t.counts[group as int];
        let flat = slot_of(t.counts, group, index);
        crate::table::lemma_counts_sum_bound(t.counts.take(group as int));
        assert(!(sym is Array));
        assert(t1.types == t.types.update(flat, Some(sym)));
        assert forall|i: int| 0 <= i < t1.types.len() implies slot_ok(#[trigger] t1.types[i]) by {
            if i != flat {
                assert(t1.types[i] == t.types[i]);
            }
        }
    }
    assert forall|n: u16| #[trigger] t1.names.contains_key(n) implies t1.names[n].wf() by {
        if n != sym.spec_name() {
            assert(t.names.contains_key(n));
        }
    }
}

impl Resolver {
    fn resolve_enums(&mut self, group: u8, from: &[EnumNode]) -> (r: bool)
        requires
            old(self).inv(),
            group >= 1,
        ensures
            r == resolve_enums(old(self).model(), group, from@) is Some,
            r ==> final(self).model() =~= resolve_enums(old(self).model(), group, from@)->0,
            r ==> final(self).inv(),
    {
        let ghost m0 = self.model();
        let mut i: usize = 0;
        assert(from@.skip(0) =~= from@);
        while i < from.len()
            invariant
                0 <= i <= from@.len(),
                group >= 1,
                self.inv(),
                m0 == old(self).model(),
                resolve_enums(m0, group, from@) == resolve_enums(self.model(), group, from@.skip(i as int)),
            decreases from.len() - i,
        {
            assert(from@.skip(i as int)[0] == from@[i as int]);
            assert(from@.skip(i as int).drop_first() =~= from@.skip(i + 1));
            let e = from[i];
            let range = e.variants();
            let variants = Variants::new(range.start() as u16, range.len() as u16);
            let sym = EnumSymbol::new(e.name(), variants);
            let meta = match sym.meta() {
                Ok(meta) => meta,
                Err(_) => TypeMeta::default(),
            };
            assert(meta == enum_meta(variants.len));
            let ty = Type::Enum(sym);
            if !self.tt.can_register(group, &ty) {
                return false;
            }
            proof {
                lemma_register_names_wf(self.tt.model(), group, meta, ty);
            }
            self.tt.register_type(group, meta, ty);
            i = i + 1;
        }
        assert(from@.skip(i as int) =~= Seq::<EnumNode>::empty());
        true
    }

    /// Whether some field's type is not registered.
    fn has_unknown_type(&self, from: &[FieldNode]) -> (r: bool)
        ensures
            r == has_unknown_type(self.model().table, from@),
    {
        let mut i: usize = 0;
        while i < from.len()
            invariant
                0 <= i <= from@.len(),
                forall|k: int|
                    0 <= k < i ==> self.model().table.names.contains_key(
                        (#[trigger] from@[k]).kind.spec_kind_name()@,
                    ),
            decreases from.len() - i,
        {
            if !self.tt.contains_name(from[i].kind().kind_name()) {
                return true;
            }
            i = i + 1;
        }
        false
    }

    /// The descriptor of the last `len` resolved fields.
    fn last_fields_meta(&self, len: usize) -> (r: Result<TypeMeta, ProtocolError>)
        requires
            self.inv(),
            len <= self.fields@.len(),
        ensures
            crate::error::rview(r) == last_fields_meta(self.model(), len as int),
            r matches Ok(m) ==> m.wf(),
    {
        let total = self.fields.len_usize();
        let slice = vstd::slice::slice_subrange(self.fields.as_slice(), total - len, total);
        proof {
            assert(fields_wf(slice@)) by {
                assert forall|i: int| 0 <= i < slice@.len() implies (#[trigger] slice@[i]).spec_type_id().wf() by {
                    assert(slice@[i] == self.fields@[total - len + i]);
                }
            }
            lemma_layout_end_bound(slice@);
        }
        ProtocolDefinition::get_struct_meta(slice)
    }

    fn resolve_struct(&mut self, group: u8, s: StructNode, from: &[FieldNode]) -> (r: bool)
        requires
            old(self).inv(),
            group >= 1,
            from@.len() == s.fields.len,
        ensures
            r == resolve_struct(old(self).model(), group, s, from@) is Some,
            r ==> final(self).model() =~= resolve_struct(old(self).model(), group, s, from@)->0,
            r ==> final(self).inv(),
    {
        if !self.resolve_field(from) {
            return false;
        }
        let range = s.fields();
        let meta_r = self.last_fields_meta(range.len());
        let ghost meta_g = meta_r;
        let ghost errors0 = self.errors@;
        let meta = meta_r.or_save_to(&mut self.errors);
        proof {
            if let Err(e) = meta_g {
                crate::error::lemma_errors_push(errors0, e);
            }
        }
        let sym = StructSymbol::new(s.name(), Fields::new(range.start() as u32, range.len() as u8));
        let ty = Type::Struct(sym);
        if !self.tt.can_register(group, &ty) {
            return false;
        }
        proof {
            lemma_register_names_wf(self.tt.model(), group, meta, ty);
        }
        self.tt.register_type(group, meta, ty);
        true
    }

    /// One pass over a group's structs.
    fn struct_pass(&mut self, group: u8, structs: &[StructNode], f_from: &[FieldNode], fresh: bool) -> (r: (bool, bool, usize))
        requires
            old(self).inv(),
            group >= 1,
        ensures
            r.0 == struct_pass(old(self).model(), group, structs@, f_from@, fresh) is Some,
            r.0 ==> struct_pass(old(self).model(), group, structs@, f_from@, fresh) == Some(
                (final(self).model(), r.1, r.2 as nat),
            ),
            r.0 ==> final(self).inv(),
            r.0 ==> r.2 <= structs@.len(),
    {
        let ghost m0 = self.model();
        let ghost fresh0 = fresh;
        let mut cur_fresh = fresh;
        let mut count: usize = 0;
        let mut i: usize = 0;
        assert(structs@.skip(0) =~= structs@);
        while i < structs.len()
            invariant
                0 <= i <= structs@.len(),
                count <= i,
                group >= 1,
                self.inv(),
                m0 == old(self).model(),
                fresh0 == fresh,
                struct_pass(m0, group, structs@, f_from@, fresh0) == pass_shift(
                    struct_pass(self.model(), group, structs@.skip(i as int), f_from@, cur_fresh),
                    count as nat,
                ),
            decreases structs.len() - i,
        {
            let ghost cur = self.model();
            assert(structs@.skip(i as int)[0] == structs@[i as int]);
            assert(structs@.skip(i as int).drop_first() =~= structs@.skip(i + 1));
            let s = structs[i];
            let range = s.fields();
            let n = f_from.len();
            if range.start() > n || range.len() > n - range.start() {
                return (false, cur_fresh, count);
            }
            let from = vstd::slice::slice_subrange(f_from, range.start(), range.start() + range.len());
            if self.has_unknown_type(from) {
                if !cur_fresh {
                    return (false, cur_fresh, count);
                }
            } else if self.tt.contains_name(s.name()) {
            } else {
                if !self.resolve_struct(group, s, from) {
                    return (false, cur_fresh, count);
                }
                count = count + 1;
                cur_fresh = false;
            }
            i = i + 1;
        }
        assert(structs@.skip(i as int) =~= Seq::<StructNode>::empty());
        (true, cur_fresh, count)
    }

    fn resolve_structs(&mut self, group: u8, structs: &[StructNode], f_from: &[FieldNode]) -> (r: bool)
        requires
            old(self).inv(),
            group >= 1,
        ensures
            r == resolve_structs(old(self).model(), group, structs@, f_from@) is Some,
            r ==> final(self).model() =~= resolve_structs(old(self).model(), group, structs@, f_from@)->0,
            r ==> final(self).inv(),
    {
        let n = structs.len();
        if n == 0 {
            return true;
        }
        let (ok1, fresh1, n1) = self.struct_pass(group, structs, f_from, true);
        if !ok1 {
            return false;
        }
        if n1 == n {
            return true;
        }
        if n1 == 0 {
            return false;
        }
        let (ok2, _, n2) = self.struct_pass(group, structs, f_from, fresh1);
        if !ok2 {
            return false;
        }
        n2 == n - n1
    }

    fn resolve_messages(&mut self, m_from: &[MessageNode], f_from: &[FieldNode]) -> (r: bool)
        requires
            old(self).inv(),
        ensures
            r == resolve_messages(old(self).model(), m_from@, f_from@) is Some,
            r ==> final(self).model() =~= resolve_messages(old(self).model(), m_from@, f_from@)->0,
            r ==> final(self).inv(),
    {
        let ghost m0 = self.model();
        let mut i: usize = 0;
        assert(m_from@.skip(0) =~= m_from@);
        while i < m_from.len()
            invariant
                0 <= i <= m_from@.len(),
                self.inv(),
                m0 == old(self).model(),
                resolve_messages(m0, m_from@, f_from@) == resolve_messages(
                    self.model(),
                    m_from@.skip(i as int),
                    f_from@,
                ),
            decreases m_from.len() - i,
        {
            assert(m_from@.skip(i as int)[0] == m_from@[i as int]);
            assert(m_from@.skip(i as int).drop_first() =~= m_from@.skip(i + 1));
            let m = m_from[i];
            let range = m.fields();
            let n = f_from.len();
            if range.start() > n || range.len() > n - range.start() {
                return false;
            }
            let from = vstd::slice::slice_subrange(f_from, range.start(), range.start() + range.len());
            if !self.resolve_field(from) {
                return false;
            }
            let fields = Fields::new(range.start() as u32, range.len() as u8);
            let meta_r = self.last_fields_meta(range.len());
            let ghost meta_g = meta_r;
            let ghost errors0 = self.errors@;
            let _ = meta_r.or_save_to(&mut self.errors);
            proof {
                if let Err(e) = meta_g {
                    crate::error::lemma_errors_push(errors0, e);
                }
            }
            let sym = MessageSymbol::new(m.name(), fields, Remainder::new(m.remainder()));
            if !self.messages.push(sym) {
                return false;
            }
            i = i + 1;
        }
        assert(m_from@.skip(i as int) =~= Seq::<MessageNode>::empty());
        true
    }
}

} // verus!

verus! {

impl ProtocolTree {
    /// The parts of the tree that resolution reads.
    pub open spec fn parts(&self) -> TreeParts {
        TreeParts {
            name: self.name,
            version: self.version@,
            access: self.access@,
            groups: self.groups@,
            messages: self.messages@,
            fields: self.fields@,
            structs: self.structs@,
            enums: self.enums@,
            variants: self.variants@,
        }
    }
}

impl Resolver {
    fn resolve_group(&mut self, idx: usize, group: GroupNode, tree: &ProtocolTree) -> (r: bool)
        requires
            old(self).inv(),
            idx < MAX_GROUPS,
        ensures
            r == resolve_group(old(self).model(), idx as int, group, tree.parts()) is Some,
            r ==> final(self).model() =~= resolve_group(old(self).model(), idx as int, group, tree.parts())->0,
            r ==> final(self).inv(),
    {
        let g_id = idx as u8 + 1;
        let enums = match run_of_slice(tree.enums.as_slice(), group.enums()) {
            Some(s) => s,
            None => return false,
        };
        if !self.resolve_enums(g_id, enums) {
            return false;
        }
        let structs = match run_of_slice(tree.structs.as_slice(), group.structs()) {
            Some(s) => s,
            None => return false,
        };
        if !self.resolve_structs(g_id, structs, tree.fields.as_slice()) {
            return false;
        }
        let messages = match run_of_slice(tree.messages.as_slice(), group.messages()) {
            Some(s) => s,
            None => return false,
        };
        self.resolve_messages(messages, tree.fields.as_slice())
    }
}

/// A compilation result seen through models.
pub open spec fn compiled_view(r: Option<Result<ProtocolDefinition, Vec<ProtocolError>>>) -> Option<
    Result<DefinitionModel, Seq<ErrorView>>,
> {
    match r {
        None => None,
        Some(Ok(d)) => Some(Ok(d.model())),
        Some(Err(errors)) => Some(Err(errors_view(errors@))),
    }
}

/// A list holding one error.
fn single_error(e: ProtocolError) -> (v: Vec<ProtocolError>)
    ensures
        errors_view(v@) == seq![e@],
{
    let mut v: Vec<ProtocolError> = Vec::new();
    v.push(e);
    assert(errors_view(v@) =~= seq![e@]);
    v
}

/// The run `r` of a slice, when it lies within the slice.
fn run_of_slice<T>(s: &[T], r: Range) -> (out: Option<&[T]>)
    ensures
        match run_in(s@, r) {
            None => out is None,
            Some(v) => out matches Some(o) && o@ == v,
        },
{
    let n = s.len();
    if r.start() > n || r.len() > n - r.start() {
        return None;
    }
    Some(vstd::slice::slice_subrange(s, r.start(), r.start() + r.len()))
}

/// Compiles a text against a pool; nothing where resolution cannot finish.
fn compile_in(pool: &mut StringPool, content: &str) -> (r: Option<
    Result<ProtocolDefinition, Vec<ProtocolError>>,
>)
    requires
        old(pool).wf(),
    ensures
        final(pool).wf(),
        old(pool)@.is_prefix_of(final(pool)@),
        compiled_view(r) == spec_compile(content@, old(pool)@),
        final(pool)@ == spec_compile_pool(content@, old(pool)@),
        r matches Some(Ok(d)) ==> d.wf() && crate::codec::definition_valid(d.model()),
{
    let chars = to_chars(content);
    let trimmed = chars_to_string(trim(chars.as_slice()).as_slice());
    let tokens = match tokenize(trimmed.as_str()) {
        Ok(tokens) => tokens,
        Err(e) => {
            proof {
                let p = pool@;
                assert(p =~= p.subrange(0, p.len() as int));
            }
            return Some(Err(single_error(e)));
        },
    };
    let ghost tv = tokens_view(tokens@);
    let ghost first = tokens@[0];
    let tree = match ProtocolTree::new(tokens, pool) {
        Ok(tree) => tree,
        Err(e) => return Some(Err(single_error(e))),
    };
    proof {
        assert(tv[0] == first@);
    }
    ProtocolCompiler::run(tree)
}

/// Compiles protocol definitions, interning their names into a pool.
pub struct ProtocolCompiler<'p> {
    pool: &'p mut StringPool,
}

impl<'p> ProtocolCompiler<'p> {
    pub fn new(pool: &'p mut StringPool) -> (r: Self)
        ensures
            r.pool() == *old(pool),
    {
        Self { pool }
    }

    /// The pool that the compiler interns into.
    pub closed spec fn pool(&self) -> StringPool {
        *self.pool
    }

    /// Compiles a protocol definition, or says that resolution would not
    /// finish (see [`spec_resolve`]), in which case the pool is left as it
    /// was. The outcome is first found on a copy of the pool.
    pub fn compile_checked(&mut self, content: &str) -> (r: Option<
        Result<ProtocolDefinition, Vec<ProtocolError>>,
    >)
        requires
            old(self).pool().wf(),
        ensures
            final(self).pool().wf(),
            old(self).pool()@.is_prefix_of(final(self).pool()@),
            compiled_view(r) == spec_compile(content@, old(self).pool()@),
            r is None ==> final(self).pool()@ == old(self).pool()@,
            r matches Some(Ok(d)) ==> d.wf() && crate::codec::definition_valid(d.model()),
            r is Some ==> final(self).pool()@ == spec_compile_pool(content@, old(self).pool()@),
    {
        let mut scratch = self.pool.duplicate();
        match compile_in(&mut scratch, content) {
            None => None,
            Some(_) => Some(self.compile(content)),
        }
    }

    /// Compiles a protocol definition whose resolution can finish.
    pub fn compile(&mut self, content: &str) -> (r: Result<ProtocolDefinition, Vec<ProtocolError>>)
        requires
            old(self).pool().wf(),
            spec_compile(content@, old(self).pool()@) is Some,
        ensures
            final(self).pool().wf(),
            old(self).pool()@.is_prefix_of(final(self).pool()@),
            Some(compiled_view(Some(r))->0) == spec_compile(content@, old(self).pool()@),
            r matches Ok(d) ==> d.wf() && crate::codec::definition_valid(d.model()),
            final(self).pool()@ == spec_compile_pool(content@, old(self).pool()@),
    {
        match compile_in(&mut *self.pool, content) {
            Some(r) => r,
            None => Err(Vec::new()),
        }
    }

    /// Resolves a tree into a definition; nothing where resolution cannot
    /// finish.
    fn run(tree: ProtocolTree) -> (r: Option<Result<ProtocolDefinition, Vec<ProtocolError>>>)
        requires
            tree.wf(),
        ensures
            compiled_view(r) == spec_resolve(tree.parts()),
            r matches Some(Ok(d)) ==> d.wf() && crate::codec::definition_valid(d.model()),
    {
        let ghost parts = tree.parts();
        let mut errors: Vec<ProtocolError> = Vec::new();
        let tt = TypeTable::new(tree.groups.len() as u8, tree.type_count());
        let version_r = Version::parse(tree.version.as_str());
        let ghost version_g = version_r;
        let version = version_r.or_save_to(&mut errors);
        let ghost errors1 = errors@;
        let access_r = Access::new(tree.access.as_str());
        let ghost access_g = access_r;
        let access = access_r.or_save_to(&mut errors);
        proof {
            let (v, e1) = version_of(parts.version);
            let (a, e2) = access_of(parts.access);
            assert(version == v);
            assert(access == a);
            assert(errors_view(errors1) =~= e1);
            if let Err(e) = access_g {
                crate::error::lemma_errors_push(errors1, e);
            }
            assert(errors_view(errors@) =~= e1 + e2);
        }
        let mut resolver = Resolver {
            errors,
            tt,
            fields: BoundedVec::with_capacity(tree.fields.len()),
            messages: BoundedVec::with_capacity(tree.messages.len()),
        };
        let ghost st0 = resolver.model();
        assert(st0 =~= initial_state(parts));
        proof {
            assert(names_wf(resolver.tt.model()));
        }
        let mut groups: BoundedVec<GroupSymbol, MAX_GROUPS> = BoundedVec::with_capacity(
            tree.groups.len(),
        );
        let n = tree.groups.len_usize();
        let mut idx: usize = 0;
        while idx < n
            invariant
                0 <= idx <= n,
                n == parts.groups.len(),
                parts == tree.parts(),
                st0 == initial_state(parts),
                tree.wf(),
                resolver.inv(),
                resolve_groups(st0, 0, parts) == resolve_groups(resolver.model(), idx as int, parts),
                groups@ =~= parts.groups.take(idx as int).map_values(|g: GroupNode| group_symbol(g)),
                groups.wf(),
            decreases n - idx,
        {
            if idx >= MAX_GROUPS {
                return None;
            }
            let group = *tree.groups.get(idx);
            if !resolver.resolve_group(idx, group, &tree) {
                return None;
            }
            let mr = group.messages();
            let sr = group.structs();
            let er = group.enums();
            let sym = GroupSymbol::new(
                group.name(),
                Messages::new(mr.start() as u8, mr.len() as u8),
                Structs::new(sr.start() as u32, sr.len() as u8),
                Enums::new(er.start() as u32, er.len() as u8),
            );
            assert(sym == group_symbol(group));
            let pushed = groups.push(sym);
            assert(pushed);
            idx = idx + 1;
        }
        assert(parts.groups.take(idx as int) =~= parts.groups);
        if resolver.errors.len() == 0 {
            if !resolver.tt.can_finish() {
                return None;
            }
            let ghost tm = resolver.tt.model();
            let table = resolver.tt.finish();
            proof {
                let fm = table.model();
                assert(fm.counts.len() == fm.count + 1);
                assert forall|i: int| 0 <= i < fm.types.len() implies crate::codec::type_valid(
                    #[trigger] fm.types[i],
                ) by {
                    assert(slot_ok(tm.types[i]));
                    assert(tm.types[i] is Some);
                }
                assert forall|i: int| 0 <= i < resolver.fields@.len() implies crate::codec::field_valid(
                    #[trigger] resolver.fields@[i],
                ) by {
                    assert(resolver.fields@[i].spec_type_id().wf());
                }
            }
            Some(
                Ok(
                    ProtocolDefinition::new(
                        tree.name,
                        version,
                        access,
                        tree.variants,
                        resolver.fields,
                        groups,
                        resolver.messages,
                        table,
                    ),
                ),
            )
        } else {
            Some(Err(resolver.errors))
        }
    }
}

} // verus!
