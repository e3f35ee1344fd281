//! Rust bindings for a compiled protocol: one module per group, holding an
//! enum for each enum type, a struct for each struct type, and for each
//! message a 32-byte struct with its header, payload and paddings, an impl
//! of the message trait and a builder.
use vstd::prelude::*;

use crate::codegen::{
    Access, Argument, ArgumentView, DeriveList, Enum, EnumView, Field, FieldView, Function,
    FunctionView, Impl, ImplView, Module, ModuleView, Pass, Struct, StructView, TraitImpl,
    TraitImplView, module_text, texts,
};
use crate::definition::{DefinitionModel, ProtocolDefinition, run_of};
use crate::layout::{compute_layout, field_align, fields_wf, layout_end, padding_for};
use crate::pool::{StringPool, StringPoolResolver, resolved};
use crate::symbols::{EnumSymbol, FieldSymbol, Fields, GroupSymbol, MessageSymbol, StructSymbol, Type};
use crate::table::{table_holds, type_at};
use crate::text::{decimal, decimal_string};

verus! {

/// Which optional derives the generated types get.
#[derive(Debug, Clone, Copy, PartialEq, Eq)]
pub struct Args {
    pub eq: bool,
    pub ord: bool,
    pub hash: bool,
}

impl Default for Args {
    fn default() -> (r: Self)
        ensures
            r == (Args { eq: false, ord: false, hash: false }),
    {
        Args { eq: false, ord: false, hash: false }
    }
}

/// The trait that every generated message implements.
pub open spec fn typed_message_trait() -> Seq<char> {
    "cbus_core::message::TypedMessage"@
}

/// The derives of every generated type: `Debug`, `Copy` and `Clone`, then
/// those that the arguments ask for.
pub open spec fn derive_names(args: Args) -> Seq<Seq<char>> {
    seq!["Debug"@, "Copy"@, "Clone"@] + (if args.eq {
        seq!["PartialEq"@, "Eq"@]
    } else {
        Seq::empty()
    }) + (if args.ord {
        seq!["PartialOrd"@, "Ord"@]
    } else {
        Seq::empty()
    }) + (if args.hash {
        seq!["Hash"@]
    } else {
        Seq::empty()
    })
}

/// Which traits the generated types derive: always `Debug`, `Copy` and
/// `Clone`; `PartialEq` and `Eq` exactly when equality is asked for,
/// `PartialOrd` and `Ord` exactly when ordering is, and `Hash` exactly
/// when hashing is, each independently of the other arguments.
pub proof fn lemma_derive_names(args: Args)
    ensures
        derive_names(args).contains("Debug"@),
        derive_names(args).contains("Copy"@),
        derive_names(args).contains("Clone"@),
        derive_names(args).contains("PartialEq"@) <==> args.eq,
        derive_names(args).contains("Eq"@) <==> args.eq,
        derive_names(args).contains("PartialOrd"@) <==> args.ord,
        derive_names(args).contains("Ord"@) <==> args.ord,
        derive_names(args).contains("Hash"@) <==> args.hash,
        derive_names(args).len() == 3 + (if args.eq { 2int } else { 0 }) + (if args.ord { 2int } else { 0 }) + (
        if args.hash { 1int } else { 0 }),
{
    reveal_strlit("Debug");
    reveal_strlit("Copy");
    reveal_strlit("Clone");
    reveal_strlit("PartialEq");
    reveal_strlit("Eq");
    reveal_strlit("PartialOrd");
    reveal_strlit("Ord");
    reveal_strlit("Hash");
    let d = derive_names(args);
    let all: Seq<Seq<char>> = seq![
        "Debug"@,
        "Copy"@,
        "Clone"@,
        "PartialEq"@,
        "Eq"@,
        "PartialOrd"@,
        "Ord"@,
        "Hash"@,
    ];
    assert(forall|i: int, j: int| 0 <= i < j < 8 ==> all[i] != all[j]) by {
        assert forall|i: int, j: int| 0 <= i < j < 8 implies all[i] != all[j] by {
            if all[i].len() == all[j].len() {
                assert(all[i][0] != all[j][0]);
            }
        }
    }
    assert(d[0] == all[0] && d[1] == all[1] && d[2] == all[2]);
    let e = if args.eq { seq![all[3], all[4]] } else { Seq::<Seq<char>>::empty() };
    let o = if args.ord { seq![all[5], all[6]] } else { Seq::<Seq<char>>::empty() };
    let h = if args.hash { seq![all[7]] } else { Seq::<Seq<char>>::empty() };
    assert(d =~= seq![all[0], all[1], all[2]] + e + o + h);
    let ne = e.len() as int;
    let no = o.len() as int;
    // Every entry of the list is a name that the arguments ask for.
    assert forall|i: int| 0 <= i < d.len() implies {
        ||| #[trigger] d[i] == all[0] || d[i] == all[1] || d[i] == all[2]
        ||| args.eq && (d[i] == all[3] || d[i] == all[4])
        ||| args.ord && (d[i] == all[5] || d[i] == all[6])
        ||| args.hash && d[i] == all[7]
    } by {
        if i < 3 {
        } else if i < 3 + ne {
            assert(d[i] == e[i - 3]);
        } else if i < 3 + ne + no {
            assert(d[i] == o[i - 3 - ne]);
        } else {
            assert(d[i] == h[i - 3 - ne - no]);
        }
    }
    assert(args.eq ==> d[3] == all[3] && d[4] == all[4]);
    assert(args.ord ==> d[3 + ne] == all[5] && d[4 + ne] == all[6]);
    assert(args.hash ==> d[3 + ne + no] == all[7]);
    assert(all[3] != all[0] && all[3] != all[1] && all[3] != all[2] && all[3] != all[4] && all[3]
        != all[5] && all[3] != all[6] && all[3] != all[7]);
    assert(all[4] != all[0] && all[4] != all[1] && all[4] != all[2] && all[4] != all[5] && all[4]
        != all[6] && all[4] != all[7]);
    assert(all[5] != all[0] && all[5] != all[1] && all[5] != all[2] && all[5] != all[6] && all[5]
        != all[7]);
    assert(all[6] != all[0] && all[6] != all[1] && all[6] != all[2] && all[6] != all[7]);
    assert(all[7] != all[0] && all[7] != all[1] && all[7] != all[2]);
}

/// Adds the derives that the arguments ask for.
pub fn extend_derive(list: &mut DeriveList, args: Args)
    ensures
        final(list)@ == old(list)@ + derive_names(args),
{
    let ghost start = list@;
    list.push("Debug");
    list.push("Copy");
    list.push("Clone");
    assert(list@ =~= start + seq!["Debug"@, "Copy"@, "Clone"@]);
    let ghost a = list@;
    if args.eq {
        list.push("PartialEq");
        list.push("Eq");
    }
    assert(list@ =~= a + (if args.eq {
        seq!["PartialEq"@, "Eq"@]
    } else {
        Seq::empty()
    }));
    let ghost b = list@;
    if args.ord {
        list.push("PartialOrd");
        list.push("Ord");
    }
    assert(list@ =~= b + (if args.ord {
        seq!["PartialOrd"@, "Ord"@]
    } else {
        Seq::empty()
    }));
    let ghost c = list@;
    if args.hash {
        list.push("Hash");
    }
    assert(list@ =~= c + (if args.hash {
        seq!["Hash"@]
    } else {
        Seq::empty()
    }));
    assert(list@ =~= start + derive_names(args));
}

/// The type that a field refers to (its element type for an array).
pub open spec fn field_type(d: DefinitionModel, f: FieldSymbol) -> Type {
    type_at(d.table, f.spec_type_id())
}

/// A field whose type is in the table and has a name.
pub open spec fn field_type_named(d: DefinitionModel, f: FieldSymbol) -> bool {
    table_holds(d.table, f.spec_type_id()) && !(field_type(d, f) is Array)
}

/// The fields of a run all lie in the field list and have named types.
pub open spec fn fields_named(d: DefinitionModel, r: Fields) -> bool {
    &&& r.start + r.len <= d.fields.len()
    &&& forall|k: int|
        r.start <= k < r.start + r.len ==> field_type_named(d, #[trigger] d.fields[k])
}

/// The fields of a run.
pub open spec fn field_run(d: DefinitionModel, r: Fields) -> Seq<FieldSymbol> {
    run_of(d.fields, r.start as int, r.len as int)
}

/// A type whose item can be generated.
pub open spec fn type_generable(d: DefinitionModel, t: Type) -> bool {
    match t {
        Type::Struct(s) => fields_named(d, s.fields),
        Type::Enum(e) => e.variants.start + e.variants.len <= d.variants.len(),
        _ => true,
    }
}

/// A message whose struct can be generated: its fields have named types and
/// fit in the 32 bytes of a message.
pub open spec fn message_generable(d: DefinitionModel, m: MessageSymbol) -> bool {
    &&& fields_named(d, m.fields)
    &&& fields_wf(field_run(d, m.fields))
    &&& layout_end(field_run(d, m.fields)) <= 32
}

/// The start of a group's type range: the index of its first enum, past
/// the builtins.
pub open spec fn types_start(g: GroupSymbol) -> int {
    g.enums.start + 12
}

/// The end of a group's type range: the end of its struct run, past the
/// builtins.
pub open spec fn types_end(g: GroupSymbol) -> int {
    g.structs.start + g.structs.len + 12
}

/// A group whose module can be generated.
pub open spec fn group_generable(d: DefinitionModel, g: GroupSymbol) -> bool {
    &&& g.messages.start + g.messages.len <= d.messages.len()
    &&& types_start(g) <= types_end(g) <= d.table.types.len()
    &&& forall|k: int|
        types_start(g) <= k < types_end(g) ==> type_generable(d, #[trigger] d.table.types[k])
    &&& forall|k: int|
        g.messages.start <= k < g.messages.start + g.messages.len ==> message_generable(
            d,
            #[trigger] d.messages[k],
        )
}

/// A definition whose bindings can be generated.
pub open spec fn generable(d: DefinitionModel) -> bool {
    forall|i: int| 0 <= i < d.groups.len() ==> group_generable(d, #[trigger] d.groups[i])
}

/// A field of a generated struct, typed by its field symbol.
pub open spec fn field_item(pool: Seq<Seq<char>>, d: DefinitionModel, f: FieldSymbol) -> FieldView {
    FieldView {
        access: Access::Pub,
        name: resolved(pool, f.name@),
        kind: resolved(pool, field_type(d, f).spec_name()),
        comment: None,
    }
}

/// The struct generated for a struct type.
pub open spec fn struct_item(
    args: Args,
    pool: Seq<Seq<char>>,
    d: DefinitionModel,
    sym: StructSymbol,
) -> StructView {
    StructView {
        add_repr: false,
        derives: derive_names(args),
        access: Access::Pub,
        name: resolved(pool, sym.name@),
        fields: field_run(d, sym.fields).map_values(|f: FieldSymbol| field_item(pool, d, f)),
        trait_impls: Seq::empty(),
        impls: Seq::empty(),
    }
}

/// The enum generated for an enum type.
pub open spec fn enum_item(args: Args, pool: Seq<Seq<char>>, d: DefinitionModel, sym: EnumSymbol) -> EnumView {
    EnumView {
        derives: derive_names(args),
        access: Access::Pub,
        name: resolved(pool, sym.name@),
        variants: run_of(d.variants, sym.variants.start as int, sym.variants.len as int).map_values(
            |v: crate::pool::StringId| resolved(pool, v@),
        ),
    }
}

/// The enums generated for a list of types, in order.
pub open spec fn type_enums(args: Args, pool: Seq<Seq<char>>, d: DefinitionModel, types: Seq<Type>) -> Seq<
    EnumView,
>
    decreases types.len(),
{
    if types.len() == 0 {
        Seq::empty()
    } else {
        type_enums(args, pool, d, types.drop_last()) + match types.last() {
            Type::Enum(sym) => seq![enum_item(args, pool, d, sym)],
            _ => Seq::empty(),
        }
    }
}

/// The structs generated for a list of types, in order.
pub open spec fn type_structs(
    args: Args,
    pool: Seq<Seq<char>>,
    d: DefinitionModel,
    types: Seq<Type>,
) -> Seq<StructView>
    decreases types.len(),
{
    if types.len() == 0 {
        Seq::empty()
    } else {
        type_structs(args, pool, d, types.drop_last()) + match types.last() {
            Type::Struct(sym) => seq![struct_item(args, pool, d, sym)],
            _ => Seq::empty(),
        }
    }
}

/// A public field of a message header.
pub open spec fn header_field(name: Seq<char>, comment: Option<Seq<char>>) -> FieldView {
    FieldView { access: Access::Pub, name, kind: "u8"@, comment }
}

/// The four header fields of every message.
pub open spec fn header_fields() -> Seq<FieldView> {
    seq![
        header_field("dst"@, Some("-------- HEADER --------"@)),
        header_field("group"@, None),
        header_field("src"@, None),
        header_field("kind"@, None),
    ]
}

/// The `n`-th padding field of a message, `bytes` long.
pub open spec fn padding_field(n: nat, bytes: nat) -> FieldView {
    FieldView {
        access: Access::Pub,
        name: "_padding"@ + decimal(n),
        kind: "[u8; "@ + decimal(bytes) + "]"@,
        comment: None,
    }
}

/// The payload fields of a message, each preceded by the padding that
/// aligns it, and how many paddings were added.
pub open spec fn payload_fields(pool: Seq<Seq<char>>, d: DefinitionModel, fs: Seq<FieldSymbol>) -> (
    Seq<FieldView>,
    nat,
)
    decreases fs.len(),
{
    if fs.len() == 0 {
        (Seq::empty(), 0)
    } else {
        let (prev, n) = payload_fields(pool, d, fs.drop_last());
        let p = padding_for(layout_end(fs.drop_last()), field_align(fs.last()));
        if p != 0 {
            (prev + seq![padding_field(n, p as nat), field_item(pool, d, fs.last())], n + 1)
        } else {
            (prev.push(field_item(pool, d, fs.last())), n)
        }
    }
}

/// The fields of a message before the payload comment is set: the header,
/// the payload, and a tail padding up to 32 bytes.
pub open spec fn message_fields_raw(pool: Seq<Seq<char>>, d: DefinitionModel, fs: Seq<FieldSymbol>) -> Seq<
    FieldView,
> {
    let (body, n) = payload_fields(pool, d, fs);
    let end = layout_end(fs);
    header_fields() + body + (if end != 32 {
        seq![padding_field(n, (32 - end) as nat)]
    } else {
        Seq::empty()
    })
}

/// The fields of a message; the first field after the header carries the
/// payload comment.
pub open spec fn message_fields(pool: Seq<Seq<char>>, d: DefinitionModel, fs: Seq<FieldSymbol>) -> Seq<
    FieldView,
> {
    let all = message_fields_raw(pool, d, fs);
    all.update(
        4,
        FieldView {
            access: all[4].access,
            name: all[4].name,
            kind: all[4].kind,
            comment: Some("-------- PAYLOAD --------"@),
        },
    )
}

/// A method of the message trait that reads a header byte.
pub open spec fn header_getter(name: Seq<char>, body: Seq<char>) -> FunctionView {
    FunctionView {
        access: Access::Private,
        is_const: false,
        name,
        self_pass: Some(Pass::Ref),
        arg: Seq::empty(),
        ret: Some("u8"@),
        body,
    }
}

/// A method of the message trait that sets a header byte.
pub open spec fn header_setter(name: Seq<char>, arg: Seq<char>, body: Seq<char>) -> FunctionView {
    FunctionView {
        access: Access::Private,
        is_const: false,
        name,
        self_pass: Some(Pass::Mut),
        arg: seq![ArgumentView { name: arg, kind: "u8"@, pass: Pass::Move }],
        ret: Some("&mut Self"@),
        body,
    }
}

/// The impl of the message trait for a message struct.
pub open spec fn message_trait_impl(message: Seq<char>) -> TraitImplView {
    TraitImplView {
        trait_name: typed_message_trait(),
        target: message,
        functions: seq![
            header_getter("dst"@, "self.dst"@),
            header_setter("with_dst"@, "dst"@, "self.dst = dst; self"@),
            header_getter("src"@, "self.src"@),
            header_getter("group"@, "self.group"@),
            header_setter("with_group"@, "group"@, "self.group = group; self"@),
            header_getter("kind"@, "self.kind"@),
            header_setter("with_kind"@, "kind"@, "self.kind = kind; self"@),
        ],
    }
}

/// The builder method that sets one payload field.
pub open spec fn field_setter(pool: Seq<Seq<char>>, d: DefinitionModel, f: FieldSymbol) -> FunctionView {
    let name = resolved(pool, f.name@);
    FunctionView {
        access: Access::Pub,
        is_const: true,
        name: "with_"@ + name,
        self_pass: Some(Pass::Mut),
        arg: seq![
            ArgumentView {
                name: "value"@,
                kind: resolved(pool, field_type(d, f).spec_name()),
                pass: Pass::Move,
            },
        ],
        ret: Some("&mut Self"@),
        body: "self."@ + name + " = value; self"@,
    }
}

/// The builder impl of a message: one setter per payload field.
pub open spec fn builder_impl(
    pool: Seq<Seq<char>>,
    d: DefinitionModel,
    message: Seq<char>,
    fs: Seq<FieldSymbol>,
) -> ImplView {
    ImplView {
        target: message,
        functions: fs.map_values(|f: FieldSymbol| field_setter(pool, d, f)),
    }
}

/// The struct generated for a message.
pub open spec fn message_item(
    args: Args,
    pool: Seq<Seq<char>>,
    d: DefinitionModel,
    m: MessageSymbol,
) -> StructView {
    let name = resolved(pool, m.name@);
    let fs = field_run(d, m.fields);
    StructView {
        add_repr: true,
        derives: derive_names(args),
        access: Access::Pub,
        name,
        fields: message_fields(pool, d, fs),
        trait_impls: seq![message_trait_impl(name)],
        impls: seq![builder_impl(pool, d, name, fs)],
    }
}

/// The table's types in a group's type range.
pub open spec fn group_types(d: DefinitionModel, g: GroupSymbol) -> Seq<Type> {
    d.table.types.subrange(types_start(g), types_end(g))
}

/// The messages of a group.
pub open spec fn group_messages(d: DefinitionModel, g: GroupSymbol) -> Seq<MessageSymbol> {
    run_of(d.messages, g.messages.start as int, g.messages.len as int)
}

/// The module of a group holds, after the structs of its types, one
/// message struct for each message in the group's run and no other: the
/// `k`-th is the struct of message `start + k` of the definition. So each
/// message is generated in the module of the group whose run holds it.
pub proof fn lemma_group_module_messages(args: Args, pool: Seq<Seq<char>>, d: DefinitionModel, g: GroupSymbol)
    requires
        g.messages.start + g.messages.len <= d.messages.len(),
    ensures
        ({
            let structs = group_module(args, pool, d, g).structs;
            let t = type_structs(args, pool, d, group_types(d, g)).len();
            &&& structs.len() == t + g.messages.len
            &&& forall|k: int|
                0 <= k < g.messages.len ==> #[trigger] structs[t + k] == message_item(
                    args,
                    pool,
                    d,
                    d.messages[g.messages.start + k],
                )
        }),
{
}

/// The module generated for a group: its enums, then the structs of its
/// struct types, then one struct per message.
pub open spec fn group_module(
    args: Args,
    pool: Seq<Seq<char>>,
    d: DefinitionModel,
    g: GroupSymbol,
) -> ModuleView {
    ModuleView {
        access: Access::Pub,
        name: resolved(pool, g.name@),
        enums: type_enums(args, pool, d, group_types(d, g)),
        structs: type_structs(args, pool, d, group_types(d, g)) + group_messages(d, g).map_values(
            |m: MessageSymbol| message_item(args, pool, d, m),
        ),
    }
}

/// The text of a group's module.
pub open spec fn group_text(args: Args, pool: Seq<Seq<char>>, d: DefinitionModel, g: GroupSymbol) -> Seq<
    char,
> {
    module_text(group_module(args, pool, d, g), 0)
}

/// The text generated for a definition: each group's module in turn.
pub open spec fn generated(args: Args, pool: Seq<Seq<char>>, d: DefinitionModel) -> Seq<char> {
    texts(d.groups, |g: GroupSymbol| group_text(args, pool, d, g))
}

/// The field generated for a field symbol: its name and the name of its type.
fn type_field(pool: &StringPool, definition: &ProtocolDefinition, f: &FieldSymbol) -> (r: Field)
    requires
        definition.wf(),
        field_type_named(definition.model(), *f),
    ensures
        r@ == field_item(pool@, definition.model(), *f),
{
    let table = definition.table();
    let kind_name = table.name_of_type(f.type_id());
    Field {
        access: Access::Pub,
        name: f.name().resolve(pool).to_owned(),
        kind: kind_name.resolve(pool).to_owned(),
        comment: None,
    }
}

/// The struct generated for a struct type.
fn build_struct(args: Args, pool: &StringPool, definition: &ProtocolDefinition, sym: StructSymbol) -> (r:
    Struct)
    requires
        definition.wf(),
        fields_named(definition.model(), sym.fields),
    ensures
        r@ == struct_item(args, pool@, definition.model(), sym),
{
    let ghost d = definition.model();
    let mut item = Struct::new(sym.name().resolve(pool));
    item.access = Access::Pub;
    extend_derive(&mut item.derives, args);
    let slice = definition.field_slice(sym.fields());
    let ghost all = slice@.map_values(|f: FieldSymbol| field_item(pool@, d, f));
    let mut j: usize = 0;
    assert(all.take(0) =~= Seq::<FieldView>::empty());
    while j < slice.len()
        invariant
            0 <= j <= slice@.len(),
            definition.wf(),
            d == definition.model(),
            fields_named(d, sym.fields),
            slice@ == field_run(d, sym.fields),
            all == slice@.map_values(|f: FieldSymbol| field_item(pool@, d, f)),
            item@.fields == all.take(j as int),
            item@.name == resolved(pool@, sym.name@),
            item@.access == Access::Pub,
            item@.derives == derive_names(args),
            item@.add_repr == false,
            item@.trait_impls == Seq::<TraitImplView>::empty(),
            item@.impls == Seq::<ImplView>::empty(),
        decreases slice.len() - j,
    {
        assert(slice@[j as int] == d.fields[sym.fields.start + j]);
        let field = type_field(pool, definition, &slice[j]);
        let ghost prev = item.fields@;
        assert(all.take(j as int).len() == j);
        assert(prev.map_values(|f: Field| f@).len() == j);
        item.fields.push(field);
        proof {
            assert forall|k: int| 0 <= k < j + 1 implies #[trigger] item@.fields[k] == all.take(j + 1)[k] by {
                if k < j {
                    assert(item.fields@[k] == prev[k]);
                    assert(prev.map_values(|f: Field| f@)[k] == all.take(j as int)[k]);
                }
            }
        }
        j = j + 1;
        assert(item@.fields =~= all.take(j as int));
    }
    assert(all.take(slice@.len() as int) =~= all);
    assert(item@ =~= struct_item(args, pool@, d, sym));
    item
}

/// The enum generated for an enum type.
fn build_enum(args: Args, pool: &StringPool, definition: &ProtocolDefinition, sym: EnumSymbol) -> (r: Enum)
    requires
        sym.variants.start + sym.variants.len <= definition.model().variants.len(),
    ensures
        r@ == enum_item(args, pool@, definition.model(), sym),
{
    let ghost d = definition.model();
    let mut item = Enum::new(sym.name().resolve(pool));
    item.access = Access::Pub;
    extend_derive(&mut item.derives, args);
    let slice = definition.variant_slice(sym.variants());
    let ghost all = slice@.map_values(|v: crate::pool::StringId| resolved(pool@, v@));
    let mut j: usize = 0;
    assert(all.take(0) =~= Seq::<Seq<char>>::empty());
    while j < slice.len()
        invariant
            0 <= j <= slice@.len(),
            all == slice@.map_values(|v: crate::pool::StringId| resolved(pool@, v@)),
            item@.variants == all.take(j as int),
            item@.name == resolved(pool@, sym.name@),
            item@.access == Access::Pub,
            item@.derives == derive_names(args),
        decreases slice.len() - j,
    {
        let ghost prev = item.variants@;
        assert(all.take(j as int).len() == j);
        assert(prev.map_values(|s: String| s@).len() == j);
        item.variants.push(slice[j].resolve(pool).to_owned());
        proof {
            assert forall|k: int| 0 <= k < j + 1 implies #[trigger] item@.variants[k] == all.take(j + 1)[k] by {
                if k < j {
                    assert(item.variants@[k] == prev[k]);
                    assert(prev.map_values(|s: String| s@)[k] == all.take(j as int)[k]);
                }
            }
        }
        j = j + 1;
        assert(item@.variants =~= all.take(j as int));
    }
    assert(all.take(slice@.len() as int) =~= all);
    assert(item@ =~= enum_item(args, pool@, d, sym));
    item
}

/// A method of the message trait that reads a header byte.
fn getter(name: &str, body: &str) -> (r: Function)
    ensures
        r@ == header_getter(name@, body@),
{
    let r = Function {
        access: Access::Private,
        is_const: false,
        name: name.to_owned(),
        self_pass: Some(Pass::Ref),
        arg: Vec::new(),
        ret: Some("u8".to_owned()),
        body: body.to_owned(),
    };
    assert(r@.arg =~= Seq::<ArgumentView>::empty());
    assert(r@ == header_getter(name@, body@));
    r
}

/// A method of the message trait that sets a header byte.
fn setter(name: &str, arg: &str, body: &str) -> (r: Function)
    ensures
        r@ == header_setter(name@, arg@, body@),
{
    let mut args: Vec<Argument> = Vec::new();
    args.push(Argument { name: arg.to_owned(), kind: "u8".to_owned(), pass: Pass::Move });
    let r = Function {
        access: Access::Private,
        is_const: false,
        name: name.to_owned(),
        self_pass: Some(Pass::Mut),
        arg: args,
        ret: Some("&mut Self".to_owned()),
        body: body.to_owned(),
    };
    assert(r@.arg =~= seq![ArgumentView { name: arg@, kind: "u8"@, pass: Pass::Move }]);
    r
}

/// The impl of the message trait for a message struct: getters and setters
/// of the header bytes.
pub fn generate_message_trait_impl(message: &str) -> (r: TraitImpl)
    ensures
        r@ == message_trait_impl(message@),
{
    let mut functions: Vec<Function> = Vec::new();
    functions.push(getter("dst", "self.dst"));
    functions.push(setter("with_dst", "dst", "self.dst = dst; self"));
    functions.push(getter("src", "self.src"));
    functions.push(getter("group", "self.group"));
    functions.push(setter("with_group", "group", "self.group = group; self"));
    functions.push(getter("kind", "self.kind"));
    functions.push(setter("with_kind", "kind", "self.kind = kind; self"));
    let r = TraitImpl {
        trait_name: "cbus_core::message::TypedMessage".to_owned(),
        target: message.to_owned(),
        functions,
    };
    assert(r@.functions =~= message_trait_impl(message@).functions);
    r
}

/// The builder method that sets one payload field.
fn build_setter(pool: &StringPool, definition: &ProtocolDefinition, f: &FieldSymbol) -> (r: Function)
    requires
        definition.wf(),
        field_type_named(definition.model(), *f),
    ensures
        r@ == field_setter(pool@, definition.model(), *f),
{
    let field_name = f.name().resolve(pool);
    let kind_name = definition.table().name_of_type(f.type_id());
    let mut name = "with_".to_owned();
    name.append(field_name);
    let mut body = "self.".to_owned();
    body.append(field_name);
    body.append(" = value; self");
    let mut args: Vec<Argument> = Vec::new();
    args.push(
        Argument { name: "value".to_owned(), kind: kind_name.resolve(pool).to_owned(), pass: Pass::Move },
    );
    let r = Function {
        access: Access::Pub,
        is_const: true,
        name,
        self_pass: Some(Pass::Mut),
        arg: args,
        ret: Some("&mut Self".to_owned()),
        body,
    };
    assert(r@.arg =~= field_setter(pool@, definition.model(), *f).arg);
    r
}

/// The builder impl of a message: one setter per payload field.
fn generate_builder_pattern(
    pool: &StringPool,
    definition: &ProtocolDefinition,
    message: &str,
    fields: &[FieldSymbol],
) -> (r: Impl)
    requires
        definition.wf(),
        forall|k: int| 0 <= k < fields@.len() ==> field_type_named(definition.model(), #[trigger] fields@[k]),
    ensures
        r@ == builder_impl(pool@, definition.model(), message@, fields@),
{
    let ghost d = definition.model();
    let ghost all = fields@.map_values(|f: FieldSymbol| field_setter(pool@, d, f));
    let mut functions: Vec<Function> = Vec::new();
    let mut j: usize = 0;
    assert(all.take(0) =~= Seq::<FunctionView>::empty());
    while j < fields.len()
        invariant
            0 <= j <= fields@.len(),
            definition.wf(),
            d == definition.model(),
            forall|k: int| 0 <= k < fields@.len() ==> field_type_named(d, #[trigger] fields@[k]),
            all == fields@.map_values(|f: FieldSymbol| field_setter(pool@, d, f)),
            functions@.map_values(|f: Function| f@) == all.take(j as int),
        decreases fields.len() - j,
    {
        let f = build_setter(pool, definition, &fields[j]);
        let ghost prev = functions@;
        assert(all.take(j as int).len() == j);
        assert(prev.map_values(|f: Function| f@).len() == j);
        functions.push(f);
        proof {
            let now = functions@.map_values(|f: Function| f@);
            assert forall|k: int| 0 <= k < j + 1 implies #[trigger] now[k] == all.take(j + 1)[k] by {
                if k < j {
                    assert(functions@[k] == prev[k]);
                    assert(prev.map_values(|f: Function| f@)[k] == all.take(j as int)[k]);
                }
            }
        }
        j = j + 1;
        assert(functions@.map_values(|f: Function| f@) =~= all.take(j as int));
    }
    assert(all.take(fields@.len() as int) =~= all);
    Impl { target: message.to_owned(), functions }
}

/// Appends a field, seen through the views of the fields.
fn push_field(fields: &mut Vec<Field>, f: Field)
    ensures
        final(fields)@.map_values(|x: Field| x@) == old(fields)@.map_values(|x: Field| x@).push(f@),
{
    let ghost fv = f@;
    fields.push(f);
    assert(fields@.map_values(|x: Field| x@) =~= old(fields)@.map_values(|x: Field| x@).push(fv));
}

/// A public `u8` field of the message header.
fn header(name: &str) -> (r: Field)
    ensures
        r@ == header_field(name@, None),
{
    Field { access: Access::Pub, name: name.to_owned(), kind: "u8".to_owned(), comment: None }
}

/// The `n`-th padding field of a message, `bytes` long.
fn padding(n: usize, bytes: usize) -> (r: Field)
    ensures
        r@ == padding_field(n as nat, bytes as nat),
{
    let mut name = "_padding".to_owned();
    let count = decimal_string(n);
    name.append(count.as_str());
    let mut kind = "[u8; ".to_owned();
    let len = decimal_string(bytes);
    kind.append(len.as_str());
    kind.append("]");
    Field { access: Access::Pub, name, kind, comment: None }
}

/// Each field adds at least one generated field, and at most one padding.
proof fn lemma_payload_len(pool: Seq<Seq<char>>, d: DefinitionModel, fs: Seq<FieldSymbol>)
    ensures
        payload_fields(pool, d, fs).0.len() >= fs.len(),
        payload_fields(pool, d, fs).1 <= fs.len(),
    decreases fs.len(),
{
    if fs.len() > 0 {
        lemma_payload_len(pool, d, fs.drop_last());
    }
}

/// The struct generated for a message: the header, the payload with the
/// paddings that align it, a tail padding to 32 bytes, the message trait
/// impl and the builder.
fn build_message(args: Args, pool: &StringPool, definition: &ProtocolDefinition, m: MessageSymbol) -> (r:
    Struct)
    requires
        definition.wf(),
        message_generable(definition.model(), m),
    ensures
        r@ == message_item(args, pool@, definition.model(), m),
{
    let ghost d = definition.model();
    let name = m.name().resolve(pool);
    let mut item = Struct::new(name);
    item.access = Access::Pub;
    item.add_repr = true;
    extend_derive(&mut item.derives, args);
    let mut dst = header("dst");
    dst.comment = Some("-------- HEADER --------".to_owned());
    push_field(&mut item.fields, dst);
    push_field(&mut item.fields, header("group"));
    push_field(&mut item.fields, header("src"));
    push_field(&mut item.fields, header("kind"));
    assert(item@.fields =~= header_fields() + payload_fields(pool@, d, Seq::<FieldSymbol>::empty()).0);
    let slice = definition.field_slice(m.fields());
    let (steps, total) = compute_layout(slice);
    let mut paddings: usize = 0;
    let mut j: usize = 0;
    assert(slice@.take(0) =~= Seq::<FieldSymbol>::empty());
    while j < slice.len()
        invariant
            0 <= j <= slice@.len(),
            definition.wf(),
            d == definition.model(),
            message_generable(d, m),
            slice@ == field_run(d, m.fields),
            steps@.len() == slice@.len(),
            forall|i: int|
                0 <= i < slice@.len() ==> (#[trigger] steps@[i]).padding == padding_for(
                    layout_end(slice@.take(i)),
                    field_align(slice@[i]),
                ),
            item@.fields == header_fields() + payload_fields(pool@, d, slice@.take(j as int)).0,
            paddings == payload_fields(pool@, d, slice@.take(j as int)).1,
            paddings <= j,
            item@.name == resolved(pool@, m.name@),
            item@.access == Access::Pub,
            item@.derives == derive_names(args),
            item@.add_repr == true,
            item@.trait_impls == Seq::<TraitImplView>::empty(),
            item@.impls == Seq::<ImplView>::empty(),
        decreases slice.len() - j,
    {
        proof {
            let p = slice@.take(j + 1);
            assert(p.drop_last() =~= slice@.take(j as int));
            assert(p.last() == slice@[j as int]);
            assert(slice@[j as int] == d.fields[m.fields.start + j]);
            lemma_payload_len(pool@, d, slice@.take(j as int));
        }
        let step_padding = steps[j].padding;
        if step_padding != 0 {
            push_field(&mut item.fields, padding(paddings, step_padding as usize));
            paddings = paddings + 1;
        }
        push_field(&mut item.fields, type_field(pool, definition, &slice[j]));
        j = j + 1;
        assert(item@.fields =~= header_fields() + payload_fields(pool@, d, slice@.take(j as int)).0);
    }
    assert(slice@.take(slice@.len() as int) =~= slice@);
    proof {
        lemma_payload_len(pool@, d, slice@);
    }
    let diff = 32 - total;
    if diff != 0 {
        push_field(&mut item.fields, padding(paddings, diff as usize));
    }
    assert(item@.fields =~= message_fields_raw(pool@, d, slice@));
    let ghost raw = item@.fields;
    let fourth = &item.fields[4];
    let payload = Field {
        access: fourth.access,
        name: fourth.name.clone(),
        kind: fourth.kind.clone(),
        comment: Some("-------- PAYLOAD --------".to_owned()),
    };
    item.fields.set(4, payload);
    assert(item@.fields =~= message_fields(pool@, d, slice@));
    let trait_impl = generate_message_trait_impl(name);
    item.trait_impls.push(trait_impl);
    let builder = generate_builder_pattern(pool, definition, name, slice);
    item.impls.push(builder);
    assert(item@.trait_impls =~= seq![message_trait_impl(resolved(pool@, m.name@))]);
    assert(item@.impls =~= seq![builder_impl(pool@, d, resolved(pool@, m.name@), slice@)]);
    assert(item@ =~= message_item(args, pool@, d, m));
    item
}

/// The module generated for a group, given the group's messages and the
/// types of its type range.
fn build_module(
    args: Args,
    pool: &StringPool,
    definition: &ProtocolDefinition,
    group: GroupSymbol,
    messages: &[MessageSymbol],
    types: &[Type],
) -> (r: Module)
    requires
        definition.wf(),
        group_generable(definition.model(), group),
        messages@ == group_messages(definition.model(), group),
        types@ == group_types(definition.model(), group),
    ensures
        r@ == group_module(args, pool@, definition.model(), group),
{
    let ghost d = definition.model();
    let mut module = Module::new(group.name().resolve(pool));
    module.access = Access::Pub;
    let mut i: usize = 0;
    assert(types@.take(0) =~= Seq::<Type>::empty());
    assert(module@.enums =~= type_enums(args, pool@, d, types@.take(0)));
    assert(module@.structs =~= type_structs(args, pool@, d, types@.take(0)));
    while i < types.len()
        invariant
            0 <= i <= types@.len(),
            definition.wf(),
            d == definition.model(),
            group_generable(d, group),
            types@ == group_types(d, group),
            module@.enums == type_enums(args, pool@, d, types@.take(i as int)),
            module@.structs == type_structs(args, pool@, d, types@.take(i as int)),
            module@.name == resolved(pool@, group.name@),
            module@.access == Access::Pub,
        decreases types.len() - i,
    {
        proof {
            let p = types@.take(i + 1);
            assert(p.drop_last() =~= types@.take(i as int));
            assert(p.last() == types@[i as int]);
            assert(types@[i as int] == d.table.types[types_start(group) + i]);
            assert(type_generable(d, types@[i as int]));
        }
        match types[i] {
            Type::Struct(sym) => {
                let item = build_struct(args, pool, definition, sym);
                let ghost prev = module.structs@;
                module.structs.push(item);
                assert(module.structs@.map_values(|s: Struct| s@) =~= prev.map_values(|s: Struct| s@).push(
                    item@,
                ));
            },
            Type::Enum(sym) => {
                let item = build_enum(args, pool, definition, sym);
                let ghost prev = module.enums@;
                module.enums.push(item);
                assert(module.enums@.map_values(|e: Enum| e@) =~= prev.map_values(|e: Enum| e@).push(
                    item@,
                ));
            },
            _ => {},
        }
        i = i + 1;
        assert(module@.enums =~= type_enums(args, pool@, d, types@.take(i as int)));
        assert(module@.structs =~= type_structs(args, pool@, d, types@.take(i as int)));
    }
    assert(types@.take(types@.len() as int) =~= types@);
    let ghost type_items = module@.structs;
    let ghost all = messages@.map_values(|m: MessageSymbol| message_item(args, pool@, d, m));
    let mut k: usize = 0;
    assert(all.take(0) =~= Seq::<StructView>::empty());
    assert(module@.structs =~= type_items + all.take(0));
    while k < messages.len()
        invariant
            0 <= k <= messages@.len(),
            definition.wf(),
            d == definition.model(),
            group_generable(d, group),
            messages@ == group_messages(d, group),
            all == messages@.map_values(|m: MessageSymbol| message_item(args, pool@, d, m)),
            module@.structs == type_items + all.take(k as int),
            module@.enums == type_enums(args, pool@, d, types@),
            module@.name == resolved(pool@, group.name@),
            module@.access == Access::Pub,
        decreases messages.len() - k,
    {
        assert(messages@[k as int] == d.messages[group.messages.start + k]);
        let item = build_message(args, pool, definition, messages[k]);
        let ghost prev = module.structs@;
        module.structs.push(item);
        assert(module.structs@.map_values(|s: Struct| s@) =~= prev.map_values(|s: Struct| s@).push(item@));
        k = k + 1;
        assert(all.take(k as int) =~= all.take(k - 1).push(all[k - 1]));
        assert(module@.structs =~= type_items + all.take(k as int));
    }
    assert(all.take(messages@.len() as int) =~= all);
    assert(module@ =~= group_module(args, pool@, d, group));
    module
}

/// Generates the bindings of a definition: one module per group.
pub fn generate(args: Args, pool: &StringPool, definition: &ProtocolDefinition) -> (r: String)
    requires
        definition.wf(),
        generable(definition.model()),
    ensures
        r@ == generated(args, pool@, definition.model()),
{
    let ghost d = definition.model();
    proof {
        assert forall|i: int| 0 <= i < d.groups.len() implies (#[trigger] d.groups[i]).messages.start
            + d.groups[i].messages.len <= d.messages.len() by {
            assert(group_generable(d, d.groups[i]));
        }
        assert forall|i: int|
            #![trigger d.groups[i]]
            0 <= i < d.groups.len() implies {
                let g = d.groups[i];
                g.enums.start + 12 <= g.structs.start + g.structs.len + 12 <= d.table.types.len()
            } by {
            assert(group_generable(d, d.groups[i]));
        }
    }
    let groups = definition.group_iter();
    let mut out = String::new();
    let mut i: usize = 0;
    assert(d.groups.take(0) =~= Seq::<GroupSymbol>::empty());
    assert(out@ =~= texts(d.groups.take(0), |g: GroupSymbol| group_text(args, pool@, d, g)));
    while i < groups.len()
        invariant
            0 <= i <= groups@.len(),
            groups@.len() == d.groups.len(),
            definition.wf(),
            d == definition.model(),
            generable(d),
            forall|j: int|
                #![trigger groups@[j]]
                0 <= j < groups@.len() ==> {
                    let g = d.groups[j];
                    &&& groups@[j].0 == g
                    &&& groups@[j].1@ == run_of(d.messages, g.messages.start as int, g.messages.len as int)
                    &&& groups@[j].2@ == d.table.types.subrange(
                        g.enums.start + 12,
                        g.structs.start + g.structs.len + 12,
                    )
                },
            out@ == texts(d.groups.take(i as int), |g: GroupSymbol| group_text(args, pool@, d, g)),
        decreases groups.len() - i,
    {
        let entry = &groups[i];
        assert(group_generable(d, d.groups[i as int]));
        let module = build_module(args, pool, definition, entry.0, entry.1.as_slice(), entry.2.as_slice());
        module.write_to(&mut out, 0);
        proof {
            let p = d.groups.take(i + 1);
            assert(p.drop_last() =~= d.groups.take(i as int));
            assert(p.last() == d.groups[i as int]);
        }
        i = i + 1;
        assert(out@ =~= texts(d.groups.take(i as int), |g: GroupSymbol| group_text(args, pool@, d, g)));
    }
    assert(d.groups.take(d.groups.len() as int) =~= d.groups);
    out
}

/// Whether a field's type is in the table and has a name.
fn check_field(definition: &ProtocolDefinition, f: &FieldSymbol) -> (r: bool)
    requires
        definition.wf(),
    ensures
        r == field_type_named(definition.model(), *f),
{
    let table = definition.table();
    let id = f.type_id();
    if !table.contains_id(id) {
        return false;
    }
    match table.get_type(id) {
        Type::Array(_) => false,
        _ => true,
    }
}

/// Whether the fields of a run lie in the field list and have named types.
fn check_fields(definition: &ProtocolDefinition, r: Fields) -> (b: bool)
    requires
        definition.wf(),
    ensures
        b == fields_named(definition.model(), r),
{
    let ghost d = definition.model();
    let fields = definition.fields();
    if r.start() as u64 + r.len() as u64 > fields.len() as u64 {
        return false;
    }
    let start = r.start() as usize;
    let mut k: usize = 0;
    while k < r.len() as usize
        invariant
            0 <= k <= r.len,
            definition.wf(),
            d == definition.model(),
            fields@ == d.fields,
            start == r.start,
            r.start + r.len <= d.fields.len(),
            d.fields.len() <= usize::MAX,
            forall|j: int| r.start <= j < r.start + k ==> field_type_named(d, #[trigger] d.fields[j]),
        decreases r.len - k,
    {
        if !check_field(definition, &fields[start + k]) {
            return false;
        }
        k = k + 1;
    }
    true
}

/// Whether a message's struct can be generated.
fn check_message(definition: &ProtocolDefinition, m: MessageSymbol) -> (b: bool)
    requires
        definition.wf(),
    ensures
        b == message_generable(definition.model(), m),
{
    let ghost d = definition.model();
    if !check_fields(definition, m.fields()) {
        return false;
    }
    let slice = definition.field_slice(m.fields());
    let mut i: usize = 0;
    while i < slice.len()
        invariant
            0 <= i <= slice@.len(),
            slice@ == field_run(d, m.fields),
            d == definition.model(),
            forall|j: int| 0 <= j < i ==> (#[trigger] slice@[j]).spec_type_id().wf(),
        decreases slice.len() - i,
    {
        let id = slice[i].type_id();
        let v = id.meta.value;
        if id.group < 1 || v / 8 < 1 || v / 8 > 28 || v % 8 > 3 {
            assert(!slice@[i as int].spec_type_id().wf());
            assert(!fields_wf(slice@));
            return false;
        }
        i = i + 1;
    }
    assert(fields_wf(slice@));
    let mut total: usize = 4;
    let mut k: usize = 0;
    assert(slice@.take(0) =~= Seq::<FieldSymbol>::empty());
    while k < slice.len()
        invariant
            0 <= k <= slice@.len(),
            slice@ == field_run(d, m.fields),
            d == definition.model(),
            fields_wf(slice@),
            total == layout_end(slice@.take(k as int)),
            total <= 32,
        decreases slice.len() - k,
    {
        proof {
            let p = slice@.take(k + 1);
            assert(p.drop_last() =~= slice@.take(k as int));
            assert(p.last() == slice@[k as int]);
            crate::layout::lemma_field_dims(slice@[k as int]);
            crate::layout::lemma_padding_bounds(total as int, field_align(slice@[k as int]));
        }
        let id = slice[k].type_id();
        let size = id.size().value() as usize;
        let align = id.align().value() as usize;
        total = total + (align - total % align) % align + size;
        k = k + 1;
        assert(total == layout_end(slice@.take(k as int)));
        if total > 32 {
            proof {
                crate::layout::lemma_layout_end_prefix(slice@, k as int);
            }
            return false;
        }
    }
    assert(slice@.take(slice@.len() as int) =~= slice@);
    true
}

/// Whether a type's item can be generated.
fn check_type(definition: &ProtocolDefinition, t: Type) -> (b: bool)
    requires
        definition.wf(),
    ensures
        b == type_generable(definition.model(), t),
{
    match t {
        Type::Struct(s) => check_fields(definition, s.fields()),
        Type::Enum(e) => {
            let v = e.variants();
            v.start() as usize + v.len() as usize <= definition.variants().len()
        },
        _ => true,
    }
}

/// Whether a group's module can be generated.
fn check_group(definition: &ProtocolDefinition, g: GroupSymbol) -> (b: bool)
    requires
        definition.wf(),
    ensures
        b == group_generable(definition.model(), g),
{
    let ghost d = definition.model();
    let messages = definition.messages();
    let types = definition.table().types();
    let mr = g.messages();
    if mr.start() as usize + mr.len() as usize > messages.len() {
        return false;
    }
    let start = g.enums().start() as u64 + 12;
    let end = g.structs().start() as u64 + g.structs().len() as u64 + 12;
    if start > end || end > types.len() as u64 {
        return false;
    }
    let mut k: usize = start as usize;
    while k < end as usize
        invariant
            start <= k <= end <= types@.len(),
            types@ == d.table.types,
            start == types_start(g),
            end == types_end(g),
            definition.wf(),
            d == definition.model(),
            forall|j: int| types_start(g) <= j < k ==> type_generable(d, #[trigger] d.table.types[j]),
        decreases end - k,
    {
        if !check_type(definition, types[k]) {
            return false;
        }
        k = k + 1;
    }
    let first = mr.start() as usize;
    let mut j: usize = 0;
    while j < mr.len() as usize
        invariant
            0 <= j <= mr.len,
            first == mr.start,
            mr == g.messages,
            mr.start + mr.len <= d.messages.len(),
            messages@ == d.messages,
            definition.wf(),
            d == definition.model(),
            forall|i: int| mr.start <= i < mr.start + j ==> message_generable(d, #[trigger] d.messages[i]),
        decreases mr.len - j,
    {
        if !check_message(definition, messages[first + j]) {
            return false;
        }
        j = j + 1;
    }
    true
}

/// Whether the bindings of a definition can be generated: every group's
/// messages and types lie in the definition's lists, every field names a
/// type of the table, and every message fits in 32 bytes.
pub fn can_generate(definition: &ProtocolDefinition) -> (r: bool)
    requires
        definition.wf(),
    ensures
        r == generable(definition.model()),
{
    let ghost d = definition.model();
    let groups = definition.groups();
    let mut i: usize = 0;
    while i < groups.len()
        invariant
            0 <= i <= groups@.len(),
            groups@ == d.groups,
            definition.wf(),
            d == definition.model(),
            forall|j: int| 0 <= j < i ==> group_generable(d, #[trigger] d.groups[j]),
        decreases groups.len() - i,
    {
        if !check_group(definition, groups[i]) {
            return false;
        }
        i = i + 1;
    }
    true
}

} // verus!
