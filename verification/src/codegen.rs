//! A small model of Rust source items (modules, enums, structs, fields,
//! functions and impl blocks) and the text each of them is written as.
use vstd::prelude::*;

verus! {

/// Whether an item is public.
#[derive(Debug, Clone, Copy, PartialEq, Eq)]
pub enum Access {
    Private,
    Pub,
}

/// How an argument is passed.
#[derive(Debug, Clone, Copy, PartialEq, Eq)]
pub enum Pass {
    Move,
    Ref,
    Mut,
}

/// The visibility keyword of an access.
pub open spec fn access_text(a: Access) -> Seq<char> {
    match a {
        Access::Private => ""@,
        Access::Pub => "pub"@,
    }
}

/// What precedes the type of an argument passed this way.
pub open spec fn pass_text(p: Pass) -> Seq<char> {
    match p {
        Pass::Move => ""@,
        Pass::Ref => "&"@,
        Pass::Mut => "&mut "@,
    }
}

/// The receiver of a method that takes `self` this way.
pub open spec fn self_text(p: Pass) -> Seq<char> {
    match p {
        Pass::Move => "self"@,
        Pass::Ref => "&self"@,
        Pass::Mut => "&mut self"@,
    }
}

/// Four spaces for each level of nesting.
pub open spec fn indent(depth: nat) -> Seq<char>
    decreases depth,
{
    if depth == 0 {
        Seq::empty()
    } else {
        indent((depth - 1) as nat) + "    "@
    }
}

/// The texts of the items, one after the other.
pub open spec fn texts<T>(items: Seq<T>, f: spec_fn(T) -> Seq<char>) -> Seq<char>
    decreases items.len(),
{
    if items.len() == 0 {
        Seq::empty()
    } else {
        texts(items.drop_last(), f) + f(items.last())
    }
}

/// The items with `sep` between each two of them.
pub open spec fn joined(items: Seq<Seq<char>>, sep: Seq<char>) -> Seq<char>
    decreases items.len(),
{
    if items.len() == 0 {
        Seq::empty()
    } else if items.len() == 1 {
        items[0]
    } else {
        joined(items.drop_last(), sep) + sep + items.last()
    }
}

impl Access {
    /// The visibility keyword.
    pub fn as_str(&self) -> (r: &'static str)
        ensures
            r@ == access_text(*self),
    {
        match self {
            Access::Private => "",
            Access::Pub => "pub",
        }
    }
}

impl Pass {
    /// What precedes the type of an argument passed this way.
    pub fn as_str(&self) -> (r: &'static str)
        ensures
            r@ == pass_text(*self),
    {
        match self {
            Pass::Move => "",
            Pass::Ref => "&",
            Pass::Mut => "&mut ",
        }
    }

    /// The receiver of a method that takes `self` this way.
    pub fn receiver(&self) -> (r: &'static str)
        ensures
            r@ == self_text(*self),
    {
        match self {
            Pass::Move => "self",
            Pass::Ref => "&self",
            Pass::Mut => "&mut self",
        }
    }
}

/// Appends `depth` levels of indentation.
pub fn add_depth(out: &mut String, depth: usize)
    ensures
        final(out)@ == old(out)@ + indent(depth as nat),
{
    let ghost start = out@;
    let mut i: usize = 0;
    while i < depth
        invariant
            0 <= i <= depth,
            out@ == start + indent(i as nat),
        decreases depth - i,
    {
        out.append("    ");
        i = i + 1;
        assert(out@ =~= start + indent(i as nat));
    }
    assert(start + indent(0) =~= start);
}

/// Appends the strings with `sep` between each two of them.
fn write_joined(out: &mut String, items: &[String], sep: &str)
    ensures
        final(out)@ == old(out)@ + joined(items@.map_values(|s: String| s@), sep@),
{
    let ghost start = out@;
    let ghost all = items@.map_values(|s: String| s@);
    if items.len() == 0 {
        assert(out@ =~= start + joined(all, sep@));
        return;
    }
    out.append(items[0].as_str());
    assert(all.take(1) =~= seq![all[0]]);
    let mut i: usize = 1;
    while i < items.len()
        invariant
            1 <= i <= items@.len(),
            all == items@.map_values(|s: String| s@),
            out@ == start + joined(all.take(i as int), sep@),
        decreases items.len() - i,
    {
        out.append(sep);
        out.append(items[i].as_str());
        proof {
            let p = all.take(i + 1);
            assert(p.drop_last() =~= all.take(i as int));
            assert(p.last() == items@[i as int]@);
        }
        i = i + 1;
        assert(out@ =~= start + joined(all.take(i as int), sep@));
    }
    assert(all.take(items@.len() as int) =~= all);
}

/// The derive names of an item.
pub struct DeriveList {
    pub inner: Vec<String>,
}

impl View for DeriveList {
    type V = Seq<Seq<char>>;

    open spec fn view(&self) -> Seq<Seq<char>> {
        self.inner@.map_values(|s: String| s@)
    }
}

/// The derive attribute of a list of derive names; nothing for no names.
pub open spec fn derive_text(list: Seq<Seq<char>>, depth: nat) -> Seq<char> {
    if list.len() == 0 {
        Seq::empty()
    } else {
        indent(depth) + "#[derive("@ + joined(list, ", "@) + ")]\n"@
    }
}

impl DeriveList {
    pub fn new() -> (r: Self)
        ensures
            r@ == Seq::<Seq<char>>::empty(),
    {
        let r = DeriveList { inner: Vec::new() };
        assert(r@ =~= Seq::<Seq<char>>::empty());
        r
    }

    /// Appends one derive name.
    pub fn push(&mut self, name: &str)
        ensures
            final(self)@ == old(self)@.push(name@),
    {
        self.inner.push(name.to_owned());
        assert(self@ =~= old(self)@.push(name@));
    }

    pub fn write_to(&self, out: &mut String, depth: usize)
        ensures
            final(out)@ == old(out)@ + derive_text(self@, depth as nat),
    {
        let ghost start = out@;
        if self.inner.len() == 0 {
            assert(out@ =~= start + derive_text(self@, depth as nat));
            return;
        }
        add_depth(out, depth);
        out.append("#[derive(");
        write_joined(out, self.inner.as_slice(), ", ");
        out.append(")]\n");
        assert(out@ =~= start + derive_text(self@, depth as nat));
    }
}

impl Default for DeriveList {
    fn default() -> (r: Self)
        ensures
            r@ == Seq::<Seq<char>>::empty(),
    {
        DeriveList::new()
    }
}

/// A field as it is written: visibility, name, type and an optional
/// comment line above it.
pub struct FieldView {
    pub access: Access,
    pub name: Seq<char>,
    pub kind: Seq<char>,
    pub comment: Option<Seq<char>>,
}

pub struct Field {
    pub access: Access,
    pub name: String,
    pub kind: String,
    pub comment: Option<String>,
}

impl View for Field {
    type V = FieldView;

    open spec fn view(&self) -> FieldView {
        FieldView {
            access: self.access,
            name: self.name@,
            kind: self.kind@,
            comment: match self.comment {
                Some(c) => Some(c@),
                None => None,
            },
        }
    }
}

/// The comment line of a field, if it has one.
pub open spec fn comment_text(comment: Option<Seq<char>>, depth: nat) -> Seq<char> {
    match comment {
        Some(c) => indent(depth) + "/* "@ + c + " */\n"@,
        None => Seq::empty(),
    }
}

pub open spec fn field_text(f: FieldView, depth: nat) -> Seq<char> {
    comment_text(f.comment, depth) + indent(depth) + access_text(f.access) + " "@ + f.name + ": "@
        + f.kind + ",\n"@
}

impl Field {
    pub fn write_to(&self, out: &mut String, depth: usize)
        ensures
            final(out)@ == old(out)@ + field_text(self@, depth as nat),
    {
        let ghost start = out@;
        match &self.comment {
            Some(comment) => {
                add_depth(out, depth);
                out.append("/* ");
                out.append(comment.as_str());
                out.append(" */\n");
            },
            None => {},
        }
        assert(out@ =~= start + comment_text(self@.comment, depth as nat));
        add_depth(out, depth);
        out.append(self.access.as_str());
        out.append(" ");
        out.append(self.name.as_str());
        out.append(": ");
        out.append(self.kind.as_str());
        out.append(",\n");
        assert(out@ =~= start + field_text(self@, depth as nat));
    }
}

/// An argument as it is written: name, how it is passed, and type.
pub struct ArgumentView {
    pub name: Seq<char>,
    pub kind: Seq<char>,
    pub pass: Pass,
}

pub struct Argument {
    pub name: String,
    pub kind: String,
    pub pass: Pass,
}

impl View for Argument {
    type V = ArgumentView;

    open spec fn view(&self) -> ArgumentView {
        ArgumentView { name: self.name@, kind: self.kind@, pass: self.pass }
    }
}

pub open spec fn argument_text(a: ArgumentView) -> Seq<char> {
    a.name + ": "@ + pass_text(a.pass) + a.kind
}

impl Argument {
    pub fn write_to(&self, out: &mut String)
        ensures
            final(out)@ == old(out)@ + argument_text(self@),
    {
        let ghost start = out@;
        out.append(self.name.as_str());
        out.append(": ");
        out.append(self.pass.as_str());
        out.append(self.kind.as_str());
        assert(out@ =~= start + argument_text(self@));
    }
}

/// A function as it is written.
pub struct FunctionView {
    pub access: Access,
    pub is_const: bool,
    pub name: Seq<char>,
    pub self_pass: Option<Pass>,
    pub arg: Seq<ArgumentView>,
    pub ret: Option<Seq<char>>,
    pub body: Seq<char>,
}

pub struct Function {
    pub access: Access,
    pub is_const: bool,
    pub name: String,
    pub self_pass: Option<Pass>,
    pub arg: Vec<Argument>,
    pub ret: Option<String>,
    pub body: String,
}

impl View for Function {
    type V = FunctionView;

    open spec fn view(&self) -> FunctionView {
        FunctionView {
            access: self.access,
            is_const: self.is_const,
            name: self.name@,
            self_pass: self.self_pass,
            arg: self.arg@.map_values(|a: Argument| a@),
            ret: match self.ret {
                Some(r) => Some(r@),
                None => None,
            },
            body: self.body@,
        }
    }
}

/// The list of parameters after the receiver: nothing when there are none,
/// else a comma and the arguments separated by commas.
pub open spec fn arguments_text(args: Seq<ArgumentView>) -> Seq<char> {
    if args.len() == 0 {
        Seq::empty()
    } else {
        ", "@ + joined(args.map_values(|a: ArgumentView| argument_text(a)), ", "@)
    }
}

/// The start of a function's head: visibility, `const`, name and the
/// opening parenthesis.
pub open spec fn head_text(f: FunctionView, depth: nat) -> Seq<char> {
    indent(depth) + access_text(f.access) + (if f.is_const {
        " const"@
    } else {
        Seq::empty()
    }) + " fn "@ + f.name + "("@
}

/// The parameters of a function and the closing parenthesis.
pub open spec fn params_text(f: FunctionView) -> Seq<char> {
    (match f.self_pass {
        Some(p) => self_text(p),
        None => Seq::empty(),
    }) + arguments_text(f.arg) + ")"@
}

/// The return type of a function, if it has one, and the opening brace.
pub open spec fn returns_text(f: FunctionView) -> Seq<char> {
    (match f.ret {
        Some(r) => " -> "@ + r,
        None => Seq::empty(),
    }) + " {\n"@
}

/// The head of a function, up to and including the opening brace.
pub open spec fn signature_text(f: FunctionView, depth: nat) -> Seq<char> {
    head_text(f, depth) + params_text(f) + returns_text(f)
}

pub open spec fn function_text(f: FunctionView, depth: nat) -> Seq<char> {
    signature_text(f, depth) + indent(depth + 1) + f.body + "\n"@ + indent(depth) + "}\n\n"@
}

impl Function {
    /// Appends the arguments after the receiver.
    fn write_arguments(&self, out: &mut String)
        ensures
            final(out)@ == old(out)@ + arguments_text(self@.arg),
    {
        let ghost start = out@;
        let ghost all = self@.arg.map_values(|a: ArgumentView| argument_text(a));
        let n = self.arg.len();
        if n == 0 {
            assert(out@ =~= start + arguments_text(self@.arg));
            return;
        }
        out.append(", ");
        let ghost base = out@;
        self.arg[0].write_to(out);
        assert(all.take(1) =~= seq![all[0]]);
        let mut i: usize = 1;
        while i < n
            invariant
                1 <= i <= n,
                n == self.arg@.len(),
                all == self@.arg.map_values(|a: ArgumentView| argument_text(a)),
                out@ == base + joined(all.take(i as int), ", "@),
            decreases n - i,
        {
            out.append(", ");
            self.arg[i].write_to(out);
            proof {
                let p = all.take(i + 1);
                assert(p.drop_last() =~= all.take(i as int));
                assert(p.last() == argument_text(self.arg@[i as int]@));
            }
            i = i + 1;
            assert(out@ =~= base + joined(all.take(i as int), ", "@));
        }
        assert(all.take(n as int) =~= all);
        assert(out@ =~= start + arguments_text(self@.arg));
    }

    fn write_head(&self, out: &mut String, depth: usize)
        ensures
            final(out)@ == old(out)@ + head_text(self@, depth as nat),
    {
        let ghost start = out@;
        add_depth(out, depth);
        out.append(self.access.as_str());
        if self.is_const {
            out.append(" const");
        }
        let ghost mid = out@;
        assert(mid =~= start + indent(depth as nat) + access_text(self.access) + (if self.is_const {
            " const"@
        } else {
            Seq::empty()
        }));
        out.append(" fn ");
        out.append(self.name.as_str());
        out.append("(");
        assert(out@ =~= start + head_text(self@, depth as nat));
    }

    fn write_params(&self, out: &mut String)
        ensures
            final(out)@ == old(out)@ + params_text(self@),
    {
        let ghost start = out@;
        match self.self_pass {
            Some(pass) => out.append(pass.receiver()),
            None => {},
        }
        let ghost mid = out@;
        assert(mid =~= start + match self.self_pass {
            Some(p) => self_text(p),
            None => Seq::empty(),
        });
        self.write_arguments(out);
        out.append(")");
        assert(out@ =~= start + params_text(self@));
    }

    fn write_returns(&self, out: &mut String)
        ensures
            final(out)@ == old(out)@ + returns_text(self@),
    {
        let ghost start = out@;
        match &self.ret {
            Some(ret) => {
                out.append(" -> ");
                out.append(ret.as_str());
            },
            None => {},
        }
        let ghost mid = out@;
        assert(mid =~= start + match self@.ret {
            Some(r) => " -> "@ + r,
            None => Seq::empty(),
        });
        out.append(" {\n");
        assert(out@ =~= start + returns_text(self@));
    }

    pub fn write_to(&self, out: &mut String, depth: usize)
        requires
            depth + 1 <= usize::MAX,
        ensures
            final(out)@ == old(out)@ + function_text(self@, depth as nat),
    {
        let ghost start = out@;
        self.write_head(out, depth);
        self.write_params(out);
        self.write_returns(out);
        assert(out@ =~= start + signature_text(self@, depth as nat));
        let ghost mid = out@;
        add_depth(out, depth + 1);
        out.append(self.body.as_str());
        out.append("\n");
        add_depth(out, depth);
        out.append("}\n\n");
        assert(out@ =~= start + function_text(self@, depth as nat));
    }
}

/// The texts of functions, one after the other.
pub open spec fn functions_text(fs: Seq<FunctionView>, depth: nat) -> Seq<char> {
    texts(fs, |f: FunctionView| function_text(f, depth))
}

/// Appends each function in turn.
fn write_functions(fs: &[Function], out: &mut String, depth: usize)
    requires
        depth + 1 <= usize::MAX,
    ensures
        final(out)@ == old(out)@ + functions_text(fs@.map_values(|f: Function| f@), depth as nat),
{
    let ghost start = out@;
    let ghost all = fs@.map_values(|f: Function| f@);
    let mut i: usize = 0;
    assert(all.take(0) =~= Seq::<FunctionView>::empty());
    while i < fs.len()
        invariant
            0 <= i <= fs@.len(),
            depth + 1 <= usize::MAX,
            all == fs@.map_values(|f: Function| f@),
            out@ == start + functions_text(all.take(i as int), depth as nat),
        decreases fs.len() - i,
    {
        fs[i].write_to(out, depth);
        proof {
            let p = all.take(i + 1);
            assert(p.drop_last() =~= all.take(i as int));
            assert(p.last() == fs@[i as int]@);
        }
        i = i + 1;
        assert(out@ =~= start + functions_text(all.take(i as int), depth as nat));
    }
    assert(all.take(fs@.len() as int) =~= all);
}

/// An inherent impl block as it is written.
pub struct ImplView {
    pub target: Seq<char>,
    pub functions: Seq<FunctionView>,
}

pub struct Impl {
    pub target: String,
    pub functions: Vec<Function>,
}

impl View for Impl {
    type V = ImplView;

    open spec fn view(&self) -> ImplView {
        ImplView { target: self.target@, functions: self.functions@.map_values(|f: Function| f@) }
    }
}

pub open spec fn impl_text(i: ImplView, depth: nat) -> Seq<char> {
    indent(depth) + "impl "@ + i.target + " {\n"@ + functions_text(i.functions, depth + 1) + indent(
        depth,
    ) + "}\n\n"@
}

impl Impl {
    pub fn write_to(&self, out: &mut String, depth: usize)
        requires
            depth + 2 <= usize::MAX,
        ensures
            final(out)@ == old(out)@ + impl_text(self@, depth as nat),
    {
        let ghost start = out@;
        add_depth(out, depth);
        out.append("impl ");
        out.append(self.target.as_str());
        out.append(" {\n");
        write_functions(self.functions.as_slice(), out, depth + 1);
        add_depth(out, depth);
        out.append("}\n\n");
        assert(out@ =~= start + impl_text(self@, depth as nat));
    }
}

/// A trait impl block as it is written.
pub struct TraitImplView {
    pub trait_name: Seq<char>,
    pub target: Seq<char>,
    pub functions: Seq<FunctionView>,
}

pub struct TraitImpl {
    pub trait_name: String,
    pub target: String,
    pub functions: Vec<Function>,
}

impl View for TraitImpl {
    type V = TraitImplView;

    open spec fn view(&self) -> TraitImplView {
        TraitImplView {
            trait_name: self.trait_name@,
            target: self.target@,
            functions: self.functions@.map_values(|f: Function| f@),
        }
    }
}

pub open spec fn trait_impl_text(t: TraitImplView, depth: nat) -> Seq<char> {
    indent(depth) + "impl "@ + t.trait_name + " for "@ + t.target + " {\n"@ + functions_text(
        t.functions,
        depth + 1,
    ) + indent(depth) + "}\n\n"@
}

impl TraitImpl {
    pub fn write_to(&self, out: &mut String, depth: usize)
        requires
            depth + 2 <= usize::MAX,
        ensures
            final(out)@ == old(out)@ + trait_impl_text(self@, depth as nat),
    {
        let ghost start = out@;
        add_depth(out, depth);
        out.append("impl ");
        out.append(self.trait_name.as_str());
        out.append(" for ");
        out.append(self.target.as_str());
        out.append(" {\n");
        write_functions(self.functions.as_slice(), out, depth + 1);
        add_depth(out, depth);
        out.append("}\n\n");
        assert(out@ =~= start + trait_impl_text(self@, depth as nat));
    }
}

/// An enum as it is written.
pub struct EnumView {
    pub derives: Seq<Seq<char>>,
    pub access: Access,
    pub name: Seq<char>,
    pub variants: Seq<Seq<char>>,
}

pub struct Enum {
    pub derives: DeriveList,
    pub access: Access,
    pub name: String,
    pub variants: Vec<String>,
}

impl View for Enum {
    type V = EnumView;

    open spec fn view(&self) -> EnumView {
        EnumView {
            derives: self.derives@,
            access: self.access,
            name: self.name@,
            variants: self.variants@.map_values(|s: String| s@),
        }
    }
}

/// One variant line of an enum.
pub open spec fn variant_text(v: Seq<char>, depth: nat) -> Seq<char> {
    indent(depth) + v + ",\n"@
}

pub open spec fn enum_text(e: EnumView, depth: nat) -> Seq<char> {
    derive_text(e.derives, depth) + indent(depth) + access_text(e.access) + " enum "@ + e.name
        + " {\n"@ + texts(e.variants, |v: Seq<char>| variant_text(v, depth as nat + 1)) + indent(depth)
        + "}\n\n"@
}

impl Enum {
    pub fn new(name: &str) -> (r: Self)
        ensures
            r@ == (EnumView {
                derives: Seq::empty(),
                access: Access::Private,
                name: name@,
                variants: Seq::empty(),
            }),
    {
        let r = Enum {
            derives: DeriveList::new(),
            access: Access::Private,
            name: name.to_owned(),
            variants: Vec::new(),
        };
        assert(r@.variants =~= Seq::<Seq<char>>::empty());
        r
    }

    pub fn write_to(&self, out: &mut String, depth: usize)
        requires
            depth + 1 <= usize::MAX,
        ensures
            final(out)@ == old(out)@ + enum_text(self@, depth as nat),
    {
        let ghost start = out@;
        self.derives.write_to(out, depth);
        add_depth(out, depth);
        out.append(self.access.as_str());
        out.append(" enum ");
        out.append(self.name.as_str());
        out.append(" {\n");
        let ghost base = out@;
        let ghost all = self@.variants;
        let mut i: usize = 0;
        assert(all.take(0) =~= Seq::<Seq<char>>::empty());
        while i < self.variants.len()
            invariant
                0 <= i <= self.variants@.len(),
                depth + 1 <= usize::MAX,
                all == self@.variants,
                out@ == base + texts(all.take(i as int), |v: Seq<char>| variant_text(v, depth as nat + 1)),
            decreases self.variants.len() - i,
        {
            add_depth(out, depth + 1);
            out.append(self.variants[i].as_str());
            out.append(",\n");
            proof {
                let p = all.take(i + 1);
                assert(p.drop_last() =~= all.take(i as int));
                assert(p.last() == self.variants@[i as int]@);
            }
            i = i + 1;
            assert(out@ =~= base + texts(all.take(i as int), |v: Seq<char>| variant_text(v, depth as nat + 1)));
        }
        assert(all.take(self.variants@.len() as int) =~= all);
        add_depth(out, depth);
        out.append("}\n\n");
        assert(out@ =~= start + enum_text(self@, depth as nat));
    }
}

/// A struct as it is written, with the impl blocks that follow it.
pub struct StructView {
    pub add_repr: bool,
    pub derives: Seq<Seq<char>>,
    pub access: Access,
    pub name: Seq<char>,
    pub fields: Seq<FieldView>,
    pub trait_impls: Seq<TraitImplView>,
    pub impls: Seq<ImplView>,
}

pub struct Struct {
    pub add_repr: bool,
    pub derives: DeriveList,
    pub access: Access,
    pub name: String,
    pub fields: Vec<Field>,
    pub trait_impls: Vec<TraitImpl>,
    pub impls: Vec<Impl>,
}

impl View for Struct {
    type V = StructView;

    open spec fn view(&self) -> StructView {
        StructView {
            add_repr: self.add_repr,
            derives: self.derives@,
            access: self.access,
            name: self.name@,
            fields: self.fields@.map_values(|f: Field| f@),
            trait_impls: self.trait_impls@.map_values(|t: TraitImpl| t@),
            impls: self.impls@.map_values(|i: Impl| i@),
        }
    }
}

/// The attributes and the head of a struct, up to the opening brace.
pub open spec fn struct_head_text(s: StructView, depth: nat) -> Seq<char> {
    (if s.add_repr {
        indent(depth) + "#[repr(C, align(32))]\n"@
    } else {
        Seq::empty()
    }) + derive_text(s.derives, depth) + indent(depth) + access_text(s.access) + " struct "@
        + s.name + " {\n"@
}

/// The struct's declaration, from its attributes to its closing brace.
pub open spec fn struct_decl_text(s: StructView, depth: nat) -> Seq<char> {
    struct_head_text(s, depth) + texts(s.fields, |f: FieldView| field_text(f, depth + 1)) + indent(
        depth,
    ) + "}\n\n"@
}

pub open spec fn struct_text(s: StructView, depth: nat) -> Seq<char> {
    struct_decl_text(s, depth) + texts(
        s.trait_impls,
        |t: TraitImplView| trait_impl_text(t, depth),
    ) + texts(s.impls, |i: ImplView| impl_text(i, depth))
}

impl Struct {
    pub fn new(name: &str) -> (r: Self)
        ensures
            r@ == (StructView {
                add_repr: false,
                derives: Seq::empty(),
                access: Access::Private,
                name: name@,
                fields: Seq::empty(),
                trait_impls: Seq::empty(),
                impls: Seq::empty(),
            }),
    {
        let r = Struct {
            add_repr: false,
            derives: DeriveList::new(),
            access: Access::Private,
            name: name.to_owned(),
            fields: Vec::new(),
            trait_impls: Vec::new(),
            impls: Vec::new(),
        };
        assert(r@.fields =~= Seq::<FieldView>::empty());
        assert(r@.trait_impls =~= Seq::<TraitImplView>::empty());
        assert(r@.impls =~= Seq::<ImplView>::empty());
        r
    }

    fn write_head(&self, out: &mut String, depth: usize)
        ensures
            final(out)@ == old(out)@ + struct_head_text(self@, depth as nat),
    {
        let ghost start = out@;
        if self.add_repr {
            add_depth(out, depth);
            out.append("#[repr(C, align(32))]\n");
        }
        let ghost mid = out@;
        assert(mid =~= start + (if self.add_repr {
            indent(depth as nat) + "#[repr(C, align(32))]\n"@
        } else {
            Seq::empty()
        }));
        self.derives.write_to(out, depth);
        add_depth(out, depth);
        out.append(self.access.as_str());
        out.append(" struct ");
        out.append(self.name.as_str());
        out.append(" {\n");
        assert(out@ =~= start + struct_head_text(self@, depth as nat));
    }

    fn write_fields(&self, out: &mut String, depth: usize)
        ensures
            final(out)@ == old(out)@ + texts(self@.fields, |f: FieldView| field_text(f, depth as nat)),
    {
        let ghost start = out@;
        let ghost all = self@.fields;
        let mut i: usize = 0;
        assert(all.take(0) =~= Seq::<FieldView>::empty());
        while i < self.fields.len()
            invariant
                0 <= i <= self.fields@.len(),
                all == self@.fields,
                out@ == start + texts(all.take(i as int), |f: FieldView| field_text(f, depth as nat)),
            decreases self.fields.len() - i,
        {
            self.fields[i].write_to(out, depth);
            proof {
                let p = all.take(i + 1);
                assert(p.drop_last() =~= all.take(i as int));
                assert(p.last() == self.fields@[i as int]@);
            }
            i = i + 1;
            assert(out@ =~= start + texts(all.take(i as int), |f: FieldView| field_text(f, depth as nat)));
        }
        assert(all.take(self.fields@.len() as int) =~= all);
    }

    fn write_blocks(&self, out: &mut String, depth: usize)
        requires
            depth + 2 <= usize::MAX,
        ensures
            final(out)@ == old(out)@ + texts(
                self@.trait_impls,
                |t: TraitImplView| trait_impl_text(t, depth as nat),
            ) + texts(self@.impls, |i: ImplView| impl_text(i, depth as nat)),
    {
        let ghost start = out@;
        let ghost traits = self@.trait_impls;
        let mut i: usize = 0;
        assert(traits.take(0) =~= Seq::<TraitImplView>::empty());
        while i < self.trait_impls.len()
            invariant
                0 <= i <= self.trait_impls@.len(),
                depth + 2 <= usize::MAX,
                traits == self@.trait_impls,
                out@ == start + texts(
                    traits.take(i as int),
                    |t: TraitImplView| trait_impl_text(t, depth as nat),
                ),
            decreases self.trait_impls.len() - i,
        {
            self.trait_impls[i].write_to(out, depth);
            proof {
                let p = traits.take(i + 1);
                assert(p.drop_last() =~= traits.take(i as int));
                assert(p.last() == self.trait_impls@[i as int]@);
            }
            i = i + 1;
            assert(out@ =~= start + texts(
                traits.take(i as int),
                |t: TraitImplView| trait_impl_text(t, depth as nat),
            ));
        }
        assert(traits.take(self.trait_impls@.len() as int) =~= traits);
        let ghost mid = out@;
        let ghost impls = self@.impls;
        let mut k: usize = 0;
        assert(impls.take(0) =~= Seq::<ImplView>::empty());
        while k < self.impls.len()
            invariant
                0 <= k <= self.impls@.len(),
                depth + 2 <= usize::MAX,
                impls == self@.impls,
                out@ == mid + texts(impls.take(k as int), |b: ImplView| impl_text(b, depth as nat)),
            decreases self.impls.len() - k,
        {
            self.impls[k].write_to(out, depth);
            proof {
                let p = impls.take(k + 1);
                assert(p.drop_last() =~= impls.take(k as int));
                assert(p.last() == self.impls@[k as int]@);
            }
            k = k + 1;
            assert(out@ =~= mid + texts(impls.take(k as int), |b: ImplView| impl_text(b, depth as nat)));
        }
        assert(impls.take(self.impls@.len() as int) =~= impls);
        assert(out@ =~= start + texts(
            self@.trait_impls,
            |t: TraitImplView| trait_impl_text(t, depth as nat),
        ) + texts(self@.impls, |b: ImplView| impl_text(b, depth as nat)));
    }

    pub fn write_to(&self, out: &mut String, depth: usize)
        requires
            depth + 2 <= usize::MAX,
        ensures
            final(out)@ == old(out)@ + struct_text(self@, depth as nat),
    {
        let ghost start = out@;
        self.write_head(out, depth);
        self.write_fields(out, depth + 1);
        add_depth(out, depth);
        out.append("}\n\n");
        assert(out@ =~= start + struct_decl_text(self@, depth as nat));
        self.write_blocks(out, depth);
        assert(out@ =~= start + struct_text(self@, depth as nat));
    }
}

/// A module as it is written.
pub struct ModuleView {
    pub access: Access,
    pub name: Seq<char>,
    pub enums: Seq<EnumView>,
    pub structs: Seq<StructView>,
}

pub struct Module {
    pub access: Access,
    pub name: String,
    pub enums: Vec<Enum>,
    pub structs: Vec<Struct>,
}

impl View for Module {
    type V = ModuleView;

    open spec fn view(&self) -> ModuleView {
        ModuleView {
            access: self.access,
            name: self.name@,
            enums: self.enums@.map_values(|e: Enum| e@),
            structs: self.structs@.map_values(|s: Struct| s@),
        }
    }
}

pub open spec fn module_text(m: ModuleView, depth: nat) -> Seq<char> {
    indent(depth) + access_text(m.access) + " mod "@ + m.name + " {\n"@ + texts(
        m.enums,
        |e: EnumView| enum_text(e, depth + 1),
    ) + texts(m.structs, |s: StructView| struct_text(s, depth + 1)) + indent(depth) + "}\n\n"@
}

impl Module {
    pub fn new(name: &str) -> (r: Self)
        ensures
            r@ == (ModuleView {
                access: Access::Private,
                name: name@,
                enums: Seq::empty(),
                structs: Seq::empty(),
            }),
    {
        let r = Module {
            access: Access::Private,
            name: name.to_owned(),
            enums: Vec::new(),
            structs: Vec::new(),
        };
        assert(r@.enums =~= Seq::<EnumView>::empty());
        assert(r@.structs =~= Seq::<StructView>::empty());
        r
    }

    fn write_items(&self, out: &mut String, depth: usize)
        requires
            depth + 3 <= usize::MAX,
        ensures
            final(out)@ == old(out)@ + texts(self@.enums, |e: EnumView| enum_text(e, depth as nat + 1))
                + texts(self@.structs, |s: StructView| struct_text(s, depth as nat + 1)),
    {
        let ghost start = out@;
        let ghost enums = self@.enums;
        let mut i: usize = 0;
        assert(enums.take(0) =~= Seq::<EnumView>::empty());
        while i < self.enums.len()
            invariant
                0 <= i <= self.enums@.len(),
                depth + 3 <= usize::MAX,
                enums == self@.enums,
                out@ == start + texts(enums.take(i as int), |e: EnumView| enum_text(e, depth as nat + 1)),
            decreases self.enums.len() - i,
        {
            self.enums[i].write_to(out, depth + 1);
            proof {
                let p = enums.take(i + 1);
                assert(p.drop_last() =~= enums.take(i as int));
                assert(p.last() == self.enums@[i as int]@);
            }
            i = i + 1;
            assert(out@ =~= start + texts(enums.take(i as int), |e: EnumView| enum_text(e, depth as nat + 1)));
        }
        assert(enums.take(self.enums@.len() as int) =~= enums);
        let ghost mid = out@;
        let ghost structs = self@.structs;
        let mut k: usize = 0;
        assert(structs.take(0) =~= Seq::<StructView>::empty());
        while k < self.structs.len()
            invariant
                0 <= k <= self.structs@.len(),
                depth + 3 <= usize::MAX,
                structs == self@.structs,
                out@ == mid + texts(structs.take(k as int), |s: StructView| struct_text(s, depth as nat + 1)),
            decreases self.structs.len() - k,
        {
            self.structs[k].write_to(out, depth + 1);
            proof {
                let p = structs.take(k + 1);
                assert(p.drop_last() =~= structs.take(k as int));
                assert(p.last() == self.structs@[k as int]@);
            }
            k = k + 1;
            assert(out@ =~= mid + texts(structs.take(k as int), |s: StructView| struct_text(s, depth as nat + 1)));
        }
        assert(structs.take(self.structs@.len() as int) =~= structs);
        assert(out@ =~= start + texts(self@.enums, |e: EnumView| enum_text(e, depth as nat + 1))
            + texts(self@.structs, |s: StructView| struct_text(s, depth as nat + 1)));
    }

    pub fn write_to(&self, out: &mut String, depth: usize)
        requires
            depth + 3 <= usize::MAX,
        ensures
            final(out)@ == old(out)@ + module_text(self@, depth as nat),
    {
        let ghost start = out@;
        add_depth(out, depth);
        out.append(self.access.as_str());
        out.append(" mod ");
        out.append(self.name.as_str());
        out.append(" {\n");
        self.write_items(out, depth);
        add_depth(out, depth);
        out.append("}\n\n");
        assert(out@ =~= start + module_text(self@, depth as nat));
    }
}

} // verus!
