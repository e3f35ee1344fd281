//! The protocol tree: the token stream grouped into groups, messages,
//! structs and enums, with every name interned.
use vstd::prelude::*;

use crate::bounded::BoundedVec;
use crate::constraints::{
    MAX_ENUMS, MAX_FIELDS, MAX_GROUPS, MAX_MESSAGES, MAX_MESSAGES_PER_GROUP, MAX_STRUCTS, MAX_VARIANTS,
};
use crate::error::{ErrorView, ProtocolError};
use crate::nodes::{
    EnumNode, FieldNode, FieldTypeNode, GroupNode, MessageNode, Range, StructNode,
    spec_field_type,
};
use crate::pool::{StringId, StringPool, StringPoolIntern, intern_pool, lemma_prefix_trans, spec_intern};
use crate::shape::{lemma_tree_tiles, tree_tiles};
use crate::token::{Token, TokenView, token_text, tokens_view};

verus! {

/// The item whose children the next tokens may add.
pub enum OpenItem {
    Nothing,
    Message { name: Seq<char>, remainder: Option<StringId> },
    Struct { name: Seq<char> },
    Enum { name: Seq<char> },
}

#[verifier::ext_equal]
/// The state of tree building: the pool, the flat lists, the runs being
/// collected for the next message/struct/enum/group, the current group and
/// the open item.
pub struct TreeModel {
    pub pool: Seq<Seq<char>>,
    pub groups: Seq<GroupNode>,
    pub messages: Seq<MessageNode>,
    pub fields: Seq<FieldNode>,
    pub structs: Seq<StructNode>,
    pub enums: Seq<EnumNode>,
    pub variants: Seq<StringId>,
    pub variant_b: Range,
    pub field_b: Range,
    pub message_b: Range,
    pub struct_b: Range,
    pub enum_b: Range,
    pub group_name: Option<StringId>,
    pub open: OpenItem,
}

/// A run that grows by one element.
pub open spec fn run_next(b: Range) -> Range {
    Range { start: b.start, len: (b.len + 1) as usize }
}

/// The empty run that follows a run.
pub open spec fn run_after(b: Range) -> Range {
    Range { start: (b.start + b.len) as usize, len: 0 }
}

/// A run after `k` more elements have joined it.
pub open spec fn run_grown(b: Range, k: nat) -> Range
    decreases k,
{
    if k == 0 {
        b
    } else {
        run_next(run_grown(b, (k - 1) as nat))
    }
}

/// Runs taken one after the other follow one another: once a run is
/// taken, the next one starts where it ended and holds exactly the
/// elements added since, so two runs never overlap.
pub proof fn lemma_runs_consecutive(r: Range, k: nat)
    requires
        r.start + r.len + k <= usize::MAX,
    ensures
        run_grown(run_after(r), k) == (Range { start: (r.start + r.len) as usize, len: k as usize }),
    decreases k,
{
    if k > 0 {
        lemma_runs_consecutive(r, (k - 1) as nat);
    }
}

/// The state before any token.
pub open spec fn tree_init(pool: Seq<Seq<char>>) -> TreeModel {
    TreeModel {
        pool,
        groups: Seq::empty(),
        messages: Seq::empty(),
        fields: Seq::empty(),
        structs: Seq::empty(),
        enums: Seq::empty(),
        variants: Seq::empty(),
        variant_b: Range { start: 0, len: 0 },
        field_b: Range { start: 0, len: 0 },
        message_b: Range { start: 0, len: 0 },
        struct_b: Range { start: 0, len: 0 },
        enum_b: Range { start: 0, len: 0 },
        group_name: None,
        open: OpenItem::Nothing,
    }
}

/// Closing the open item: it is named and added to its list, taking the
/// fields (or variants) collected since the previous one. A message is
/// refused when the protocol or its group is already full.
pub open spec fn spec_close_open(m: TreeModel) -> Result<TreeModel, ErrorView> {
    match m.open {
        OpenItem::Nothing => Ok(m),
        OpenItem::Message { name, remainder } => match spec_intern(m.pool, name) {
            Err(e) => Err(e),
            Ok((pool, id)) => if m.messages.len() >= MAX_MESSAGES || m.message_b.len
                >= MAX_MESSAGES_PER_GROUP {
                Err(ErrorView::TooManyMessages)
            } else {
                Ok(
                    TreeModel {
                        pool,
                        messages: m.messages.push(
                            MessageNode { name: StringId { value: id }, fields: m.field_b, remainder },
                        ),
                        field_b: run_after(m.field_b),
                        message_b: run_next(m.message_b),
                        open: OpenItem::Nothing,
                        ..m
                    },
                )
            },
        },
        OpenItem::Struct { name } => match spec_intern(m.pool, name) {
            Err(e) => Err(e),
            Ok((pool, id)) => if m.structs.len() >= MAX_STRUCTS {
                Err(ErrorView::TooManyStructs)
            } else {
                Ok(
                    TreeModel {
                        pool,
                        structs: m.structs.push(
                            StructNode { name: StringId { value: id }, fields: m.field_b },
                        ),
                        field_b: run_after(m.field_b),
                        struct_b: run_next(m.struct_b),
                        open: OpenItem::Nothing,
                        ..m
                    },
                )
            },
        },
        OpenItem::Enum { name } => match spec_intern(m.pool, name) {
            Err(e) => Err(e),
            Ok((pool, id)) => if m.enums.len() >= MAX_ENUMS {
                Err(ErrorView::TooManyEnums)
            } else {
                Ok(
                    TreeModel {
                        pool,
                        enums: m.enums.push(
                            EnumNode { name: StringId { value: id }, variants: m.variant_b },
                        ),
                        variant_b: run_after(m.variant_b),
                        enum_b: run_next(m.enum_b),
                        open: OpenItem::Nothing,
                        ..m
                    },
                )
            },
        },
    }
}

/// Closing the current group: it takes the messages, structs and enums
/// collected since the previous group.
pub open spec fn spec_close_group(m: TreeModel) -> Result<TreeModel, ErrorView> {
    match m.group_name {
        None => Ok(m),
        Some(name) => if m.groups.len() >= MAX_GROUPS {
            Err(ErrorView::TooManyGroups)
        } else {
            Ok(
                TreeModel {
                    groups: m.groups.push(
                        GroupNode {
                            name,
                            messages: m.message_b,
                            structs: m.struct_b,
                            enums: m.enum_b,
                        },
                    ),
                    message_b: run_after(m.message_b),
                    struct_b: run_after(m.struct_b),
                    enum_b: run_after(m.enum_b),
                    group_name: None,
                    ..m
                },
            )
        },
    }
}

/// Whether the open item takes a field.
pub open spec fn takes_field(open: OpenItem) -> bool {
    match open {
        OpenItem::Message { remainder, .. } => remainder is None,
        OpenItem::Struct { .. } => true,
        _ => false,
    }
}

/// Whether the open item takes a remainder.
pub open spec fn takes_remainder(open: OpenItem) -> bool {
    match open {
        OpenItem::Message { remainder, .. } => remainder is None,
        _ => false,
    }
}

/// Adding a field to the open item.
pub open spec fn spec_add_field(m: TreeModel, name: Seq<char>, kind: Seq<char>) -> Result<
    TreeModel,
    ErrorView,
> {
    match spec_intern(m.pool, name) {
        Err(e) => Err(e),
        Ok((p1, id)) => match spec_field_type(p1, kind) {
            Err(e) => Err(e),
            Ok((p2, node)) => if m.fields.len() >= MAX_FIELDS {
                Err(ErrorView::TooManyFields)
            } else {
                Ok(
                    TreeModel {
                        pool: p2,
                        fields: m.fields.push(FieldNode { name: StringId { value: id }, kind: node }),
                        field_b: run_next(m.field_b),
                        ..m
                    },
                )
            },
        },
    }
}

/// Adding a variant to the open enum.
pub open spec fn spec_add_variant(m: TreeModel, name: Seq<char>) -> Result<TreeModel, ErrorView> {
    match spec_intern(m.pool, name) {
        Err(e) => Err(e),
        Ok((pool, id)) => if m.variants.len() >= MAX_VARIANTS {
            Err(ErrorView::TooManyVariants)
        } else {
            Ok(
                TreeModel {
                    pool,
                    variants: m.variants.push(StringId { value: id }),
                    variant_b: run_next(m.variant_b),
                    ..m
                },
            )
        },
    }
}

/// Starting a new item with a token that is not a child of the open item
/// (which is closed first): a group, a message, a struct or an enum;
/// anything else is unexpected.
pub open spec fn spec_start_item(m: TreeModel, t: TokenView) -> Result<TreeModel, ErrorView> {
    match t {
        TokenView::Group { name } => match spec_close_group(m) {
            Err(e) => Err(e),
            Ok(m1) => match spec_intern(m1.pool, name) {
                Err(e) => Err(e),
                Ok((pool, id)) => Ok(
                    TreeModel { pool, group_name: Some(StringId { value: id }), ..m1 },
                ),
            },
        },
        TokenView::Message { name } => Ok(
            TreeModel { open: OpenItem::Message { name, remainder: None }, ..m },
        ),
        TokenView::Struct { name } => Ok(TreeModel { open: OpenItem::Struct { name }, ..m }),
        TokenView::Enum { name } => Ok(TreeModel { open: OpenItem::Enum { name }, ..m }),
        _ => Err(ErrorView::UnexpectedToken(token_text(t))),
    }
}

/// One token: a child of the open item joins it, any other token closes
/// the open item and starts a new one.
pub open spec fn spec_step(m: TreeModel, t: TokenView) -> Result<TreeModel, ErrorView> {
    match t {
        TokenView::Field { name, kind } if takes_field(m.open) => spec_add_field(m, name, kind),
        TokenView::Remainder { name } if takes_remainder(m.open) => match spec_intern(
            m.pool,
            name,
        ) {
            Err(e) => Err(e),
            Ok((pool, id)) => Ok(
                TreeModel {
                    pool,
                    open: OpenItem::Message {
                        name: m.open->Message_name,
                        remainder: Some(StringId { value: id }),
                    },
                    ..m
                },
            ),
        },
        TokenView::Variant { name } if m.open is Enum => spec_add_variant(m, name),
        _ => match spec_close_open(m) {
            Err(e) => Err(e),
            Ok(m1) => spec_start_item(m1, t),
        },
    }
}

/// The tokens, one after the other.
pub open spec fn spec_run(m: TreeModel, tokens: Seq<TokenView>) -> Result<TreeModel, ErrorView>
    decreases tokens.len(),
{
    if tokens.len() == 0 {
        Ok(m)
    } else {
        match spec_step(m, tokens[0]) {
            Err(e) => Err(e),
            Ok(m1) => spec_run(m1, tokens.drop_first()),
        }
    }
}

/// The end of the tokens: the open item and the current group are closed.
pub open spec fn spec_finish(m: TreeModel) -> Result<TreeModel, ErrorView> {
    match spec_close_open(m) {
        Err(e) => Err(e),
        Ok(m1) => spec_close_group(m1),
    }
}

/// The tree of a token list: the first token must be `<protocol>`; the
/// others are run in order; the protocol's name is interned last. Gives
/// the final state and the protocol name's identifier.
pub open spec fn spec_tree(tokens: Seq<TokenView>, pool: Seq<Seq<char>>) -> Result<
    (TreeModel, u16),
    ErrorView,
> {
    match tokens[0] {
        TokenView::Protocol { name, .. } => match spec_run(tree_init(pool), tokens.drop_first()) {
            Err(e) => Err(e),
            Ok(m) => match spec_finish(m) {
                Err(e) => Err(e),
                Ok(m1) => match spec_intern(m1.pool, name) {
                    Err(e) => Err(e),
                    Ok((p, id)) => Ok((TreeModel { pool: p, ..m1 }, id)),
                },
            },
        },
        _ => Err(ErrorView::MissingProtocolToken),
    }
}

/// The pool after giving a field its type, whether or not that succeeds.
pub open spec fn field_type_pool(pool: Seq<Seq<char>>, kind: Seq<char>) -> Seq<Seq<char>> {
    match spec_field_type(pool, kind) {
        Ok((p, _)) => p,
        Err(_) => pool,
    }
}

/// The pool after closing the open item: its name is interned, even when
/// its list then turns out to be full.
pub open spec fn close_open_pool(m: TreeModel) -> Seq<Seq<char>> {
    match m.open {
        OpenItem::Nothing => m.pool,
        OpenItem::Message { name, .. } => intern_pool(m.pool, name),
        OpenItem::Struct { name } => intern_pool(m.pool, name),
        OpenItem::Enum { name } => intern_pool(m.pool, name),
    }
}

/// The pool after adding a field.
pub open spec fn add_field_pool(m: TreeModel, name: Seq<char>, kind: Seq<char>) -> Seq<Seq<char>> {
    match spec_intern(m.pool, name) {
        Err(_) => m.pool,
        Ok((p1, _)) => field_type_pool(p1, kind),
    }
}

/// The pool after starting a new item.
pub open spec fn start_item_pool(m: TreeModel, t: TokenView) -> Seq<Seq<char>> {
    match t {
        TokenView::Group { name } => match spec_close_group(m) {
            Err(_) => m.pool,
            Ok(_) => intern_pool(m.pool, name),
        },
        _ => m.pool,
    }
}

/// The pool after one token, whether or not the token is accepted.
pub open spec fn step_pool(m: TreeModel, t: TokenView) -> Seq<Seq<char>> {
    match t {
        TokenView::Field { name, kind } if takes_field(m.open) => add_field_pool(m, name, kind),
        TokenView::Remainder { name } if takes_remainder(m.open) => intern_pool(m.pool, name),
        TokenView::Variant { name } if m.open is Enum => intern_pool(m.pool, name),
        _ => match spec_close_open(m) {
            Err(_) => close_open_pool(m),
            Ok(m1) => start_item_pool(m1, t),
        },
    }
}

/// The pool after the tokens, up to the first one refused.
pub open spec fn run_pool(m: TreeModel, tokens: Seq<TokenView>) -> Seq<Seq<char>>
    decreases tokens.len(),
{
    if tokens.len() == 0 {
        m.pool
    } else {
        match spec_step(m, tokens[0]) {
            Err(_) => step_pool(m, tokens[0]),
            Ok(m1) => run_pool(m1, tokens.drop_first()),
        }
    }
}

/// The pool after building the tree of a token list, whether or not it
/// can be built.
pub open spec fn tree_pool(tokens: Seq<TokenView>, pool: Seq<Seq<char>>) -> Seq<Seq<char>> {
    match tokens[0] {
        TokenView::Protocol { name, .. } => match spec_run(tree_init(pool), tokens.drop_first()) {
            Err(_) => run_pool(tree_init(pool), tokens.drop_first()),
            Ok(m) => match spec_close_open(m) {
                Err(_) => close_open_pool(m),
                Ok(m1) => match spec_close_group(m1) {
                    Err(_) => m1.pool,
                    Ok(m2) => intern_pool(m2.pool, name),
                },
            },
        },
        _ => pool,
    }
}

/// The version and access attributes of a `<protocol>` token.
pub open spec fn protocol_attrs(t: TokenView) -> (Seq<char>, Seq<char>) {
    match t {
        TokenView::Protocol { version, access, .. } => (version, access),
        _ => (Seq::empty(), Seq::empty()),
    }
}

/// Every run ends where its list ends, and every list (and the current
/// group's messages) stays within its limit.
pub open spec fn runs_consistent(m: TreeModel) -> bool {
    &&& m.variant_b.start + m.variant_b.len == m.variants.len()
    &&& m.field_b.start + m.field_b.len == m.fields.len()
    &&& m.message_b.start + m.message_b.len == m.messages.len()
    &&& m.struct_b.start + m.struct_b.len == m.structs.len()
    &&& m.enum_b.start + m.enum_b.len == m.enums.len()
    &&& m.groups.len() <= MAX_GROUPS
    &&& m.messages.len() <= MAX_MESSAGES
    &&& m.message_b.len <= MAX_MESSAGES_PER_GROUP
    &&& m.fields.len() <= MAX_FIELDS
    &&& m.structs.len() <= MAX_STRUCTS
    &&& m.enums.len() <= MAX_ENUMS
    &&& m.variants.len() <= MAX_VARIANTS
}

/// Building the tree keeps every run consistent with its list.
pub proof fn lemma_step_consistent(m: TreeModel, t: TokenView)
    requires
        runs_consistent(m),
    ensures
        spec_step(m, t) matches Ok(m1) ==> runs_consistent(m1),
{
}


/// A run being collected: it starts at `start` and holds `len` elements.
struct RangeBuilder {
    start: usize,
    len: usize,
}

impl RangeBuilder {
    spec fn model(&self) -> Range {
        Range { start: self.start, len: self.len }
    }

    fn new() -> (r: Self)
        ensures
            r.model() == (Range { start: 0, len: 0 }),
    {
        RangeBuilder { start: 0, len: 0 }
    }

    fn next(&mut self)
        requires
            old(self).start + old(self).len + 1 <= usize::MAX,
        ensures
            final(self).model() == run_next(old(self).model()),
    {
        self.len += 1;
    }

    fn build(&mut self) -> (r: Range)
        requires
            old(self).start + old(self).len <= usize::MAX,
        ensures
            r == old(self).model(),
            final(self).model() == run_after(old(self).model()),
    {
        let range = Range { start: self.start, len: self.len };
        self.start += self.len;
        self.len = 0;
        range
    }
}

/// The open item, with its name not yet interned.
enum Open {
    Nothing,
    Message { name: String, remainder: Option<StringId> },
    Struct { name: String },
    Enum { name: String },
}

spec fn open_model(o: Open) -> OpenItem {
    match o {
        Open::Nothing => OpenItem::Nothing,
        Open::Message { name, remainder } => OpenItem::Message { name: name@, remainder },
        Open::Struct { name } => OpenItem::Struct { name: name@ },
        Open::Enum { name } => OpenItem::Enum { name: name@ },
    }
}

struct TreeBuilder {
    groups: BoundedVec<GroupNode, MAX_GROUPS>,
    messages: BoundedVec<MessageNode, MAX_MESSAGES>,
    fields: BoundedVec<FieldNode, MAX_FIELDS>,
    structs: BoundedVec<StructNode, MAX_STRUCTS>,
    enums: BoundedVec<EnumNode, MAX_ENUMS>,
    variants: BoundedVec<StringId, MAX_VARIANTS>,
    variant_b: RangeBuilder,
    field_b: RangeBuilder,
    message_b: RangeBuilder,
    struct_b: RangeBuilder,
    enum_b: RangeBuilder,
    group_name: Option<StringId>,
    open: Open,
}

impl TreeBuilder {
    spec fn model(&self, pool: Seq<Seq<char>>) -> TreeModel {
        TreeModel {
            pool,
            groups: self.groups@,
            messages: self.messages@,
            fields: self.fields@,
            structs: self.structs@,
            enums: self.enums@,
            variants: self.variants@,
            variant_b: self.variant_b.model(),
            field_b: self.field_b.model(),
            message_b: self.message_b.model(),
            struct_b: self.struct_b.model(),
            enum_b: self.enum_b.model(),
            group_name: self.group_name,
            open: open_model(self.open),
        }
    }

    fn new() -> (r: Self)
        ensures
            forall|pool: Seq<Seq<char>>| #[trigger] r.model(pool) =~= tree_init(pool),
    {
        TreeBuilder {
            groups: BoundedVec::new(),
            messages: BoundedVec::new(),
            fields: BoundedVec::new(),
            structs: BoundedVec::new(),
            enums: BoundedVec::new(),
            variants: BoundedVec::new(),
            variant_b: RangeBuilder::new(),
            field_b: RangeBuilder::new(),
            message_b: RangeBuilder::new(),
            struct_b: RangeBuilder::new(),
            enum_b: RangeBuilder::new(),
            group_name: None,
            open: Open::Nothing,
        }
    }

    fn close_open(&mut self, pool: &mut StringPool) -> (r: Result<(), ProtocolError>)
        requires
            old(pool).wf(),
            runs_consistent(old(self).model(old(pool)@)),
        ensures
            final(pool).wf(),
            old(pool)@.is_prefix_of(final(pool)@),
            match spec_close_open(old(self).model(old(pool)@)) {
                Ok(m) => r is Ok && final(self).model(final(pool)@) =~= m && runs_consistent(m),
                Err(e) => r matches Err(re) && re@ == e,
            },
            final(pool)@ == close_open_pool(old(self).model(old(pool)@)),
    {
        let ghost pool0 = pool@;
        let mut open = Open::Nothing;
        core::mem::swap(&mut open, &mut self.open);
        match open {
            Open::Nothing => {
                assert(pool0 =~= pool0.subrange(0, pool0.len() as int));
                Ok(())
            },
            Open::Message { name, remainder } => {
                let id = name.intern(pool)?;
                if self.message_b.len >= MAX_MESSAGES_PER_GROUP {
                    return Err(ProtocolError::TooManyMessages);
                }
                self.message_b.next();
                let fields = self.field_b.build();
                if !self.messages.push(MessageNode { name: id, fields, remainder }) {
                    return Err(ProtocolError::TooManyMessages);
                }
                Ok(())
            },
            Open::Struct { name } => {
                self.struct_b.next();
                let id = name.intern(pool)?;
                let fields = self.field_b.build();
                if !self.structs.push(StructNode { name: id, fields }) {
                    return Err(ProtocolError::TooManyStructs);
                }
                Ok(())
            },
            Open::Enum { name } => {
                self.enum_b.next();
                let id = name.intern(pool)?;
                let variants = self.variant_b.build();
                if !self.enums.push(EnumNode { name: id, variants }) {
                    return Err(ProtocolError::TooManyEnums);
                }
                Ok(())
            },
        }
    }

    fn close_group(&mut self, pool: &StringPool) -> (r: Result<(), ProtocolError>)
        requires
            runs_consistent(old(self).model(pool@)),
        ensures
            match spec_close_group(old(self).model(pool@)) {
                Ok(m) => r is Ok && final(self).model(pool@) =~= m && runs_consistent(m),
                Err(e) => r matches Err(re) && re@ == e,
            },
    {
        match self.group_name {
            None => Ok(()),
            Some(name) => {
                let messages = self.message_b.build();
                let structs = self.struct_b.build();
                let enums = self.enum_b.build();
                if !self.groups.push(GroupNode { name, messages, structs, enums }) {
                    return Err(ProtocolError::TooManyGroups);
                }
                self.group_name = None;
                Ok(())
            },
        }
    }

    fn add_field(&mut self, name: &String, kind: &String, pool: &mut StringPool) -> (r: Result<
        (),
        ProtocolError,
    >)
        requires
            old(pool).wf(),
            runs_consistent(old(self).model(old(pool)@)),
        ensures
            final(pool).wf(),
            old(pool)@.is_prefix_of(final(pool)@),
            match spec_add_field(old(self).model(old(pool)@), name@, kind@) {
                Ok(m) => r is Ok && final(self).model(final(pool)@) =~= m && runs_consistent(m),
                Err(e) => r matches Err(re) && re@ == e,
            },
            final(pool)@ == add_field_pool(old(self).model(old(pool)@), name@, kind@),
    {
        let ghost pool0 = pool@;
        let id = name.intern(pool)?;
        let ghost pool1 = pool@;
        let node = match FieldTypeNode::new(kind.as_str(), pool) {
            Ok(node) => node,
            Err(e) => {
                proof {
                    lemma_prefix_trans(pool0, pool1, pool@);
                }
                return Err(e);
            },
        };
        proof {
            lemma_prefix_trans(pool0, pool1, pool@);
        }
        if !self.fields.push(FieldNode { name: id, kind: node }) {
            return Err(ProtocolError::TooManyFields);
        }
        self.field_b.next();
        Ok(())
    }

    fn add_variant(&mut self, name: &String, pool: &mut StringPool) -> (r: Result<(), ProtocolError>)
        requires
            old(pool).wf(),
            runs_consistent(old(self).model(old(pool)@)),
        ensures
            final(pool).wf(),
            old(pool)@.is_prefix_of(final(pool)@),
            match spec_add_variant(old(self).model(old(pool)@), name@) {
                Ok(m) => r is Ok && final(self).model(final(pool)@) =~= m && runs_consistent(m),
                Err(e) => r matches Err(re) && re@ == e,
            },
            final(pool)@ == intern_pool(old(pool)@, name@),
    {
        let id = name.intern(pool)?;
        if !self.variants.push(id) {
            return Err(ProtocolError::TooManyVariants);
        }
        self.variant_b.next();
        Ok(())
    }

    fn add_remainder(&mut self, name: &String, pool: &mut StringPool) -> (r: Result<
        (),
        ProtocolError,
    >)
        requires
            old(pool).wf(),
            runs_consistent(old(self).model(old(pool)@)),
            takes_remainder(old(self).model(old(pool)@).open),
        ensures
            final(pool).wf(),
            old(pool)@.is_prefix_of(final(pool)@),
            match spec_step(old(self).model(old(pool)@), TokenView::Remainder { name: name@ }) {
                Ok(m) => r is Ok && final(self).model(final(pool)@) =~= m && runs_consistent(m),
                Err(e) => r matches Err(re) && re@ == e,
            },
            final(pool)@ == intern_pool(old(pool)@, name@),
    {
        let id = name.intern(pool)?;
        let mut open = Open::Nothing;
        core::mem::swap(&mut open, &mut self.open);
        match open {
            Open::Message { name, .. } => {
                self.open = Open::Message { name, remainder: Some(id) };
            },
            other => {
                self.open = other;
            },
        }
        Ok(())
    }

    fn start_item(&mut self, token: &Token, pool: &mut StringPool) -> (r: Result<(), ProtocolError>)
        requires
            old(pool).wf(),
            runs_consistent(old(self).model(old(pool)@)),
        ensures
            final(pool).wf(),
            old(pool)@.is_prefix_of(final(pool)@),
            match spec_start_item(old(self).model(old(pool)@), token@) {
                Ok(m) => r is Ok && final(self).model(final(pool)@) =~= m && runs_consistent(m),
                Err(e) => r matches Err(re) && re@ == e,
            },
            final(pool)@ == start_item_pool(old(self).model(old(pool)@), token@),
    {
        let ghost pool0 = pool@;
        match token {
            Token::Group { name } => {
                self.close_group(pool)?;
                let id = name.intern(pool)?;
                self.group_name = Some(id);
                Ok(())
            },
            Token::Message { name } => {
                assert(pool0 =~= pool0.subrange(0, pool0.len() as int));
                self.open = Open::Message { name: name.clone(), remainder: None };
                Ok(())
            },
            Token::Struct { name } => {
                assert(pool0 =~= pool0.subrange(0, pool0.len() as int));
                self.open = Open::Struct { name: name.clone() };
                Ok(())
            },
            Token::Enum { name } => {
                assert(pool0 =~= pool0.subrange(0, pool0.len() as int));
                self.open = Open::Enum { name: name.clone() };
                Ok(())
            },
            other => {
                assert(pool0 =~= pool0.subrange(0, pool0.len() as int));
                Err(ProtocolError::UnexpectedToken(other.to_text()))
            },
        }
    }

    fn step(&mut self, token: &Token, pool: &mut StringPool) -> (r: Result<(), ProtocolError>)
        requires
            old(pool).wf(),
            runs_consistent(old(self).model(old(pool)@)),
        ensures
            final(pool).wf(),
            old(pool)@.is_prefix_of(final(pool)@),
            match spec_step(old(self).model(old(pool)@), token@) {
                Ok(m) => r is Ok && final(self).model(final(pool)@) =~= m && runs_consistent(m),
                Err(e) => r matches Err(re) && re@ == e,
            },
            final(pool)@ == step_pool(old(self).model(old(pool)@), token@),
    {
        let ghost pool0 = pool@;
        let takes_field = match &self.open {
            Open::Message { remainder, .. } => remainder.is_none(),
            Open::Struct { .. } => true,
            _ => false,
        };
        let takes_remainder = match &self.open {
            Open::Message { remainder, .. } => remainder.is_none(),
            _ => false,
        };
        let takes_variant = match &self.open {
            Open::Enum { .. } => true,
            _ => false,
        };
        match token {
            Token::Field { name, kind } => {
                if takes_field {
                    return self.add_field(name, kind, pool);
                }
            },
            Token::Remainder { name } => {
                if takes_remainder {
                    return self.add_remainder(name, pool);
                }
            },
            Token::Variant { name } => {
                if takes_variant {
                    return self.add_variant(name, pool);
                }
            },
            _ => {},
        }
        self.close_open(pool)?;
        let ghost pool1 = pool@;
        let r = self.start_item(token, pool);
        proof {
            lemma_prefix_trans(pool0, pool1, pool@);
        }
        r
    }
}

/// The tree of a protocol definition.
#[derive(Debug)]
pub struct ProtocolTree {
    pub name: StringId,
    pub version: String,
    pub access: String,
    pub groups: BoundedVec<GroupNode, MAX_GROUPS>,
    pub messages: BoundedVec<MessageNode, MAX_MESSAGES>,
    pub fields: BoundedVec<FieldNode, MAX_FIELDS>,
    pub structs: BoundedVec<StructNode, MAX_STRUCTS>,
    pub enums: BoundedVec<EnumNode, MAX_ENUMS>,
    pub variants: BoundedVec<StringId, MAX_VARIANTS>,
}

impl ProtocolTree {
    /// Every list is within its limit.
    pub open spec fn wf(&self) -> bool {
        &&& self.groups.wf()
        &&& self.messages.wf()
        &&& self.fields.wf()
        &&& self.structs.wf()
        &&& self.enums.wf()
        &&& self.variants.wf()
    }

    /// Whether the tree holds the lists of a final tree state.
    pub open spec fn matches_model(&self, m: TreeModel) -> bool {
        &&& self.groups@ == m.groups
        &&& self.messages@ == m.messages
        &&& self.fields@ == m.fields
        &&& self.structs@ == m.structs
        &&& self.enums@ == m.enums
        &&& self.variants@ == m.variants
    }

    /// Builds the tree of a token list whose first token is `<protocol>`.
    pub fn new(tokens: Vec<Token>, pool: &mut StringPool) -> (r: Result<Self, ProtocolError>)
        requires
            tokens@.len() > 0,
            old(pool).wf(),
        ensures
            final(pool).wf(),
            old(pool)@.is_prefix_of(final(pool)@),
            match spec_tree(tokens_view(tokens@), old(pool)@) {
                Ok((m, id)) => r matches Ok(t) && t.matches_model(m) && t.wf() && t.name@ == id
                    && tree_tiles(m) && final(pool)@ == m.pool && (t.version@, t.access@) == protocol_attrs(
                    tokens@[0]@,
                ),
                Err(e) => r matches Err(re) && re@ == e,
            },
            final(pool)@ == tree_pool(tokens_view(tokens@), old(pool)@),
    {
        let ghost tv = tokens_view(tokens@);
        let ghost pool0 = pool@;
        proof {
            lemma_tree_tiles(tv, pool0);
        }
        assert(tv[0] == tokens@[0]@);
        let (name, version, access) = match &tokens[0] {
            Token::Protocol { name, version, access } => (name.clone(), version.clone(), access.clone()),
            _ => {
                assert(pool0 =~= pool0.subrange(0, pool0.len() as int));
                return Err(ProtocolError::MissingProtocolToken);
            },
        };
        let mut builder = TreeBuilder::new();
        assert(builder.model(pool@) =~= tree_init(pool@));
        assert(tv.drop_first() =~= tv.skip(1));
        assert(pool0 =~= pool0.subrange(0, pool0.len() as int));
        let mut i: usize = 1;
        while i < tokens.len()
            invariant
                1 <= i <= tokens@.len(),
                tv == tokens_view(tokens@),
                tv[0] is Protocol,
                pool0 == old(pool)@,
                pool.wf(),
                pool0.is_prefix_of(pool@),
                runs_consistent(builder.model(pool@)),
                spec_run(tree_init(pool0), tv.drop_first()) == spec_run(
                    builder.model(pool@),
                    tv.skip(i as int),
                ),
                run_pool(tree_init(pool0), tv.drop_first()) == run_pool(
                    builder.model(pool@),
                    tv.skip(i as int),
                ),
            decreases tokens.len() - i,
        {
            let ghost pool1 = pool@;
            let ghost before = builder.model(pool@);
            assert(tv.skip(i as int)[0] == tokens@[i as int]@);
            assert(tv.skip(i as int).drop_first() =~= tv.skip(i + 1));
            let r = builder.step(&tokens[i], pool);
            proof {
                lemma_prefix_trans(pool0, pool1, pool@);
            }
            if let Err(e) = r {
                return Err(e);
            }
            i = i + 1;
        }
        assert(tv.skip(i as int) =~= Seq::<TokenView>::empty());
        let ghost pool2 = pool@;
        if let Err(e) = builder.close_open(pool) {
            proof {
                lemma_prefix_trans(pool0, pool2, pool@);
            }
            return Err(e);
        }
        proof {
            lemma_prefix_trans(pool0, pool2, pool@);
        }
        builder.close_group(pool)?;
        let ghost pool3 = pool@;
        let id = match pool.get_id(name.as_str()) {
            Ok(id) => id,
            Err(e) => {
                return Err(e);
            },
        };
        proof {
            lemma_prefix_trans(pool0, pool3, pool@);
        }
        Ok(
            ProtocolTree {
                name: id,
                version,
                access,
                groups: builder.groups,
                messages: builder.messages,
                fields: builder.fields,
                structs: builder.structs,
                enums: builder.enums,
                variants: builder.variants,
            },
        )
    }

    /// How many enums and structs the tree declares.
    pub fn type_count(&self) -> (r: u16)
        requires
            self.enums.wf(),
            self.structs.wf(),
        ensures
            r == self.enums@.len() + self.structs@.len(),
    {
        (self.enums.len_usize() + self.structs.len_usize()) as u16
    }
}

} // verus!
