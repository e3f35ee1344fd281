//! How the ranges of a protocol tree cover its flat lists: the groups'
//! runs follow one another through the messages, structs and enums, the
//! enums' runs through the variants, and the fields are shared out among
//! the messages and structs without gap or overlap.
use vstd::prelude::*;

use crate::constraints::MAX_UNIQUE_STRINGS;
use crate::nodes::{EnumNode, GroupNode, MessageNode, Range, StructNode};
use crate::pool::{lemma_intern_finds, spec_intern};
use crate::token::TokenView;
use crate::tree::{
    OpenItem, TreeModel, lemma_step_consistent, runs_consistent, spec_close_group, spec_close_open,
    spec_finish, spec_run, spec_start_item, spec_step, spec_tree, tree_init,
};

verus! {

/// The index one past the end of a range.
pub open spec fn range_end(r: Range) -> int {
    r.start + r.len
}

/// Whether index `k` lies in the range.
pub open spec fn covers(r: Range, k: int) -> bool {
    r.start <= k < range_end(r)
}

/// The ranges follow one another without gap, the first starting at
/// `from` and the last ending at `to` (`from == to` when there are none).
pub open spec fn chains(rs: Seq<Range>, from: int, to: int) -> bool
    decreases rs.len(),
{
    if rs.len() == 0 {
        from == to
    } else {
        range_end(rs.last()) == to && chains(rs.drop_last(), from, rs.last().start as int)
    }
}

/// The message runs of the groups.
pub open spec fn group_messages(gs: Seq<GroupNode>) -> Seq<Range> {
    gs.map_values(|g: GroupNode| g.messages)
}

/// The struct runs of the groups.
pub open spec fn group_structs(gs: Seq<GroupNode>) -> Seq<Range> {
    gs.map_values(|g: GroupNode| g.structs)
}

/// The enum runs of the groups.
pub open spec fn group_enums(gs: Seq<GroupNode>) -> Seq<Range> {
    gs.map_values(|g: GroupNode| g.enums)
}

/// The variant runs of the enums.
pub open spec fn enum_variants(es: Seq<EnumNode>) -> Seq<Range> {
    es.map_values(|e: EnumNode| e.variants)
}

/// The field runs of the messages.
pub open spec fn message_fields(ms: Seq<MessageNode>) -> Seq<Range> {
    ms.map_values(|m: MessageNode| m.fields)
}

/// The field runs of the structs.
pub open spec fn struct_fields(ss: Seq<StructNode>) -> Seq<Range> {
    ss.map_values(|s: StructNode| s.fields)
}

/// Each range ends by `n`, and a later range starts where an earlier
/// one has ended.
pub open spec fn ordered_within(rs: Seq<Range>, n: int) -> bool {
    &&& forall|i: int| 0 <= i < rs.len() ==> range_end(#[trigger] rs[i]) <= n
    &&& forall|i: int, j: int|
        0 <= i < j < rs.len() ==> range_end(#[trigger] rs[i]) <= (#[trigger] rs[j]).start
}

/// The two lists of ranges together split `0..n`: within each list the
/// ranges come in order, no range of one list overlaps a range of the
/// other, and every index below `n` lies in some range.
pub open spec fn splits(a: Seq<Range>, b: Seq<Range>, n: int) -> bool {
    &&& ordered_within(a, n)
    &&& ordered_within(b, n)
    &&& forall|i: int, j: int|
        0 <= i < a.len() && 0 <= j < b.len() ==> range_end(#[trigger] a[i]) <= (#[trigger] b[j]).start
            || range_end(b[j]) <= a[i].start
    &&& forall|k: int| 0 <= k < n ==> #[trigger] covered(a, b, k)
}

/// Whether index `k` lies in a range of either list.
pub open spec fn covered(a: Seq<Range>, b: Seq<Range>, k: int) -> bool {
    ||| exists|i: int| 0 <= i < a.len() && #[trigger] covers(a[i], k)
    ||| exists|j: int| 0 <= j < b.len() && #[trigger] covers(b[j], k)
}

/// What the ranges of a finished tree show: with at least one group, the
/// groups' runs cover the messages, structs and enums from first to last;
/// the enums' runs cover the variants; the messages' and structs' runs
/// split the fields.
pub open spec fn tree_tiles(m: TreeModel) -> bool {
    &&& m.groups.len() > 0 ==> {
        &&& chains(group_messages(m.groups), 0, m.messages.len() as int)
        &&& chains(group_structs(m.groups), 0, m.structs.len() as int)
        &&& chains(group_enums(m.groups), 0, m.enums.len() as int)
    }
    &&& chains(enum_variants(m.enums), 0, m.variants.len() as int)
    &&& splits(message_fields(m.messages), struct_fields(m.structs), m.fields.len() as int)
}

/// What holds between tokens: the closed runs reach the start of the run
/// being collected, and a run being collected is empty when no open item
/// takes from it.
pub open spec fn shape_inv(m: TreeModel) -> bool {
    &&& chains(group_messages(m.groups), 0, m.message_b.start as int)
    &&& chains(group_structs(m.groups), 0, m.struct_b.start as int)
    &&& chains(group_enums(m.groups), 0, m.enum_b.start as int)
    &&& chains(enum_variants(m.enums), 0, m.variant_b.start as int)
    &&& splits(message_fields(m.messages), struct_fields(m.structs), m.field_b.start as int)
    &&& (m.open is Nothing || m.open is Enum) ==> m.field_b.len == 0
    &&& !(m.open is Enum) ==> m.variant_b.len == 0
    &&& m.groups.len() > 0 ==> m.group_name is Some
}

/// Appending a range that starts where the chain ends extends the chain.
proof fn lemma_chain_push(rs: Seq<Range>, from: int, r: Range)
    requires
        chains(rs, from, r.start as int),
    ensures
        chains(rs.push(r), from, range_end(r)),
{
    assert(rs.push(r).drop_last() =~= rs);
}

/// The split does not depend on which list is named first.
proof fn lemma_splits_swap(a: Seq<Range>, b: Seq<Range>, n: int)
    requires
        splits(a, b, n),
    ensures
        splits(b, a, n),
{
    assert forall|k: int| 0 <= k < n implies #[trigger] covered(b, a, k) by {
        assert(covered(a, b, k));
    }
}

/// Appending a range that starts at `n` to one list keeps the split, now
/// up to the new range's end.
proof fn lemma_splits_push(a: Seq<Range>, b: Seq<Range>, n: int, r: Range)
    requires
        splits(a, b, n),
        r.start == n,
    ensures
        splits(a.push(r), b, range_end(r)),
        splits(b, a.push(r), range_end(r)),
{
    let a1 = a.push(r);
    let e = range_end(r);
    assert forall|k: int| 0 <= k < e implies #[trigger] covered(a1, b, k) by {
        if k < n {
            assert(covered(a, b, k));
            if exists|i: int| 0 <= i < a.len() && #[trigger] covers(a[i], k) {
                let i = choose|i: int| 0 <= i < a.len() && #[trigger] covers(a[i], k);
                assert(covers(a1[i], k));
            } else {
                let j = choose|j: int| 0 <= j < b.len() && #[trigger] covers(b[j], k);
                assert(covers(b[j], k));
            }
        } else {
            assert(covers(a1[a.len() as int], k));
        }
    }
    assert forall|i: int, j: int| 0 <= i < j < a1.len() implies range_end(
        #[trigger] a1[i],
    ) <= (#[trigger] a1[j]).start by {
        if j == a.len() {
            assert(range_end(a[i]) <= n);
        }
    }
    assert forall|i: int, j: int|
        0 <= i < a1.len() && 0 <= j < b.len() implies range_end(#[trigger] a1[i]) <= (
        #[trigger] b[j]).start || range_end(b[j]) <= a1[i].start by {
        if i == a.len() {
            assert(range_end(b[j]) <= n);
        }
    }
    assert forall|k: int| 0 <= k < e implies #[trigger] covered(b, a1, k) by {
        assert(covered(a1, b, k));
    }
}

proof fn lemma_close_open_shape(m: TreeModel)
    requires
        runs_consistent(m),
        shape_inv(m),
    ensures
        spec_close_open(m) matches Ok(m1) ==> shape_inv(m1) && m1.open is Nothing,
{
    if let Ok(m1) = spec_close_open(m) {
        match m.open {
            OpenItem::Nothing => {},
            OpenItem::Message { name, remainder } => {
                let last = m1.messages.last();
                assert(m1.messages =~= m.messages.push(last));
                assert(message_fields(m1.messages) =~= message_fields(m.messages).push(m.field_b));
                lemma_splits_push(
                    message_fields(m.messages),
                    struct_fields(m.structs),
                    m.field_b.start as int,
                    m.field_b,
                );
            },
            OpenItem::Struct { name } => {
                let last = m1.structs.last();
                assert(m1.structs =~= m.structs.push(last));
                assert(struct_fields(m1.structs) =~= struct_fields(m.structs).push(m.field_b));
                lemma_splits_swap(message_fields(m.messages), struct_fields(m.structs), m.field_b.start as int);
                lemma_splits_push(
                    struct_fields(m.structs),
                    message_fields(m.messages),
                    m.field_b.start as int,
                    m.field_b,
                );
            },
            OpenItem::Enum { name } => {
                let last = m1.enums.last();
                assert(m1.enums =~= m.enums.push(last));
                assert(enum_variants(m1.enums) =~= enum_variants(m.enums).push(m.variant_b));
                lemma_chain_push(enum_variants(m.enums), 0, m.variant_b);
            },
        }
    }
}

proof fn lemma_close_group_shape(m: TreeModel)
    requires
        runs_consistent(m),
        shape_inv(m),
    ensures
        spec_close_group(m) matches Ok(m1) ==> {
            &&& chains(group_messages(m1.groups), 0, m1.message_b.start as int)
            &&& chains(group_structs(m1.groups), 0, m1.struct_b.start as int)
            &&& chains(group_enums(m1.groups), 0, m1.enum_b.start as int)
            &&& m1.open == m.open && m1.field_b == m.field_b && m1.variant_b == m.variant_b
            &&& m1.messages == m.messages && m1.structs == m.structs && m1.enums == m.enums
            &&& m1.fields == m.fields && m1.variants == m.variants
            &&& m.group_name is None ==> m1 == m
            &&& m.group_name is Some ==> {
                &&& m1.groups.len() > 0
                &&& m1.message_b.start == m.messages.len()
                &&& m1.struct_b.start == m.structs.len()
                &&& m1.enum_b.start == m.enums.len()
            }
        },
{
    if let Ok(m1) = spec_close_group(m) {
        if let Some(name) = m.group_name {
            let g = m1.groups.last();
            assert(m1.groups =~= m.groups.push(g));
            assert(group_messages(m1.groups) =~= group_messages(m.groups).push(m.message_b));
            assert(group_structs(m1.groups) =~= group_structs(m.groups).push(m.struct_b));
            assert(group_enums(m1.groups) =~= group_enums(m.groups).push(m.enum_b));
            lemma_chain_push(group_messages(m.groups), 0, m.message_b);
            lemma_chain_push(group_structs(m.groups), 0, m.struct_b);
            lemma_chain_push(group_enums(m.groups), 0, m.enum_b);
        }
    }
}

proof fn lemma_close_open_consistent(m: TreeModel)
    requires
        runs_consistent(m),
    ensures
        spec_close_open(m) matches Ok(m1) ==> runs_consistent(m1),
{
}

proof fn lemma_start_item_shape(m: TreeModel, t: TokenView)
    requires
        runs_consistent(m),
        shape_inv(m),
        m.open is Nothing,
    ensures
        spec_start_item(m, t) matches Ok(m1) ==> shape_inv(m1),
{
    lemma_close_group_shape(m);
}

proof fn lemma_step_shape(m: TreeModel, t: TokenView)
    requires
        runs_consistent(m),
        shape_inv(m),
    ensures
        spec_step(m, t) matches Ok(m1) ==> shape_inv(m1),
{
    lemma_close_open_shape(m);
    if let Ok(m1) = spec_close_open(m) {
        lemma_step_consistent(m, t);
        lemma_close_open_consistent(m);
        lemma_start_item_shape(m1, t);
    }
}

proof fn lemma_run_shape(m: TreeModel, tokens: Seq<TokenView>)
    requires
        runs_consistent(m),
        shape_inv(m),
    ensures
        spec_run(m, tokens) matches Ok(m1) ==> runs_consistent(m1) && shape_inv(m1),
    decreases tokens.len(),
{
    if tokens.len() > 0 {
        lemma_step_consistent(m, tokens[0]);
        lemma_step_shape(m, tokens[0]);
        if let Ok(m1) = spec_step(m, tokens[0]) {
            lemma_run_shape(m1, tokens.drop_first());
        }
    }
}

proof fn lemma_finish_tiles(m: TreeModel)
    requires
        runs_consistent(m),
        shape_inv(m),
    ensures
        spec_finish(m) matches Ok(m1) ==> tree_tiles(m1),
{
    lemma_close_open_shape(m);
    lemma_close_open_consistent(m);
    if let Ok(m1) = spec_close_open(m) {
        lemma_close_group_shape(m1);
    }
}

/// A group, once started, stays open from token to token.
proof fn lemma_run_keeps_group(m: TreeModel, tokens: Seq<TokenView>)
    ensures
        spec_run(m, tokens) matches Ok(m1) ==> (m.group_name is Some || exists|i: int|
            0 <= i < tokens.len() && #[trigger] tokens[i] is Group) ==> m1.group_name is Some,
    decreases tokens.len(),
{
    if tokens.len() > 0 {
        if let Ok(m1) = spec_step(m, tokens[0]) {
            lemma_run_keeps_group(m1, tokens.drop_first());
            if exists|i: int| 0 <= i < tokens.len() && #[trigger] tokens[i] is Group {
                let i = choose|i: int| 0 <= i < tokens.len() && #[trigger] tokens[i] is Group;
                if i > 0 {
                    assert(tokens.drop_first()[i - 1] is Group);
                }
            }
        }
    }
}

/// The law of the tree's ranges: whenever a token list builds a tree,
/// the groups' runs (once there is a group, as there is whenever a group
/// token follows the protocol token) follow one another from the first
/// message, struct and enum to the last; the enums' runs follow one
/// another through all the variants; and every field belongs to exactly
/// one message or struct, the runs of each list coming in token order.
pub proof fn lemma_tree_tiles(tokens: Seq<TokenView>, pool: Seq<Seq<char>>)
    ensures
        spec_tree(tokens, pool) matches Ok((m, _)) ==> {
            &&& tree_tiles(m)
            &&& (exists|i: int| 1 <= i < tokens.len() && #[trigger] tokens[i] is Group) ==> m.groups.len() > 0
        },
{
    if tokens[0] is Protocol {
        let m0 = tree_init(pool);
        let rest = tokens.drop_first();
        assert(splits(message_fields(m0.messages), struct_fields(m0.structs), 0));
        lemma_run_shape(m0, rest);
        lemma_run_keeps_group(m0, rest);
        if let Ok(m) = spec_run(m0, rest) {
            lemma_finish_tiles(m);
            if exists|i: int| 1 <= i < tokens.len() && #[trigger] tokens[i] is Group {
                let i = choose|i: int| 1 <= i < tokens.len() && #[trigger] tokens[i] is Group;
                assert(rest[i - 1] is Group);
                lemma_close_open_shape(m);
                if let Ok(m1) = spec_close_open(m) {
                    lemma_close_group_shape(m1);
                }
            }
        }
    }
}

/// A remainder declared in a message stays with it: an open message with
/// no remainder yet takes a remainder token whenever its name can be
/// interned, and once the message is closed, the message added to the list
/// carries the identifier under which the remainder's name sits in the
/// pool, with its own name and the fields collected for it.
pub proof fn lemma_remainder_kept(m: TreeModel, r: Seq<char>)
    requires
        m.pool.len() <= MAX_UNIQUE_STRINGS,
        m.open matches OpenItem::Message { remainder: None, .. },
    ensures
        spec_step(m, TokenView::Remainder { name: r }) is Ok <==> spec_intern(m.pool, r) is Ok,
        spec_step(m, TokenView::Remainder { name: r }) matches Ok(m1) ==> (spec_close_open(m1) matches Ok(
            m2,
        ) ==> ({
            let node = m2.messages.last();
            &&& m2.messages == m.messages.push(node)
            &&& node.remainder matches Some(rid) && rid.value < m2.pool.len() && m2.pool[rid.value as int]
                == r
            &&& node.name.value < m2.pool.len()
            &&& m2.pool[node.name.value as int] == m.open->Message_name
            &&& node.fields == m.field_b
        })),
{
    lemma_intern_finds(m.pool, r);
    if let Ok(m1) = spec_step(m, TokenView::Remainder { name: r }) {
        let name = m.open->Message_name;
        lemma_intern_finds(m1.pool, name);
        if let Ok(m2) = spec_close_open(m1) {
            let node = m2.messages.last();
            assert(m2.messages == m1.messages.push(node));
            assert(m1.pool.is_prefix_of(m2.pool));
            let rid = m1.open->Message_remainder->0;
            assert(m2.pool[rid.value as int] == m1.pool[rid.value as int]);
        }
    }
}

} // verus!
