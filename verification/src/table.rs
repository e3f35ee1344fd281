//! The type table: every type of a protocol, stored group after group, and
//! found again by its name.
use std::collections::HashMap;

use vstd::prelude::*;

use crate::meta::{TypeId, TypeMeta, meta_pack};
use crate::size::raw_of_align;
use crate::pool::StringId;
use crate::symbols::{BUILTIN_GROUP, NumericSymbol, Type};

verus! {

broadcast use vstd::std_specs::hash::group_hash_axioms;

/// The sum of a list of counts.
pub open spec fn counts_sum(s: Seq<u16>) -> int
    decreases s.len(),
{
    if s.len() == 0 {
        0
    } else {
        counts_sum(s.drop_last()) + s.last()
    }
}

/// The state of a type table: how many groups it was made for, how many
/// types each group holds, the slots of the types (group after group) and
/// the type of each registered name.
#[verifier::ext_equal]
pub struct TableModel {
    pub count: u8,
    pub counts: Seq<u16>,
    pub types: Seq<Option<Type>>,
    pub names: Map<u16, TypeId>,
}

/// The slot of the `index`-th type of a group: past all the types of the
/// groups before it.
pub open spec fn slot_of(counts: Seq<u16>, group: u8, index: u16) -> int {
    counts_sum(counts.take(group as int)) + index
}

/// Registering a type in a group: it takes the group's next slot and
/// index. Nothing (the table refuses) when the group or the slot does not
/// exist, when the type has no name (an array) or its name is taken, or
/// when the group is full.
pub open spec fn table_register(t: TableModel, group: u8, meta: TypeMeta, sym: Type) -> Option<
    TableModel,
> {
    if group as int >= t.counts.len() {
        None
    } else {
        let index = t.counts[group as int];
        let flat = slot_of(t.counts, group, index);
        let name = sym.spec_name();
        if flat >= t.types.len() || sym is Array || t.names.contains_key(name) || index == u16::MAX {
            None
        } else {
            Some(
                TableModel {
                    types: t.types.update(flat, Some(sym)),
                    names: t.names.insert(name, TypeId { index, group, meta }),
                    counts: t.counts.update(group as int, (index + 1) as u16),
                    ..t
                },
            )
        }
    }
}

/// Looking up a registered name gives its identifier: once a type is
/// registered in a group, its name is found with the group, the group's
/// next index and the given descriptor, and every other name is found as
/// before (or not at all, as before).
pub proof fn lemma_register_lookup(t: TableModel, group: u8, meta: TypeMeta, sym: Type, other: u16)
    requires
        table_register(t, group, meta, sym) is Some,
    ensures
        ({
            let t1 = table_register(t, group, meta, sym)->0;
            &&& t1.names.contains_key(sym.spec_name())
            &&& t1.names[sym.spec_name()] == (TypeId { index: t.counts[group as int], group, meta })
            &&& other != sym.spec_name() ==> {
                &&& t1.names.contains_key(other) == t.names.contains_key(other)
                &&& t1.names[other] == t.names[other]
            }
        }),
{
}

/// Registering the types one after the other (group, descriptor, type);
/// nothing once one of them is refused.
pub open spec fn register_all(t: TableModel, regs: Seq<(u8, TypeMeta, Type)>) -> Option<TableModel>
    decreases regs.len(),
{
    if regs.len() == 0 {
        Some(t)
    } else {
        match register_all(t, regs.drop_last()) {
            None => None,
            Some(t1) => table_register(t1, regs.last().0, regs.last().1, regs.last().2),
        }
    }
}

/// The groups of the registrations never decrease.
pub open spec fn groups_ascending(regs: Seq<(u8, TypeMeta, Type)>) -> bool {
    forall|a: int, b: int| 0 <= a < b < regs.len() ==> (#[trigger] regs[a]).0 <= (#[trigger] regs[b]).0
}

/// A registration is in the table: its name is found with its group and
/// descriptor, at an index below the group's count, and the slot of that
/// index holds its type.
spec fn registered_at(t: TableModel, r: (u8, TypeMeta, Type)) -> bool {
    let name = r.2.spec_name();
    let id = t.names[name];
    &&& t.names.contains_key(name)
    &&& id.group == r.0
    &&& id.meta == r.1
    &&& (r.0 as int) < t.counts.len()
    &&& id.index < t.counts[r.0 as int]
    &&& 0 <= slot_of(t.counts, r.0, id.index) < t.types.len()
    &&& t.types[slot_of(t.counts, r.0, id.index)] == Some(r.2)
}

/// The types of the groups before `j` fill at least the slots up to and
/// including the last type of group `i < j`.
proof fn lemma_counts_sum_grows(s: Seq<u16>, i: int, j: int)
    requires
        0 <= i < j <= s.len(),
    ensures
        counts_sum(s.take(j)) >= counts_sum(s.take(i)) + s[i],
    decreases j - i,
{
    lemma_counts_sum_step(s, j - 1);
    if j > i + 1 {
        lemma_counts_sum_grows(s, i, j - 1);
    }
}

/// A registration in a group that does not come before an earlier one's
/// keeps the earlier one in place, and is in the table itself.
proof fn lemma_register_keeps(t: TableModel, group: u8, meta: TypeMeta, sym: Type, r: (u8, TypeMeta, Type))
    requires
        table_register(t, group, meta, sym) is Some,
        registered_at(t, r),
        r.0 <= group,
    ensures
        registered_at(table_register(t, group, meta, sym)->0, r),
        registered_at(table_register(t, group, meta, sym)->0, (group, meta, sym)),
{
    let t1 = table_register(t, group, meta, sym)->0;
    let index = t.counts[group as int];
    let flat = slot_of(t.counts, group, index);
    assert(t1.counts.take(r.0 as int) =~= t.counts.take(r.0 as int));
    assert(t1.counts.take(group as int) =~= t.counts.take(group as int));
    let id = t.names[r.2.spec_name()];
    if r.0 < group {
        lemma_counts_sum_grows(t.counts, r.0 as int, group as int);
    }
    assert(slot_of(t.counts, r.0, id.index) != flat);
}

/// Every registration of a run, in ascending groups, is in the table that
/// the run leaves, and the run keeps the table's size.
proof fn lemma_register_all(t: TableModel, regs: Seq<(u8, TypeMeta, Type)>)
    requires
        register_all(t, regs) is Some,
        groups_ascending(regs),
    ensures
        forall|a: int| 0 <= a < regs.len() ==> registered_at(register_all(t, regs)->0, #[trigger] regs[a]),
        (register_all(t, regs)->0).types.len() == t.types.len(),
        (register_all(t, regs)->0).counts.len() == t.counts.len(),
        (register_all(t, regs)->0).count == t.count,
    decreases regs.len(),
{
    if regs.len() > 0 {
        let before = regs.drop_last();
        assert(groups_ascending(before)) by {
            assert forall|a: int, b: int| 0 <= a < b < before.len() implies (#[trigger] before[a]).0
                <= (#[trigger] before[b]).0 by {
                assert(before[a] == regs[a] && before[b] == regs[b]);
            }
        }
        lemma_register_all(t, before);
        let t1 = register_all(t, before)->0;
        let last = regs.last();
        assert(register_all(t, regs) == table_register(t1, last.0, last.1, last.2));
        lemma_counts_sum_bound(t1.counts.take(last.0 as int));
        assert forall|a: int| 0 <= a < regs.len() implies registered_at(
            register_all(t, regs)->0,
            #[trigger] regs[a],
        ) by {
            if a < regs.len() - 1 {
                assert(before[a] == regs[a]);
                assert(regs[a].0 <= regs[regs.len() - 1].0);
                lemma_register_keeps(t1, last.0, last.1, last.2, regs[a]);
            } else {
                lemma_register_new(t1, last.0, last.1, last.2);
            }
        }
    }
}

/// A registration is in the table it leaves.
proof fn lemma_register_new(t: TableModel, group: u8, meta: TypeMeta, sym: Type)
    requires
        table_register(t, group, meta, sym) is Some,
    ensures
        registered_at(table_register(t, group, meta, sym)->0, (group, meta, sym)),
{
    let t1 = table_register(t, group, meta, sym)->0;
    let index = t.counts[group as int];
    let flat = slot_of(t.counts, group, index);
    lemma_counts_sum_bound(t.counts.take(group as int));
    assert(t1.counts.take(group as int) =~= t.counts.take(group as int));
    assert(slot_of(t1.counts, group, index) == flat);
    assert(t1.names[sym.spec_name()] == (TypeId { index, group, meta }));
    assert(t1.types[flat] == Some(sym));
}

/// The lookup law of a table: when a new table has the types registered in
/// groups that never decrease and are in use, and the table then finishes,
/// the identifier found for each registered name points into the finished
/// table at exactly that type, and the finished table holds the builtins
/// and the protocol types it was made for.
pub proof fn lemma_registered_types_found(
    groups: u8,
    types: u16,
    regs: Seq<(u8, TypeMeta, Type)>,
    i: int,
)
    requires
        register_all(builtin_table(groups, types), regs) is Some,
        table_finish(register_all(builtin_table(groups, types), regs)->0) is Some,
        groups_ascending(regs),
        forall|a: int| 0 <= a < regs.len() ==> (#[trigger] regs[a]).0 <= builtin_table(groups, types).count,
        0 <= i < regs.len(),
    ensures
        ({
            let t = register_all(builtin_table(groups, types), regs)->0;
            let f = table_finish(t)->0;
            let id = t.names[regs[i].2.spec_name()];
            &&& t.names.contains_key(regs[i].2.spec_name())
            &&& id.group == regs[i].0
            &&& id.meta == regs[i].1
            &&& table_holds(f, id)
            &&& type_at(f, id) == regs[i].2
            &&& f.types.len() == types + 12
        }),
{
    let t0 = builtin_table(groups, types);
    lemma_register_all(t0, regs);
    let t = register_all(t0, regs)->0;
    let f = table_finish(t)->0;
    let r = regs[i];
    let id = t.names[r.2.spec_name()];
    assert(registered_at(t, r));
    assert(f.counts.take(r.0 as int) =~= t.counts.take(r.0 as int));
}

/// The builtin numeric types, in registration order.
pub open spec fn builtin_symbols() -> Seq<NumericSymbol> {
    seq![
        NumericSymbol::U8,
        NumericSymbol::U16,
        NumericSymbol::U32,
        NumericSymbol::U64,
        NumericSymbol::U128,
        NumericSymbol::I8,
        NumericSymbol::I16,
        NumericSymbol::I32,
        NumericSymbol::I64,
        NumericSymbol::I128,
        NumericSymbol::F32,
        NumericSymbol::F64,
    ]
}

/// The descriptor of a builtin numeric type.
pub open spec fn numeric_meta(sym: NumericSymbol) -> TypeMeta {
    TypeMeta { value: meta_pack(sym.spec_size(), raw_of_align(sym.spec_align())) }
}

/// A new table for `groups` groups and `types` protocol types: the
/// builtins fill the first slots of the builtin group.
pub open spec fn builtin_table(groups: u8, types: u16) -> TableModel {
    TableModel {
        count: if groups == 255 {
            255u8
        } else {
            (groups + 1) as u8
        },
        counts: Seq::new(256, |g: int| if g == BUILTIN_GROUP { 12u16 } else { 0u16 }),
        types: Seq::new(
            (types + 12) as nat,
            |i: int|
                if i < 12 {
                    Some(Type::Numeric(builtin_symbols()[i]))
                } else {
                    None
                },
        ),
        names: Map::new(
            |n: u16| n < 12,
            |n: u16| TypeId { index: n, group: BUILTIN_GROUP, meta: numeric_meta(builtin_symbols()[n as int]) },
        ),
    }
}

/// The state of a finished table: the group counts that are in use and the
/// types in slot order.
#[verifier::ext_equal]
pub struct FinishedModel {
    pub count: u8,
    pub counts: Seq<u16>,
    pub types: Seq<Type>,
}

/// Finishing a table: every slot must be filled, and the used groups must
/// account for every slot.
pub open spec fn table_finish(t: TableModel) -> Option<FinishedModel> {
    if t.count as int + 1 > t.counts.len() || counts_sum(t.counts.take(t.count + 1))
        != t.types.len() || exists|i: int| 0 <= i < t.types.len() && t.types[i] is None {
        None
    } else {
        Some(
            FinishedModel {
                count: t.count,
                counts: t.counts.take(t.count + 1),
                types: t.types.map_values(|o: Option<Type>| o->0),
            },
        )
    }
}

pub(crate) proof fn lemma_counts_sum_bound(s: Seq<u16>)
    ensures
        0 <= counts_sum(s) <= s.len() * 65535,
    decreases s.len(),
{
    if s.len() > 0 {
        lemma_counts_sum_bound(s.drop_last());
    }
}

proof fn lemma_counts_sum_step(s: Seq<u16>, n: int)
    requires
        0 <= n < s.len(),
    ensures
        counts_sum(s.take(n + 1)) == counts_sum(s.take(n)) + s[n],
{
    assert(s.take(n + 1).drop_last() =~= s.take(n));
}

proof fn lemma_counts_sum_zero(s: Seq<u16>, n: int)
    requires
        0 <= n <= s.len(),
        forall|i: int| 0 <= i < n ==> s[i] == 0,
    ensures
        counts_sum(s.take(n)) == 0,
    decreases n,
{
    if n > 0 {
        lemma_counts_sum_zero(s, n - 1);
        lemma_counts_sum_step(s, n - 1);
    }
}

/// How many types each group holds.
#[derive(Debug, PartialEq, Eq)]
pub struct GroupsMeta {
    pub count: u8,
    pub inner: Vec<u16>,
}

impl GroupsMeta {
    /// The sum of the first `n` counts.
    fn prefix_sum(&self, n: usize) -> (r: usize)
        requires
            n <= self.inner@.len(),
            n <= 256,
        ensures
            r == counts_sum(self.inner@.take(n as int)),
    {
        let mut sum: usize = 0;
        let mut i: usize = 0;
        while i < n
            invariant
                0 <= i <= n <= self.inner@.len(),
                n <= 256,
                sum == counts_sum(self.inner@.take(i as int)),
            decreases n - i,
        {
            proof {
                lemma_counts_sum_step(self.inner@, i as int);
                lemma_counts_sum_bound(self.inner@.take(i as int));
            }
            sum = sum + self.inner[i] as usize;
            i = i + 1;
        }
        sum
    }

    /// The slot that the next type of `ty`'s group takes.
    pub fn next_free_index(&self, ty: TypeId) -> (r: usize)
        requires
            (ty.group as int) < self.inner@.len(),
            self.inner@.len() <= 256,
        ensures
            r == slot_of(self.inner@, ty.group, self.inner@[ty.group as int]),
    {
        let group = ty.group as usize;
        let index = self.inner[group] as usize;
        let start_of_group = self.prefix_sum(group);
        proof {
            lemma_counts_sum_bound(self.inner@.take(group as int));
        }
        start_of_group + index
    }

    /// The slot of a registered type.
    pub fn position_of(&self, ty: TypeId) -> (r: usize)
        requires
            (ty.group as int) < self.inner@.len(),
            self.inner@.len() <= 256,
        ensures
            r == slot_of(self.inner@, ty.group, ty.index),
    {
        let group = ty.group as usize;
        let start_of_group = self.prefix_sum(group);
        proof {
            lemma_counts_sum_bound(self.inner@.take(group as int));
        }
        start_of_group + ty.index as usize
    }

    /// How many slots the groups in use account for.
    pub fn total_used(&self) -> (r: usize)
        requires
            self.count as int + 1 <= self.inner@.len(),
            self.inner@.len() <= 256,
        ensures
            r == counts_sum(self.inner@.take(self.count + 1)),
    {
        self.prefix_sum(self.count as usize + 1)
    }
}

/// A table being filled with the types of a protocol.
pub struct TypeTable {
    meta: GroupsMeta,
    types: Vec<Option<Type>>,
    inner: HashMap<u16, TypeId>,
}

impl TypeTable {
    pub closed spec fn model(&self) -> TableModel {
        TableModel {
            count: self.meta.count,
            counts: self.meta.inner@,
            types: self.types@,
            names: self.inner@,
        }
    }

    /// The table is no larger than its 256 groups.
    pub closed spec fn wf(&self) -> bool {
        self.meta.inner@.len() == 256
    }

    /// A table for `groups` groups and `types` protocol types, with the
    /// builtins registered in the builtin group.
    pub fn new(groups: u8, types: u16) -> (r: Self)
        ensures
            r.wf(),
            r.model() == builtin_table(groups, types),
    {
        let group_count = groups.saturating_add(1);
        let slot_count = types as usize + NumericSymbol::COUNT;
        let mut inner: Vec<u16> = Vec::new();
        let mut i: usize = 0;
        while i < 256
            invariant
                0 <= i <= 256,
                inner@.len() == i,
                forall|g: int| 0 <= g < i ==> inner@[g] == 0,
            decreases 256 - i,
        {
            inner.push(0);
            i = i + 1;
        }
        let mut slots: Vec<Option<Type>> = Vec::new();
        let mut i: usize = 0;
        while i < slot_count
            invariant
                0 <= i <= slot_count,
                slots@.len() == i,
                forall|k: int| 0 <= k < i ==> slots@[k] is None,
            decreases slot_count - i,
        {
            slots.push(None);
            i = i + 1;
        }
        let mut instance = Self {
            meta: GroupsMeta { count: group_count, inner },
            types: slots,
            inner: HashMap::new(),
        };
        let mut k: usize = 0;
        while k < 12
            invariant
                0 <= k <= 12,
                instance.wf(),
                instance.model().count == group_count,
                group_count == builtin_table(groups, types).count,
                instance.model().types.len() == slot_count,
                slot_count == types + 12,
                instance.model().counts[BUILTIN_GROUP as int] == k,
                forall|g: int|
                    0 <= g < 256 && g != BUILTIN_GROUP ==> #[trigger] instance.model().counts[g]
                        == 0,
                forall|i: int|
                    0 <= i < k ==> instance.model().types[i] == Some(
                        Type::Numeric(#[trigger] builtin_symbols()[i]),
                    ),
                forall|i: int| k <= i < instance.model().types.len() ==> instance.model().types[i] is None,
                instance.model().names.dom() == Set::new(|n: u16| n < k),
                forall|n: u16|
                    #![trigger instance.model().names[n]]
                    n < k ==> {
                        &&& instance.model().names[n].index == n
                        &&& instance.model().names[n].group == BUILTIN_GROUP
                        &&& instance.model().names[n].meta == numeric_meta(builtin_symbols()[n as int])
                    },
            decreases 12 - k,
        {
            let sym = builtin_symbol(k);
            let ghost before = instance.model();
            proof {
                lemma_counts_sum_zero(before.counts, BUILTIN_GROUP as int);
                assert(sym.spec_ordinal() == k);
                assert(!before.names.contains_key(k as u16));
            }
            instance.register_type(BUILTIN_GROUP, sym.meta(), Type::Numeric(sym));
            proof {
                assert(instance.model().names.dom() =~= Set::new(|n: u16| n < k + 1));
            }
            k = k + 1;
        }
        proof {
            let m = instance.model();
            let b = builtin_table(groups, types);
            assert(m.counts =~= b.counts);
            assert(m.types =~= b.types);
            assert(m.names.dom() =~= b.names.dom());
            assert(m.names =~= b.names);
            assert(m =~= b);
        }
        instance
    }

    pub fn get_type_by_name(&self, name: StringId) -> (r: Option<TypeId>)
        ensures
            r == (if self.model().names.contains_key(name@) {
                Some(self.model().names[name@])
            } else {
                None::<TypeId>
            }),
    {
        match self.inner.get(&name.value()) {
            Some(id) => Some(*id),
            None => None,
        }
    }

    pub fn contains_name(&self, name: StringId) -> (r: bool)
        ensures
            r == self.model().names.contains_key(name@),
    {
        self.inner.contains_key(&name.value())
    }

    /// Whether [`TypeTable::register_type`] accepts a type.
    pub fn can_register(&self, group: u8, sym: &Type) -> (r: bool)
        requires
            self.wf(),
        ensures
            r == (exists|meta: TypeMeta| #[trigger] table_register(self.model(), group, meta, *sym) is Some),
            r == forall|meta: TypeMeta| #[trigger] table_register(self.model(), group, meta, *sym) is Some,
    {
        if let Type::Array(_) = sym {
            assert(table_register(self.model(), group, TypeMeta { value: 0 }, *sym) is None);
            return false;
        }
        let index = self.meta.inner[group as usize];
        let flat = self.meta.next_free_index(TypeId { index, group, meta: TypeMeta { value: 0 } });
        let name = sym.name();
        let ok = flat < self.types.len() && !self.contains_name(name) && index != u16::MAX;
        assert(ok == table_register(self.model(), group, TypeMeta { value: 0 }, *sym) is Some);
        ok
    }

    /// Registers a type in a group.
    pub fn register_type(&mut self, group: u8, meta: TypeMeta, sym: Type)
        requires
            old(self).wf(),
            table_register(old(self).model(), group, meta, sym) is Some,
        ensures
            final(self).wf(),
            Some(final(self).model()) == table_register(old(self).model(), group, meta, sym),
    {
        let group_usize = group as usize;
        let index = self.meta.inner[group_usize];
        let id = TypeId { index, group, meta };
        let flat_index = self.meta.next_free_index(id);
        let name = sym.name();
        self.types.set(flat_index, Some(sym));
        let old_id = self.inner.insert(name.value(), id);
        self.meta.inner.set(group_usize, index + 1);
        proof {
            assert(self.model() =~= table_register(old(self).model(), group, meta, sym)->0);
        }
    }

    /// Whether [`TypeTable::finish`] accepts the table.
    pub fn can_finish(&self) -> (r: bool)
        requires
            self.wf(),
        ensures
            r == (table_finish(self.model()) is Some),
    {
        let total = self.meta.total_used();
        if total != self.types.len() {
            return false;
        }
        let mut i: usize = 0;
        while i < self.types.len()
            invariant
                0 <= i <= self.types@.len(),
                forall|k: int| 0 <= k < i ==> self.types@[k] is Some,
            decreases self.types.len() - i,
        {
            if self.types[i].is_none() {
                return false;
            }
            i = i + 1;
        }
        true
    }

    /// The finished table: the types in slot order and the counts of the
    /// groups in use.
    pub fn finish(self) -> (r: FinishedTypeTable)
        requires
            self.wf(),
            table_finish(self.model()) is Some,
        ensures
            Some(r.model()) == table_finish(self.model()),
            r.wf(),
    {
        let n = self.types.len();
        let mut types: Vec<Type> = Vec::new();
        let mut i: usize = 0;
        while i < n
            invariant
                0 <= i <= n,
                n == self.types@.len(),
                forall|k: int| 0 <= k < n ==> self.types@[k] is Some,
                types@ == self.types@.take(i as int).map_values(|o: Option<Type>| o->0),
            decreases n - i,
        {
            let t = match self.types[i] {
                Some(t) => t,
                None => Type::Numeric(NumericSymbol::U8),
            };
            types.push(t);
            i = i + 1;
            proof {
                assert(types@ =~= self.types@.take(i as int).map_values(|o: Option<Type>| o->0));
            }
        }
        assert(self.types@.take(n as int) =~= self.types@);
        let count = self.meta.count;
        let mut counts: Vec<u16> = Vec::new();
        let mut g: usize = 0;
        while g <= count as usize
            invariant
                0 <= g <= count as int + 1,
                count as int + 1 <= self.meta.inner@.len(),
                counts@ == self.meta.inner@.take(g as int),
            decreases count as int + 1 - g,
        {
            counts.push(self.meta.inner[g]);
            g = g + 1;
            proof {
                assert(counts@ =~= self.meta.inner@.take(g as int));
            }
        }
        FinishedTypeTable { meta: GroupsMeta { count, inner: counts }, types }
    }
}

/// The `k`-th builtin numeric type.
pub(crate) fn builtin_symbol(k: usize) -> (r: NumericSymbol)
    requires
        k < 12,
    ensures
        r == builtin_symbols()[k as int],
        r.spec_ordinal() == k,
{
    match k {
        0 => NumericSymbol::U8,
        1 => NumericSymbol::U16,
        2 => NumericSymbol::U32,
        3 => NumericSymbol::U64,
        4 => NumericSymbol::U128,
        5 => NumericSymbol::I8,
        6 => NumericSymbol::I16,
        7 => NumericSymbol::I32,
        8 => NumericSymbol::I64,
        9 => NumericSymbol::I128,
        10 => NumericSymbol::F32,
        _ => NumericSymbol::F64,
    }
}

/// Whether a type identifier points into a finished table.
pub open spec fn table_holds(t: FinishedModel, id: TypeId) -> bool {
    &&& (id.group as int) < t.counts.len()
    &&& 0 <= slot_of(t.counts, id.group, id.index) < t.types.len()
}

/// The type that an identifier points to in a finished table.
pub open spec fn type_at(t: FinishedModel, id: TypeId) -> Type {
    t.types[slot_of(t.counts, id.group, id.index)]
}

/// The finished type table of a protocol.
#[derive(Debug, PartialEq, Eq)]
pub struct FinishedTypeTable {
    meta: GroupsMeta,
    types: Vec<Type>,
}

impl FinishedTypeTable {
    pub closed spec fn model(&self) -> FinishedModel {
        FinishedModel { count: self.meta.count, counts: self.meta.inner@, types: self.types@ }
    }

    /// The counts cover the groups in use and no more than 256 groups.
    pub closed spec fn wf(&self) -> bool {
        &&& self.meta.inner@.len() == self.meta.count + 1
        &&& self.meta.inner@.len() <= 256
    }

    pub fn type_count(&self) -> (r: usize)
        ensures
            r == self.model().types.len(),
    {
        self.types.len()
    }

    pub fn group_count(&self) -> (r: usize)
        ensures
            r == self.model().count,
    {
        self.meta.count as usize
    }

    pub fn types(&self) -> (r: &[Type])
        ensures
            r@ == self.model().types,
    {
        self.types.as_slice()
    }

    /// Whether a type identifier points into the table.
    pub open spec fn holds(&self, id: TypeId) -> bool {
        table_holds(self.model(), id)
    }

    pub fn get_type(&self, id: TypeId) -> (r: &Type)
        requires
            self.wf(),
            self.holds(id),
        ensures
            *r == self.model().types[slot_of(self.model().counts, id.group, id.index)],
    {
        &self.types[self.meta.position_of(id)]
    }

    /// Whether a type identifier points into the table.
    pub fn contains_id(&self, id: TypeId) -> (r: bool)
        requires
            self.wf(),
        ensures
            r == self.holds(id),
    {
        if id.group as usize >= self.meta.inner.len() {
            return false;
        }
        self.meta.position_of(id) < self.types.len()
    }

    pub fn name_of_type(&self, id: TypeId) -> (r: StringId)
        requires
            self.wf(),
            self.holds(id),
            !(self.model().types[slot_of(self.model().counts, id.group, id.index)] is Array),
        ensures
            r@ == self.model().types[slot_of(self.model().counts, id.group, id.index)].spec_name(),
    {
        self.get_type(id).name()
    }

    /// A finished table with the given parts.
    pub fn from_parts(count: u8, counts: Vec<u16>, types: Vec<Type>) -> (r: Self)
        ensures
            r.model() == (FinishedModel { count, counts: counts@, types: types@ }),
            counts@.len() == count + 1 ==> r.wf(),
    {
        FinishedTypeTable { meta: GroupsMeta { count, inner: counts }, types }
    }

    /// The parts of the table.
    pub fn counts(&self) -> (r: &[u16])
        ensures
            r@ == self.model().counts,
    {
        self.meta.inner.as_slice()
    }
}

} // verus!
