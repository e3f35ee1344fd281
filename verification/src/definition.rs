//! The compiled protocol definition and its access mode.
use vstd::prelude::*;

use crate::bounded::BoundedVec;
use crate::constraints::{HEADER_BYTES, MAX_FIELDS, MAX_GROUPS, MAX_MESSAGES, MAX_PAYLOAD, MAX_VARIANTS};
use crate::error::{ErrorView, ProtocolError, ProtocolErrorExt, rview};
use crate::layout::{
    fields_wf, layout_end, layout_max_align, layout_paddings, spec_struct_meta, field_align, lemma_field_dims,
    lemma_layout_end_is_sizes_plus_paddings, lemma_layout_end_min, lemma_layout_end_prefix,
    lemma_layout_end_step, lemma_max_align, lemma_padding_bounds, lemma_total_size_nonneg,
};
use crate::meta::TypeMeta;
use crate::pool::StringId;
use crate::symbols::{FieldSymbol, Fields, GroupSymbol, MessageSymbol, Messages, Type, Variants};
use crate::table::{FinishedModel, FinishedTypeTable};
use crate::text::str_eq;
use crate::version::Version;

verus! {

/// Whether one or several nodes may write a protocol's messages.
#[derive(Debug, Clone, Copy, PartialEq, Eq, PartialOrd, Ord, Hash)]
pub enum Access {
    ExclusiveWrite,
    MultipleWrite,
}

/// What [`Access::new`] reads from a string.
pub open spec fn spec_access(s: Seq<char>) -> Result<Access, ErrorView> {
    if s == "ExclusiveWrite"@ {
        Ok(Access::ExclusiveWrite)
    } else if s == "MultipleWrite"@ {
        Ok(Access::MultipleWrite)
    } else {
        Err(ErrorView::InvalidAccess(s))
    }
}

impl View for Access {
    type V = Access;

    open spec fn view(&self) -> Access {
        *self
    }
}

impl Access {
    pub fn new(string: &str) -> (r: Result<Access, ProtocolError>)
        ensures
            rview(r) == spec_access(string@),
    {
        if str_eq(string, "ExclusiveWrite") {
            Ok(Access::ExclusiveWrite)
        } else if str_eq(string, "MultipleWrite") {
            Ok(Access::MultipleWrite)
        } else {
            Err(ProtocolError::InvalidAccess(string.to_owned()))
        }
    }

    /// The name of the access mode, as [`Access::new`] reads it.
    pub fn as_str(&self) -> (r: &'static str)
        ensures
            spec_access(r@) == Ok::<Access, ErrorView>(*self),
    {
        proof {
            reveal_strlit("ExclusiveWrite");
            reveal_strlit("MultipleWrite");
        }
        match self {
            Access::ExclusiveWrite => {
                let s = "ExclusiveWrite";
                assert(s@ == "ExclusiveWrite"@);
                s
            },
            Access::MultipleWrite => {
                let s = "MultipleWrite";
                assert(s@.len() != "ExclusiveWrite"@.len());
                s
            },
        }
    }
}

impl Default for Access {
    fn default() -> (r: Self)
        ensures
            r == Access::ExclusiveWrite,
    {
        Access::ExclusiveWrite
    }
}

impl ProtocolErrorExt<Access> for Result<Access, ProtocolError> {
    fn or_save_to(self, errors: &mut Vec<ProtocolError>) -> (r: Access)
        ensures
            match self {
                Ok(v) => r == v && final(errors)@ == old(errors)@,
                Err(e) => r == Access::ExclusiveWrite && final(errors)@ == old(errors)@.push(e),
            },
    {
        match self {
            Ok(value) => value,
            Err(error) => {
                errors.push(error);
                Access::default()
            },
        }
    }
}

/// The model of a compiled protocol.
#[verifier::ext_equal]
pub struct DefinitionModel {
    pub name: StringId,
    pub version: Version,
    pub access: Access,
    pub variants: Seq<StringId>,
    pub fields: Seq<FieldSymbol>,
    pub groups: Seq<GroupSymbol>,
    pub messages: Seq<MessageSymbol>,
    pub table: FinishedModel,
}

/// A compiled protocol: its name, version and access mode, its symbol
/// lists and its type table.
#[derive(Debug, PartialEq, Eq)]
pub struct ProtocolDefinition {
    name: StringId,
    version: Version,
    access: Access,
    variants: BoundedVec<StringId, MAX_VARIANTS>,
    fields: BoundedVec<FieldSymbol, MAX_FIELDS>,
    groups: BoundedVec<GroupSymbol, MAX_GROUPS>,
    messages: BoundedVec<MessageSymbol, MAX_MESSAGES>,
    table: FinishedTypeTable,
}

/// The run `start..start + len` of a list.
pub open spec fn run_of<T>(s: Seq<T>, start: int, len: int) -> Seq<T> {
    s.subrange(start, start + len)
}

/// The messages of each group, paired with their group, group after group.
pub open spec fn message_pairs(groups: Seq<GroupSymbol>, messages: Seq<MessageSymbol>) -> Seq<
    (GroupSymbol, MessageSymbol),
>
    decreases groups.len(),
{
    if groups.len() == 0 {
        Seq::empty()
    } else {
        let g = groups.last();
        message_pairs(groups.drop_last(), messages) + run_of(
            messages,
            g.messages.start as int,
            g.messages.len as int,
        ).map_values(|m: MessageSymbol| (g, m))
    }
}

/// Every group's message run lies within the message list.
pub open spec fn group_messages_in_range(groups: Seq<GroupSymbol>, messages: Seq<MessageSymbol>) -> bool {
    forall|i: int|
        0 <= i < groups.len() ==> (#[trigger] groups[i]).messages.start + groups[i].messages.len
            <= messages.len()
}

impl ProtocolDefinition {
    pub closed spec fn model(&self) -> DefinitionModel {
        DefinitionModel {
            name: self.name,
            version: self.version,
            access: self.access,
            variants: self.variants@,
            fields: self.fields@,
            groups: self.groups@,
            messages: self.messages@,
            table: self.table.model(),
        }
    }

    /// Every list is within its limit.
    pub closed spec fn wf(&self) -> bool {
        &&& self.variants.wf()
        &&& self.fields.wf()
        &&& self.groups.wf()
        &&& self.messages.wf()
        &&& self.table.wf()
    }

    pub fn new(
        name: StringId,
        version: Version,
        access: Access,
        variants: BoundedVec<StringId, MAX_VARIANTS>,
        fields: BoundedVec<FieldSymbol, MAX_FIELDS>,
        groups: BoundedVec<GroupSymbol, MAX_GROUPS>,
        messages: BoundedVec<MessageSymbol, MAX_MESSAGES>,
        table: FinishedTypeTable,
    ) -> (r: Self)
        ensures
            r.model() == (DefinitionModel {
                name,
                version,
                access,
                variants: variants@,
                fields: fields@,
                groups: groups@,
                messages: messages@,
                table: table.model(),
            }),
            (variants.wf() && fields.wf() && groups.wf() && messages.wf() && table.wf()) ==> r.wf(),
    {
        Self { name, version, access, variants, fields, groups, messages, table }
    }

    pub fn name(&self) -> (r: StringId)
        ensures
            r == self.model().name,
    {
        self.name
    }

    pub fn name_ref(&self) -> (r: &StringId)
        ensures
            *r == self.model().name,
    {
        &self.name
    }

    pub fn version(&self) -> (r: Version)
        ensures
            r == self.model().version,
    {
        self.version
    }

    pub fn access(&self) -> (r: Access)
        ensures
            r == self.model().access,
    {
        self.access
    }

    pub fn groups(&self) -> (r: &[GroupSymbol])
        ensures
            r@ == self.model().groups,
    {
        self.groups.as_slice()
    }

    pub fn messages(&self) -> (r: &[MessageSymbol])
        ensures
            r@ == self.model().messages,
    {
        self.messages.as_slice()
    }

    pub fn fields(&self) -> (r: &[FieldSymbol])
        ensures
            r@ == self.model().fields,
    {
        self.fields.as_slice()
    }

    pub fn variants(&self) -> (r: &[StringId])
        ensures
            r@ == self.model().variants,
    {
        self.variants.as_slice()
    }

    pub fn table(&self) -> (r: &FinishedTypeTable)
        ensures
            r.model() == self.model().table,
            self.wf() ==> r.wf(),
    {
        &self.table
    }

    /// The messages of a run.
    pub fn message_slice(&self, messages: Messages) -> (r: &[MessageSymbol])
        requires
            messages.start + messages.len <= self.model().messages.len(),
        ensures
            r@ == run_of(self.model().messages, messages.start as int, messages.len as int),
    {
        let start = messages.start() as usize;
        let len = messages.len() as usize;
        slice_run(self.messages.as_slice(), start, len)
    }

    /// The fields of a run.
    pub fn field_slice(&self, fields: Fields) -> (r: &[FieldSymbol])
        requires
            fields.start + fields.len <= self.model().fields.len(),
        ensures
            r@ == run_of(self.model().fields, fields.start as int, fields.len as int),
    {
        let start = fields.start() as usize;
        let len = fields.len() as usize;
        slice_run(self.fields.as_slice(), start, len)
    }

    /// The variants of a run.
    pub fn variant_slice(&self, variants: Variants) -> (r: &[StringId])
        requires
            variants.start + variants.len <= self.model().variants.len(),
        ensures
            r@ == run_of(self.model().variants, variants.start as int, variants.len as int),
    {
        let start = variants.start() as usize;
        let len = variants.len() as usize;
        slice_run(self.variants.as_slice(), start, len)
    }

    /// Every message, paired with its group, group after group.
    pub fn message_iter(&self) -> (r: Vec<(GroupSymbol, MessageSymbol)>)
        requires
            group_messages_in_range(self.model().groups, self.model().messages),
        ensures
            r@ == message_pairs(self.model().groups, self.model().messages),
    {
        let groups = self.groups.as_slice();
        let mut out: Vec<(GroupSymbol, MessageSymbol)> = Vec::new();
        let mut i: usize = 0;
        assert(groups@.take(0) =~= Seq::<GroupSymbol>::empty());
        while i < groups.len()
            invariant
                0 <= i <= groups@.len(),
                groups@ == self.model().groups,
                group_messages_in_range(self.model().groups, self.model().messages),
                out@ == message_pairs(groups@.take(i as int), self.model().messages),
            decreases groups.len() - i,
        {
            let g = groups[i];
            let slice = self.message_slice(g.messages());
            let ghost before = out@;
            let mut k: usize = 0;
            while k < slice.len()
                invariant
                    0 <= k <= slice@.len(),
                    out@ == before + slice@.take(k as int).map_values(
                        |m: MessageSymbol| (g, m),
                    ),
                decreases slice.len() - k,
            {
                out.push((g, slice[k]));
                k = k + 1;
                proof {
                    assert(out@ =~= before + slice@.take(k as int).map_values(
                        |m: MessageSymbol| (g, m),
                    ));
                }
            }
            proof {
                let p = groups@.take(i + 1);
                assert(p.drop_last() =~= groups@.take(i as int));
                assert(p.last() == g);
                assert(slice@.take(slice@.len() as int) =~= slice@);
            }
            i = i + 1;
        }
        assert(groups@.take(i as int) =~= groups@);
        out
    }

    /// Each group with its messages and the types of its type range.
    pub fn group_iter(&self) -> (r: Vec<(GroupSymbol, Vec<MessageSymbol>, Vec<Type>)>)
        requires
            group_messages_in_range(self.model().groups, self.model().messages),
            forall|i: int|
                #![trigger self.model().groups[i]]
                0 <= i < self.model().groups.len() ==> {
                    let g = self.model().groups[i];
                    g.enums.start + 12 <= g.structs.start + g.structs.len + 12
                        <= self.model().table.types.len()
                },
        ensures
            r@.len() == self.model().groups.len(),
            forall|i: int|
                #![trigger r@[i]]
                0 <= i < r@.len() ==> {
                    let g = self.model().groups[i];
                    &&& r@[i].0 == g
                    &&& r@[i].1@ == run_of(
                        self.model().messages,
                        g.messages.start as int,
                        g.messages.len as int,
                    )
                    &&& r@[i].2@ == self.model().table.types.subrange(
                        g.enums.start + 12,
                        g.structs.start + g.structs.len + 12,
                    )
                },
    {
        let groups = self.groups.as_slice();
        let types = self.table.types();
        let mut out: Vec<(GroupSymbol, Vec<MessageSymbol>, Vec<Type>)> = Vec::new();
        let mut i: usize = 0;
        while i < groups.len()
            invariant
                0 <= i <= groups@.len(),
                groups@ == self.model().groups,
                types@ == self.model().table.types,
                group_messages_in_range(self.model().groups, self.model().messages),
                forall|j: int|
                    #![trigger self.model().groups[j]]
                    0 <= j < self.model().groups.len() ==> {
                        let g = self.model().groups[j];
                        g.enums.start + 12 <= g.structs.start + g.structs.len + 12
                            <= self.model().table.types.len()
                    },
                out@.len() == i,
                forall|j: int|
                    #![trigger out@[j]]
                    0 <= j < i ==> {
                        let g = self.model().groups[j];
                        &&& out@[j].0 == g
                        &&& out@[j].1@ == run_of(
                            self.model().messages,
                            g.messages.start as int,
                            g.messages.len as int,
                        )
                        &&& out@[j].2@ == self.model().table.types.subrange(
                            g.enums.start + 12,
                            g.structs.start + g.structs.len + 12,
                        )
                    },
            decreases groups.len() - i,
        {
            let g = groups[i];
            assert(self.model().groups[i as int] == g);
            let n_types = types.len();
            let messages = copy_run(self.message_slice(g.messages()), 0, g.messages().len() as usize);
            let range = g.type_range();
            let group_types = copy_run(types, range.start, range.end - range.start);
            out.push((g, messages, group_types));
            i = i + 1;
        }
        out
    }

    /// The padding bytes that the layout of the fields inserts.
    pub fn get_struct_paddings(fields: &[FieldSymbol]) -> (r: u8)
        requires
            fields_wf(fields@),
            layout_end(fields@) <= u8::MAX,
        ensures
            r == layout_paddings(fields@),
    {
        let mut total_size: u8 = HEADER_BYTES;
        let mut paddings: u8 = 0;
        let mut i: usize = 0;
        assert(fields@.take(0) =~= Seq::<FieldSymbol>::empty());
        proof {
            lemma_layout_end_is_sizes_plus_paddings(fields@);
        }
        while i < fields.len()
            invariant
                0 <= i <= fields@.len(),
                fields_wf(fields@),
                layout_end(fields@) <= u8::MAX,
                total_size == layout_end(fields@.take(i as int)),
                paddings == layout_paddings(fields@.take(i as int)),
            decreases fields.len() - i,
        {
            let field = &fields[i];
            proof {
                let p = fields@.take(i + 1);
                assert(p.drop_last() =~= fields@.take(i as int));
                assert(p.last() == fields@[i as int]);
                assert(fields_wf(p));
                lemma_layout_end_prefix(fields@, i + 1);
                lemma_layout_end_step(p);
                lemma_layout_end_is_sizes_plus_paddings(p);
                lemma_total_size_nonneg(p);
                lemma_field_dims(fields@[i as int]);
                lemma_padding_bounds(total_size as int, field_align(fields@[i as int]));
            }
            let tid = field.type_id();
            let size = tid.size().value();
            let align = tid.align().value();
            let padding = (align - (total_size % align)) % align;
            paddings = paddings + padding;
            total_size = total_size + padding + size;
            i = i + 1;
        }
        assert(fields@.take(i as int) =~= fields@);
        paddings
    }

    /// The descriptor of a struct with the given fields.
    pub fn get_struct_meta(fields: &[FieldSymbol]) -> (r: Result<TypeMeta, ProtocolError>)
        requires
            fields_wf(fields@),
            layout_end(fields@) + 8 <= usize::MAX,
        ensures
            rview(r) == spec_struct_meta(fields@),
            r matches Ok(m) ==> m.wf(),
            r matches Ok(m) ==> forall|i: int|
                0 <= i < fields@.len() ==> field_align(#[trigger] fields@[i]) <= m.spec_align() && (
                m.spec_size() + HEADER_BYTES) % field_align(fields@[i]) == 0,
    {
        proof {
            crate::layout::lemma_struct_meta_fits_fields(fields@);
        }
        let mut total_size: usize = HEADER_BYTES as usize;
        let mut max_align: usize = 1;
        let mut i: usize = 0;
        assert(fields@.take(0) =~= Seq::<FieldSymbol>::empty());
        while i < fields.len()
            invariant
                0 <= i <= fields@.len(),
                fields_wf(fields@),
                layout_end(fields@) + 8 <= usize::MAX,
                total_size == layout_end(fields@.take(i as int)),
                max_align == layout_max_align(fields@.take(i as int)),
            decreases fields.len() - i,
        {
            let field = &fields[i];
            proof {
                let p = fields@.take(i + 1);
                assert(p.drop_last() =~= fields@.take(i as int));
                assert(p.last() == fields@[i as int]);
                assert(fields_wf(p));
                lemma_layout_end_prefix(fields@, i + 1);
                lemma_layout_end_step(p);
                lemma_field_dims(fields@[i as int]);
                lemma_padding_bounds(total_size as int, field_align(fields@[i as int]));
            }
            let tid = field.type_id();
            let size = tid.size().value() as usize;
            let align = tid.align().value() as usize;
            if align > max_align {
                max_align = align;
            }
            let padding = (align - (total_size % align)) % align;
            total_size += padding + size;
            i = i + 1;
        }
        assert(fields@.take(i as int) =~= fields@);
        proof {
            lemma_max_align(fields@);
            lemma_layout_end_min(fields@);
            lemma_padding_bounds(total_size as int, max_align as int);
        }
        let tail_padding = (max_align - (total_size % max_align)) % max_align;
        total_size += tail_padding;
        total_size -= HEADER_BYTES as usize;
        if total_size > MAX_PAYLOAD {
            return Err(ProtocolError::InvalidSize(total_size));
        }
        TypeMeta::new(total_size as u8, max_align as u8)
    }
}

/// The run `start..start + len` of a slice.
fn slice_run<T>(s: &[T], start: usize, len: usize) -> (r: &[T])
    requires
        start + len <= s@.len(),
    ensures
        r@ == s@.subrange(start as int, start + len),
{
    let n = s.len();
    vstd::slice::slice_subrange(s, start, start + len)
}

/// A copy of the run `start..start + len` of a slice.
fn copy_run<T: Copy>(s: &[T], start: usize, len: usize) -> (r: Vec<T>)
    requires
        start + len <= s@.len(),
    ensures
        r@ == s@.subrange(start as int, start + len),
{
    let n = s.len();
    let mut out: Vec<T> = Vec::new();
    let mut k: usize = 0;
    while k < len
        invariant
            0 <= k <= len,
            start + len <= s@.len(),
            n == s@.len(),
            out@ == s@.subrange(start as int, start + k),
        decreases len - k,
    {
        out.push(s[start + k]);
        k = k + 1;
        proof {
            assert(out@ =~= s@.subrange(start as int, start + k));
        }
    }
    out
}

} // verus!

