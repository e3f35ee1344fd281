//! Memory layout of structs and messages: fields are placed after the
//! message header, each at the next offset that its alignment allows.
use vstd::prelude::*;

use crate::constraints::{HEADER_BYTES, MAX_PAYLOAD};
use crate::error::{ErrorView, ProtocolError, rview};
use crate::meta::{TypeMeta, lemma_meta_roundtrip, meta_raw_align, meta_size, spec_meta_new};
use crate::size::align_of_raw;
use crate::size::is_allowed_align;
use crate::symbols::FieldSymbol;

verus! {

/// The byte size of a field's type.
pub open spec fn field_size(f: FieldSymbol) -> int {
    f.spec_type_id().spec_meta().spec_size() as int
}

/// The alignment of a field's type.
pub open spec fn field_align(f: FieldSymbol) -> int {
    f.spec_type_id().spec_meta().spec_align() as int
}

/// Every field has a valid type descriptor.
pub open spec fn fields_wf(fields: Seq<FieldSymbol>) -> bool {
    forall|i: int| 0 <= i < fields.len() ==> (#[trigger] fields[i]).spec_type_id().wf()
}

/// The padding that moves `offset` to the next multiple of `align`.
pub open spec fn padding_for(offset: int, align: int) -> int {
    (align - offset % align) % align
}

/// The offset just past the last field, counting the header.
pub open spec fn layout_end(fields: Seq<FieldSymbol>) -> int
    decreases fields.len(),
{
    if fields.len() == 0 {
        HEADER_BYTES as int
    } else {
        let t = layout_end(fields.drop_last());
        t + padding_for(t, field_align(fields.last())) + field_size(fields.last())
    }
}

/// The padding bytes inserted before the fields.
pub open spec fn layout_paddings(fields: Seq<FieldSymbol>) -> int
    decreases fields.len(),
{
    if fields.len() == 0 {
        0
    } else {
        let t = layout_end(fields.drop_last());
        layout_paddings(fields.drop_last()) + padding_for(t, field_align(fields.last()))
    }
}

/// The sum of the field sizes.
pub open spec fn fields_total_size(fields: Seq<FieldSymbol>) -> int
    decreases fields.len(),
{
    if fields.len() == 0 {
        0
    } else {
        fields_total_size(fields.drop_last()) + field_size(fields.last())
    }
}

/// The largest field alignment (1 when there are no fields).
pub open spec fn layout_max_align(fields: Seq<FieldSymbol>) -> int
    decreases fields.len(),
{
    if fields.len() == 0 {
        1
    } else {
        let m = layout_max_align(fields.drop_last());
        if field_align(fields.last()) > m {
            field_align(fields.last())
        } else {
            m
        }
    }
}

/// The payload size of a struct: the laid-out fields, padded at the end to
/// the largest alignment, without the header.
pub open spec fn struct_payload(fields: Seq<FieldSymbol>) -> int {
    let t = layout_end(fields);
    t + padding_for(t, layout_max_align(fields)) - HEADER_BYTES
}

/// What a struct's descriptor is: an error when the payload exceeds
/// [`MAX_PAYLOAD`], else the descriptor of the payload size and the
/// largest alignment.
pub open spec fn spec_struct_meta(fields: Seq<FieldSymbol>) -> Result<u8, ErrorView> {
    let payload = struct_payload(fields);
    if payload > MAX_PAYLOAD {
        Err(ErrorView::InvalidSize(payload as usize))
    } else {
        spec_meta_new(payload as u8, layout_max_align(fields) as u8)
    }
}

pub(crate) proof fn lemma_padding_bounds(offset: int, align: int)
    requires
        offset >= 0,
        align >= 1,
    ensures
        0 <= padding_for(offset, align) < align,
        (offset + padding_for(offset, align)) % align == 0,
{
    let r = offset % align;
    assert(0 <= r < align) by (nonlinear_arith)
        requires
            offset >= 0,
            align >= 1,
            r == offset % align,
    ;
    if r == 0 {
        assert((align - r) % align == 0) by (nonlinear_arith)
            requires
                align >= 1,
                r == 0,
        ;
        assert((offset + 0) % align == 0);
    } else {
        assert((align - r) % align == align - r) by (nonlinear_arith)
            requires
                0 < r < align,
        ;
        assert((offset + (align - r)) % align == 0) by (nonlinear_arith)
            requires
                align >= 1,
                r == offset % align,
                0 < r < align,
        ;
    }
}

pub(crate) proof fn lemma_field_dims(f: FieldSymbol)
    requires
        f.spec_type_id().wf(),
    ensures
        1 <= field_size(f) <= 28,
        is_allowed_align(field_align(f) as u8),
        1 <= field_align(f) <= 8,
{
}

/// Laying out one more field never moves the end backwards.
pub(crate) proof fn lemma_layout_end_step(fields: Seq<FieldSymbol>)
    requires
        fields.len() > 0,
        fields_wf(fields),
    ensures
        layout_end(fields.drop_last()) < layout_end(fields),
        layout_end(fields) <= layout_end(fields.drop_last()) + 35,
        layout_end(fields.drop_last()) >= 4,
{
    lemma_layout_end_min(fields.drop_last());
    lemma_field_dims(fields.last());
    lemma_padding_bounds(layout_end(fields.drop_last()), field_align(fields.last()));
}

pub(crate) proof fn lemma_layout_end_min(fields: Seq<FieldSymbol>)
    requires
        fields_wf(fields),
    ensures
        layout_end(fields) >= 4,
    decreases fields.len(),
{
    if fields.len() > 0 {
        assert(fields_wf(fields.drop_last()));
        lemma_layout_end_min(fields.drop_last());
        lemma_field_dims(fields.last());
        lemma_padding_bounds(layout_end(fields.drop_last()), field_align(fields.last()));
    }
}

/// The end of a prefix never exceeds the end of the whole.
pub(crate) proof fn lemma_layout_end_prefix(fields: Seq<FieldSymbol>, i: int)
    requires
        0 <= i <= fields.len(),
        fields_wf(fields),
    ensures
        layout_end(fields.take(i)) <= layout_end(fields),
    decreases fields.len() - i,
{
    if i < fields.len() {
        lemma_layout_end_prefix(fields, i + 1);
        let p = fields.take(i + 1);
        assert(p.drop_last() =~= fields.take(i));
        assert(fields_wf(p));
        lemma_layout_end_step(p);
    } else {
        assert(fields.take(i) =~= fields);
    }
}

pub(crate) proof fn lemma_total_size_nonneg(fields: Seq<FieldSymbol>)
    requires
        fields_wf(fields),
    ensures
        fields_total_size(fields) >= 0,
    decreases fields.len(),
{
    if fields.len() > 0 {
        assert(fields_wf(fields.drop_last()));
        lemma_total_size_nonneg(fields.drop_last());
        lemma_field_dims(fields.last());
    }
}

/// Each field adds at most 35 bytes (7 of padding, 28 of size).
pub(crate) proof fn lemma_layout_end_bound(fields: Seq<FieldSymbol>)
    requires
        fields_wf(fields),
    ensures
        layout_end(fields) <= HEADER_BYTES + 35 * fields.len(),
    decreases fields.len(),
{
    if fields.len() > 0 {
        assert(fields_wf(fields.drop_last()));
        lemma_layout_end_bound(fields.drop_last());
        lemma_layout_end_step(fields);
    }
}

/// The largest alignment is an allowed alignment.
pub(crate) proof fn lemma_max_align(fields: Seq<FieldSymbol>)
    requires
        fields_wf(fields),
    ensures
        is_allowed_align(layout_max_align(fields) as u8),
        1 <= layout_max_align(fields) <= 8,
    decreases fields.len(),
{
    if fields.len() > 0 {
        assert(fields_wf(fields.drop_last()));
        lemma_max_align(fields.drop_last());
        lemma_field_dims(fields.last());
    }
}

/// Each field starts at a multiple of its alignment.
pub proof fn lemma_field_offsets_aligned(fields: Seq<FieldSymbol>, i: int)
    requires
        fields_wf(fields),
        0 <= i < fields.len(),
    ensures
        ({
            let t = layout_end(fields.take(i));
            (t + padding_for(t, field_align(fields[i]))) % field_align(fields[i]) == 0
        }),
{
    let p = fields.take(i);
    assert(fields_wf(p));
    lemma_layout_end_min(p);
    lemma_field_dims(fields[i]);
    lemma_padding_bounds(layout_end(p), field_align(fields[i]));
}

/// The end of the layout is the header, plus the field sizes, plus the
/// paddings between them.
pub proof fn lemma_layout_end_is_sizes_plus_paddings(fields: Seq<FieldSymbol>)
    ensures
        layout_end(fields) == HEADER_BYTES + fields_total_size(fields) + layout_paddings(fields),
    decreases fields.len(),
{
    if fields.len() > 0 {
        lemma_layout_end_is_sizes_plus_paddings(fields.drop_last());
    }
}

/// The payload of a struct, with the header, is a multiple of its largest
/// alignment, and it covers every field.
pub proof fn lemma_struct_payload_aligned(fields: Seq<FieldSymbol>)
    requires
        fields_wf(fields),
    ensures
        (struct_payload(fields) + HEADER_BYTES) % layout_max_align(fields) == 0,
        struct_payload(fields) + HEADER_BYTES >= layout_end(fields),
{
    lemma_layout_end_min(fields);
    lemma_max_align(fields);
    lemma_padding_bounds(layout_end(fields), layout_max_align(fields));
}

/// A struct is aligned as its most aligned field: no field's alignment
/// exceeds the struct's, and when there are fields, the struct's is one of
/// theirs (with no fields it is 1).
pub proof fn lemma_max_align_is_largest(fields: Seq<FieldSymbol>)
    requires
        fields_wf(fields),
    ensures
        forall|i: int| 0 <= i < fields.len() ==> field_align(#[trigger] fields[i]) <= layout_max_align(fields),
        fields.len() > 0 ==> exists|i: int|
            0 <= i < fields.len() && layout_max_align(fields) == field_align(#[trigger] fields[i]),
        fields.len() == 0 ==> layout_max_align(fields) == 1,
    decreases fields.len(),
{
    if fields.len() > 0 {
        let init = fields.drop_last();
        assert(fields_wf(init));
        lemma_max_align_is_largest(init);
        lemma_field_dims(fields.last());
        let n = fields.len() - 1;
        assert forall|i: int| 0 <= i < fields.len() implies field_align(#[trigger] fields[i])
            <= layout_max_align(fields) by {
            if i < n {
                assert(fields[i] == init[i]);
            }
        }
        if field_align(fields.last()) > layout_max_align(init) {
            assert(layout_max_align(fields) == field_align(fields[n]));
        } else if n == 0 {
            lemma_field_dims(fields[0]);
            assert(layout_max_align(fields) == field_align(fields[0]));
        } else {
            let i = choose|i: int| 0 <= i < init.len() && layout_max_align(init) == field_align(
                #[trigger] init[i],
            );
            assert(fields[i] == init[i]);
            assert(layout_max_align(fields) == field_align(fields[i]));
        }
    }
}

/// Among the allowed alignments, a smaller one divides a larger one.
proof fn lemma_align_divides(x: int, a: int, m: int)
    requires
        a == 1 || a == 2 || a == 4 || a == 8,
        m == 1 || m == 2 || m == 4 || m == 8,
        a <= m,
        x >= 0,
        x % m == 0,
    ensures
        x % a == 0,
{
    assert(x % m == 0 && a <= m ==> x % a == 0) by (nonlinear_arith)
        requires
            a == 1 || a == 2 || a == 4 || a == 8,
            m == 1 || m == 2 || m == 4 || m == 8,
            x >= 0,
    ;
}

/// What a struct's descriptor says of its fields: its alignment is at
/// least every field's alignment (and equals one of them), its size
/// covers every field, and its size with the header is a multiple of every
/// field's alignment, so that the struct can follow itself in an array.
pub proof fn lemma_struct_meta_fits_fields(fields: Seq<FieldSymbol>)
    requires
        fields_wf(fields),
    ensures
        spec_struct_meta(fields) matches Ok(v) ==> {
            &&& forall|i: int|
                0 <= i < fields.len() ==> field_align(#[trigger] fields[i]) <= align_of_raw(
                    meta_raw_align(v),
                ) && (meta_size(v) + HEADER_BYTES) % field_align(fields[i]) == 0
            &&& fields.len() > 0 ==> exists|i: int|
                0 <= i < fields.len() && align_of_raw(meta_raw_align(v)) == field_align(
                    #[trigger] fields[i],
                )
            &&& meta_size(v) >= fields_total_size(fields)
        },
{
    if let Ok(v) = spec_struct_meta(fields) {
        lemma_max_align_is_largest(fields);
        lemma_max_align(fields);
        lemma_struct_payload_aligned(fields);
        lemma_layout_end_is_sizes_plus_paddings(fields);
        lemma_paddings_nonneg(fields);
        let payload = struct_payload(fields);
        let m = layout_max_align(fields);
        lemma_layout_end_min(fields);
        lemma_padding_bounds(layout_end(fields), m);
        assert(1 <= payload <= 28);
        lemma_meta_roundtrip(payload as u8, m as u8);
        assert forall|i: int| 0 <= i < fields.len() implies field_align(#[trigger] fields[i])
            <= align_of_raw(meta_raw_align(v)) && (meta_size(v) + HEADER_BYTES) % field_align(fields[i])
            == 0 by {
            lemma_field_dims(fields[i]);
            lemma_align_divides(payload + HEADER_BYTES, field_align(fields[i]), m);
        }
    }
}

/// The padding bytes are never negative.
proof fn lemma_paddings_nonneg(fields: Seq<FieldSymbol>)
    requires
        fields_wf(fields),
    ensures
        layout_paddings(fields) >= 0,
    decreases fields.len(),
{
    if fields.len() > 0 {
        assert(fields_wf(fields.drop_last()));
        lemma_paddings_nonneg(fields.drop_last());
        lemma_layout_end_min(fields.drop_last());
        lemma_field_dims(fields.last());
        lemma_padding_bounds(layout_end(fields.drop_last()), field_align(fields.last()));
    }
}

/// One step of a layout: where a field goes and how much padding precedes
/// it.
pub struct LayoutStep {
    pub size: u8,
    pub align: u8,
    pub padding: u8,
    pub offset: u8,
}

/// The padding bytes of a run of layout steps, added up.
pub open spec fn step_paddings(steps: Seq<LayoutStep>) -> int
    decreases steps.len(),
{
    if steps.len() == 0 {
        0
    } else {
        step_paddings(steps.drop_last()) + steps.last().padding
    }
}

/// The paddings of the steps of a layout add up to the struct's paddings:
/// whenever each step carries the padding that its field gets after the
/// fields before it, their sum is the padding of the whole layout.
pub proof fn lemma_step_paddings_sum(fields: Seq<FieldSymbol>, steps: Seq<LayoutStep>)
    requires
        steps.len() == fields.len(),
        forall|i: int|
            0 <= i < fields.len() ==> (#[trigger] steps[i]).padding == padding_for(
                layout_end(fields.take(i)),
                field_align(fields[i]),
            ),
    ensures
        step_paddings(steps) == layout_paddings(fields),
    decreases fields.len(),
{
    if fields.len() > 0 {
        let n = fields.len() - 1;
        let f1 = fields.drop_last();
        let s1 = steps.drop_last();
        assert forall|i: int| 0 <= i < f1.len() implies (#[trigger] s1[i]).padding == padding_for(
            layout_end(f1.take(i)),
            field_align(f1[i]),
        ) by {
            assert(f1.take(i) =~= fields.take(i));
            assert(steps[i] == s1[i]);
        }
        lemma_step_paddings_sum(f1, s1);
        assert(fields.take(n) =~= f1);
        assert(steps[n] == steps.last());
    }
}

/// Lays out the fields after the header; gives each field's step and the
/// offset just past the last field.
pub fn compute_layout(fields: &[FieldSymbol]) -> (r: (Vec<LayoutStep>, u8))
    requires
        fields_wf(fields@),
        layout_end(fields@) <= u8::MAX,
    ensures
        r.1 == layout_end(fields@),
        r.0.len() == fields@.len(),
        forall|i: int|
            0 <= i < fields@.len() ==> {
                let t = layout_end(fields@.take(i));
                let a = field_align(fields@[i]);
                &&& (#[trigger] r.0@[i]).size == field_size(fields@[i])
                &&& r.0@[i].align == a
                &&& r.0@[i].padding == padding_for(t, a)
                &&& r.0@[i].offset == t + padding_for(t, a)
            },
        step_paddings(r.0@) == layout_paddings(fields@),
{
    let mut steps: Vec<LayoutStep> = Vec::new();
    let mut total_size: u8 = HEADER_BYTES;
    let mut i: usize = 0;
    assert(fields@.take(0) =~= Seq::<FieldSymbol>::empty());
    while i < fields.len()
        invariant
            0 <= i <= fields@.len(),
            fields_wf(fields@),
            layout_end(fields@) <= u8::MAX,
            total_size == layout_end(fields@.take(i as int)),
            steps.len() == i,
            forall|j: int|
                0 <= j < i ==> {
                    let t = layout_end(fields@.take(j));
                    let a = field_align(fields@[j]);
                    &&& (#[trigger] steps@[j]).size == field_size(fields@[j])
                    &&& steps@[j].align == a
                    &&& steps@[j].padding == padding_for(t, a)
                    &&& steps@[j].offset == t + padding_for(t, a)
                },
        decreases fields.len() - i,
    {
        let field = &fields[i];
        proof {
            let p = fields@.take(i + 1);
            assert(p.drop_last() =~= fields@.take(i as int));
            assert(p.last() == fields@[i as int]);
            assert(fields_wf(p));
            lemma_layout_end_prefix(fields@, i + 1);
            lemma_layout_end_step(p);
            lemma_field_dims(fields@[i as int]);
            lemma_padding_bounds(total_size as int, field_align(fields@[i as int]));
        }
        let tid = field.type_id();
        let size = tid.size().value();
        let align = tid.align().value();
        let padding = (align - (total_size % align)) % align;
        steps.push(LayoutStep { size, align, padding, offset: total_size + padding });
        total_size = total_size + padding + size;
        i = i + 1;
    }
    assert(fields@.take(i as int) =~= fields@);
    proof {
        lemma_step_paddings_sum(fields@, steps@);
    }
    (steps, total_size)
}

} // verus!
