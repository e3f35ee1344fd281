//! Packed size/alignment descriptors and type identifiers.
use vstd::prelude::*;

use crate::error::{ErrorView, ProtocolError, ProtocolErrorExt, rview};
use crate::pool::StringId;
use crate::size::{Align, Size, align_of_raw, is_allowed_align, raw_of_align};

verus! {

/// The size stored in a packed descriptor (its upper five bits).
pub open spec fn meta_size(v: u8) -> u8 {
    v / 8
}

/// The raw alignment stored in a packed descriptor (its lower three bits).
pub open spec fn meta_raw_align(v: u8) -> u8 {
    v % 8
}

/// The descriptor byte of a size and a raw alignment.
pub open spec fn meta_pack(size: u8, raw: u8) -> u8 {
    (size * 8 + raw) as u8
}

/// What [`TypeMeta::new`] gives for a size and an alignment in bytes.
pub open spec fn spec_meta_new(size: u8, align: u8) -> Result<u8, ErrorView> {
    if size == 0 || size > 28 {
        Err(ErrorView::InvalidSize(size as usize))
    } else if align > 8 {
        Err(ErrorView::ForbiddenAlign(align))
    } else if !is_allowed_align(align) {
        Err(ErrorView::AlignIsNotPowerOfTwo(align))
    } else {
        Ok(meta_pack(size, raw_of_align(align)))
    }
}

/// What [`TypeMeta::new_typed`] gives for a size and a raw alignment.
pub open spec fn spec_meta_new_raw(size: u8, raw: u8) -> Result<u8, ErrorView> {
    if size == 0 || size > 28 {
        Err(ErrorView::InvalidSize(size as usize))
    } else if raw > 3 {
        Err(ErrorView::ForbiddenRawAlign(raw))
    } else {
        Ok(meta_pack(size, raw))
    }
}

/// A size (at most 28) and an alignment (1, 2, 4 or 8) packed into one byte:
/// * `XXXXX___` - size
/// * `_____XXX` - raw alignment (base-2 logarithm)
#[derive(Debug, Clone, Copy, PartialEq, Eq)]
pub struct TypeMeta {
    pub value: u8,
}

impl View for TypeMeta {
    type V = u8;

    open spec fn view(&self) -> u8 {
        self.value
    }
}

proof fn lemma_pack(size: u8, raw: u8)
    requires
        size <= 28,
        raw <= 7,
    ensures
        (size << 3u8) | raw == meta_pack(size, raw),
        meta_size(meta_pack(size, raw)) == size,
        meta_raw_align(meta_pack(size, raw)) == raw,
{
    assert((size << 3u8) | raw == ((size * 8 + raw) as u8)) by (bit_vector)
        requires
            size <= 28,
            raw <= 7,
    ;
}

impl TypeMeta {
    /// A descriptor is valid when its size lies in `1..=28` and its raw
    /// alignment in `0..=3`.
    pub open spec fn wf(self) -> bool {
        1 <= meta_size(self@) <= 28 && meta_raw_align(self@) <= 3
    }

    pub open spec fn spec_size(self) -> u8 {
        meta_size(self@)
    }

    pub open spec fn spec_align(self) -> u8 {
        align_of_raw(meta_raw_align(self@))
    }

    /// * Size: 0 < `size` <= 28
    /// * Align: `[1, 2, 4, 8]`
    pub fn new(size: u8, align: u8) -> (r: Result<Self, ProtocolError>)
        ensures
            rview(r) == spec_meta_new(size, align),
            r matches Ok(m) ==> m.wf() && m.spec_size() == size && m.spec_align() == align,
    {
        if size == 0 || size > Size::MAX_VALUE {
            return Err(ProtocolError::InvalidSize(size as usize));
        }
        if align > 8 {
            return Err(ProtocolError::ForbiddenAlign(align));
        }
        if !(align == 1 || align == 2 || align == 4 || align == 8) {
            return Err(ProtocolError::AlignIsNotPowerOfTwo(align));
        }
        let raw = Align::to_raw(align);
        proof {
            lemma_pack(size, raw);
        }
        let size = size << 3;
        let value = size | raw;
        Ok(Self { value })
    }

    /// * Size: 0 < `size` <= 28
    /// * Align: `[0, 1, 2, 3]`
    fn new_raw(size: u8, align: u8) -> (r: Result<Self, ProtocolError>)
        ensures
            rview(r) == spec_meta_new_raw(size, align),
            r matches Ok(m) ==> m.wf() && m.spec_size() == size && meta_raw_align(m@) == align,
    {
        if size == 0 || size > Size::MAX_VALUE {
            return Err(ProtocolError::InvalidSize(size as usize));
        }
        if align > 3 {
            return Err(ProtocolError::ForbiddenRawAlign(align));
        }
        proof {
            lemma_pack(size, align);
        }
        let size = size << 3;
        let value = size | align;
        Ok(Self { value })
    }

    pub fn new_typed(size: Size, align: Align) -> (r: Result<Self, ProtocolError>)
        ensures
            rview(r) == spec_meta_new_raw(size@, align.spec_raw()),
            r matches Ok(m) ==> m.wf() && m.spec_size() == size@ && m.spec_align()
                == align.spec_value(),
    {
        let size = size.value();
        let align = align.raw_value();
        Self::new_raw(size, align)
    }

    fn new_raw_with_assert(size: u8, align: u8) -> (r: Self)
        requires
            1 <= size <= 28,
            align <= 3,
        ensures
            r@ == meta_pack(size, align),
            r.wf(),
            r.spec_size() == size,
            meta_raw_align(r@) == align,
    {
        proof {
            lemma_pack(size, align);
        }
        let size = size << 3;
        let value = size | align;
        Self { value }
    }

    pub(crate) fn new_with_assert(size: Size, align: Align) -> (r: Self)
        requires
            size.wf(),
        ensures
            r@ == meta_pack(size@, align.spec_raw()),
            r.wf(),
            r.spec_size() == size@,
            r.spec_align() == align.spec_value(),
    {
        let size = size.value();
        let align = align.raw_value();
        Self::new_raw_with_assert(size, align)
    }

    pub fn size(self) -> (r: Size)
        requires
            self.wf(),
        ensures
            r@ == self.spec_size(),
            r.wf(),
    {
        let v = self.value;
        assert(v >> 3u8 == v / 8) by (bit_vector);
        Size::new(v >> 3).unwrap()
    }

    pub fn align(self) -> (r: Align)
        requires
            self.wf(),
        ensures
            r.spec_raw() == meta_raw_align(self@),
            r.spec_value() == self.spec_align(),
    {
        let v = self.value;
        assert(v & 7u8 == v % 8) by (bit_vector);
        Align::from_raw(v & 7)
    }
}

impl Default for TypeMeta {
    fn default() -> (r: Self)
        ensures
            r@ == meta_pack(1, 0),
            r.wf(),
            r.spec_size() == 1,
            r.spec_align() == 1,
    {
        Self::new_with_assert(Size::b1(), Align::B1)
    }
}

impl ProtocolErrorExt<TypeMeta> for Result<TypeMeta, ProtocolError> {
    fn or_save_to(self, errors: &mut Vec<ProtocolError>) -> (r: TypeMeta)
        ensures
            match self {
                Ok(v) => r == v && final(errors)@ == old(errors)@,
                Err(e) => r@ == meta_pack(1, 0) && final(errors)@ == old(errors)@.push(e),
            },
    {
        match self {
            Ok(value) => value,
            Err(error) => {
                errors.push(error);
                TypeMeta::default()
            },
        }
    }
}

/// Packing and unpacking a descriptor gives back its size and alignment.
pub proof fn lemma_meta_roundtrip(size: u8, align: u8)
    requires
        1 <= size <= 28,
        is_allowed_align(align),
    ensures
        spec_meta_new(size, align) matches Ok(v) && meta_size(v) == size && align_of_raw(
            meta_raw_align(v),
        ) == align,
{
    lemma_pack(size, raw_of_align(align));
}

/// A resolved type: its index within its group, its group (non-zero; group 0
/// is never used) and its packed size/alignment.
#[derive(Debug, Clone, Copy, PartialEq, Eq)]
pub struct TypeId {
    pub index: u16,
    pub group: u8,
    pub meta: TypeMeta,
}

impl TypeId {
    pub open spec fn wf(self) -> bool {
        self.spec_group() >= 1 && self.spec_meta().wf()
    }

    pub open spec fn spec_index(self) -> u16 {
        self.index
    }

    pub open spec fn spec_group(self) -> u8 {
        self.group
    }

    pub open spec fn spec_meta(self) -> TypeMeta {
        self.meta
    }

    pub(crate) fn new(group: u8, id: StringId, meta: TypeMeta) -> (r: Self)
        requires
            group >= 1,
        ensures
            r.spec_group() == group,
            r.spec_index() == id@,
            r.spec_meta() == meta,
    {
        TypeId { group, index: id.value(), meta }
    }

    pub fn index(self) -> (r: u16)
        ensures
            r == self.spec_index(),
    {
        self.index
    }

    pub fn group(self) -> (r: u8)
        ensures
            r == self.spec_group(),
    {
        self.group
    }

    pub fn meta(self) -> (r: TypeMeta)
        ensures
            r == self.spec_meta(),
    {
        self.meta
    }

    pub fn size(self) -> (r: Size)
        requires
            self.wf(),
        ensures
            r@ == self.spec_meta().spec_size(),
            r.wf(),
    {
        self.meta.size()
    }

    pub fn align(self) -> (r: Align)
        requires
            self.wf(),
        ensures
            r.spec_value() == self.spec_meta().spec_align(),
    {
        self.meta.align()
    }
}

} // verus!
