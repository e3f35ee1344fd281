//! Sizes and alignments of protocol types.
use vstd::prelude::*;

use crate::error::{ErrorView, ProtocolError, ProtocolErrorExt, rview};

verus! {

/// A byte size that is non-zero and at most [`Size::MAX_VALUE`].
#[derive(Debug, Clone, Copy, PartialEq, Eq)]
pub struct Size {
    pub value: u8,
}

impl View for Size {
    type V = u8;

    open spec fn view(&self) -> u8 {
        self.value
    }
}

/// What [`Size::new`] gives for a byte count.
pub open spec fn spec_size_new(size: u8) -> Result<u8, ErrorView> {
    if size == 0 || size > 28 {
        Err(ErrorView::InvalidSize(size as usize))
    } else {
        Ok(size)
    }
}

impl Size {
    pub const MAX_VALUE: u8 = 28;

    /// A size is valid when it lies in `1..=MAX_VALUE`.
    pub open spec fn wf(self) -> bool {
        1 <= self@ <= 28
    }

    pub fn new(size: u8) -> (r: Result<Self, ProtocolError>)
        ensures
            rview(r) == spec_size_new(size),
            r matches Ok(s) ==> s.wf(),
    {
        if size > Self::MAX_VALUE {
            return Err(ProtocolError::InvalidSize(size as usize));
        }
        if size == 0 {
            return Err(ProtocolError::InvalidSize(0));
        }
        Ok(Size { value: size })
    }

    pub fn value(self) -> (r: u8)
        ensures
            r == self@,
    {
        self.value
    }

    pub fn b1() -> (r: Self)
        ensures r@ == 1, r.wf(),
    {
        Size { value: 1 }
    }

    pub fn b2() -> (r: Self)
        ensures r@ == 2, r.wf(),
    {
        Size { value: 2 }
    }

    pub fn b4() -> (r: Self)
        ensures r@ == 4, r.wf(),
    {
        Size { value: 4 }
    }

    pub fn b8() -> (r: Self)
        ensures r@ == 8, r.wf(),
    {
        Size { value: 8 }
    }

    pub fn b16() -> (r: Self)
        ensures r@ == 16, r.wf(),
    {
        Size { value: 16 }
    }
}

impl Default for Size {
    fn default() -> (r: Self)
        ensures
            r@ == 1,
    {
        Size { value: 1 }
    }
}

impl ProtocolErrorExt<Size> for Result<Size, ProtocolError> {
    fn or_save_to(self, errors: &mut Vec<ProtocolError>) -> (r: Size)
        ensures
            match self {
                Ok(v) => r == v && final(errors)@ == old(errors)@,
                Err(e) => r@ == 1 && final(errors)@ == old(errors)@.push(e),
            },
    {
        match self {
            Ok(value) => value,
            Err(error) => {
                errors.push(error);
                Size::default()
            },
        }
    }
}

/// A power-of-two alignment; its raw value is the base-2 logarithm.
#[derive(Debug, Clone, Copy, PartialEq, Eq)]
pub enum Align {
    B1,
    B2,
    B4,
    B8,
}

/// The alignment in bytes of a raw (logarithmic) value.
pub open spec fn align_of_raw(raw: u8) -> u8 {
    if raw == 0 {
        1
    } else if raw == 1 {
        2
    } else if raw == 2 {
        4
    } else {
        8
    }
}

/// The raw (logarithmic) value of an alignment in bytes.
pub open spec fn raw_of_align(align: u8) -> u8 {
    if align == 1 {
        0
    } else if align == 2 {
        1
    } else if align == 4 {
        2
    } else {
        3
    }
}

/// The alignments that a type may have.
pub open spec fn is_allowed_align(align: u8) -> bool {
    align == 1 || align == 2 || align == 4 || align == 8
}

impl Align {
    pub open spec fn spec_raw(self) -> u8 {
        match self {
            Align::B1 => 0,
            Align::B2 => 1,
            Align::B4 => 2,
            Align::B8 => 3,
        }
    }

    pub open spec fn spec_value(self) -> u8 {
        align_of_raw(self.spec_raw())
    }

    pub fn raw_value(self) -> (r: u8)
        ensures
            r == self.spec_raw(),
    {
        match self {
            Align::B1 => 0,
            Align::B2 => 1,
            Align::B4 => 2,
            Align::B8 => 3,
        }
    }

    pub fn value(self) -> (r: u8)
        ensures
            r == self.spec_value(),
            is_allowed_align(r),
    {
        match self {
            Align::B1 => 1,
            Align::B2 => 2,
            Align::B4 => 4,
            Align::B8 => 8,
        }
    }

    /// The raw value of an allowed alignment.
    pub fn to_raw(align: u8) -> (r: u8)
        requires
            is_allowed_align(align),
        ensures
            r == raw_of_align(align),
            align_of_raw(r) == align,
            r <= 3,
    {
        if align == 1 {
            0
        } else if align == 2 {
            1
        } else if align == 4 {
            2
        } else {
            3
        }
    }

    /// The alignment with a raw value in `0..=3`.
    pub fn from_raw(raw: u8) -> (r: Self)
        requires
            raw <= 3,
        ensures
            r.spec_raw() == raw,
    {
        if raw == 0 {
            Align::B1
        } else if raw == 1 {
            Align::B2
        } else if raw == 2 {
            Align::B4
        } else {
            Align::B8
        }
    }
}

} // verus!
