//! The type tag of a bus message.
use vstd::prelude::*;

use crate::text::{decimal, decimal_string};

verus! {

/// The 16-bit type of a message.
#[derive(Default, Debug, Clone, Copy, PartialEq, Eq, PartialOrd, Ord, Hash)]
pub struct MessageType(pub u16);

impl View for MessageType {
    type V = u16;

    open spec fn view(&self) -> u16 {
        self.0
    }
}

/// The value of two bytes read least significant first.
pub open spec fn le_value(bytes: [u8; 2]) -> u16 {
    (bytes[0] + 256 * bytes[1]) as u16
}

impl MessageType {
    pub fn new(value: u16) -> (r: Self)
        ensures
            r@ == value,
    {
        MessageType(value)
    }

    /// Reads the type from its two bytes, least significant first.
    pub fn from_le_bytes(bytes: [u8; 2]) -> (r: Self)
        ensures
            r@ == le_value(bytes),
    {
        let low = bytes[0] as u16;
        let high = bytes[1] as u16;
        MessageType(low + high * 256)
    }

    /// The type's value.
    pub fn value(&self) -> (r: u16)
        ensures
            r == self@,
    {
        self.0
    }

    /// The type in decimal.
    pub fn to_text(&self) -> (r: String)
        ensures
            r@ == decimal(self@ as nat),
    {
        decimal_string(self.0 as usize)
    }
}

impl From<u16> for MessageType {
    fn from(value: u16) -> (r: Self)
        ensures
            r@ == value,
    {
        MessageType(value)
    }
}

impl vstd::std_specs::convert::FromSpecImpl<u16> for MessageType {
    open spec fn obeys_from_spec() -> bool {
        true
    }

    open spec fn from_spec(v: u16) -> Self {
        MessageType(v)
    }
}

impl core::ops::Deref for MessageType {
    type Target = u16;

    fn deref(&self) -> (r: &u16)
        ensures
            *r == self@,
    {
        &self.0
    }
}

/// The methods that every generated message struct provides: reading and
/// setting its header bytes.
pub trait TypedMessage: core::fmt::Debug + Copy + Clone {
    fn dst(&self) -> u8;

    fn with_dst(&mut self, dst: u8) -> &mut Self;

    fn src(&self) -> u8;

    fn group(&self) -> u8;

    fn with_group(&mut self, group: u8) -> &mut Self;

    fn kind(&self) -> u8;

    fn with_kind(&mut self, kind: u8) -> &mut Self;
}

} // verus!
