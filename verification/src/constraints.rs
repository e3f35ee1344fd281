//! Global limits of a protocol definition.
use vstd::prelude::*;

verus! {

/// How many distinct strings a string pool can hold.
pub const MAX_UNIQUE_STRINGS: usize = 65535;

/// Header bytes that precede every message payload:
/// * dst: u8,
/// * group: u8,
/// * src: u8,
/// * kind: u8,
pub const HEADER_BYTES: u8 = 4;

pub const MAX_STRUCTS: usize = 2048;
pub const MAX_ENUMS: usize = 2048;
pub const MAX_FIELDS: usize = 2048;
pub const MAX_VARIANTS: usize = 65535;
pub const MAX_FIELD_PER_STRUCT: usize = 28;
pub const MAX_PAYLOAD: usize = 28;
pub const MAX_GROUPS: usize = 255;
pub const MAX_MESSAGES_PER_GROUP: usize = 255;
pub const MAX_MESSAGES: usize = MAX_GROUPS * MAX_MESSAGES_PER_GROUP;
pub const MAX_TYPE_COUNT: usize = MAX_STRUCTS + MAX_ENUMS;

} // verus!
