//! Resolved protocol symbols: numeric types, enums, structs, fields,
//! groups and messages, and the index ranges that tie them together.
use vstd::prelude::*;

use crate::error::{ErrorView, ProtocolError, rview};
use crate::meta::{TypeId, TypeMeta, meta_pack, spec_meta_new};
use crate::pool::StringId;
use crate::size::{Size, raw_of_align};

verus! {

/// The group that holds the builtin numeric types.
pub const BUILTIN_GROUP: u8 = 1;

/// The builtin numeric types, in the order in which they are registered
/// and interned.
#[derive(Debug, Clone, Copy, PartialEq, Eq)]
pub enum NumericSymbol {
    U8,
    U16,
    U32,
    U64,
    U128,
    I8,
    I16,
    I32,
    I64,
    I128,
    F32,
    F64,
}

impl NumericSymbol {
    /// How many builtin numeric types there are.
    pub const COUNT: usize = 12;

    /// The position of the type among the builtins, which is also the
    /// identifier of its name in every string pool.
    pub open spec fn spec_ordinal(self) -> u16 {
        match self {
            NumericSymbol::U8 => 0,
            NumericSymbol::U16 => 1,
            NumericSymbol::U32 => 2,
            NumericSymbol::U64 => 3,
            NumericSymbol::U128 => 4,
            NumericSymbol::I8 => 5,
            NumericSymbol::I16 => 6,
            NumericSymbol::I32 => 7,
            NumericSymbol::I64 => 8,
            NumericSymbol::I128 => 9,
            NumericSymbol::F32 => 10,
            NumericSymbol::F64 => 11,
        }
    }

    pub open spec fn spec_size(self) -> u8 {
        match self {
            NumericSymbol::U8 | NumericSymbol::I8 => 1,
            NumericSymbol::U16 | NumericSymbol::I16 => 2,
            NumericSymbol::U32 | NumericSymbol::I32 | NumericSymbol::F32 => 4,
            NumericSymbol::U64 | NumericSymbol::I64 | NumericSymbol::F64 => 8,
            NumericSymbol::U128 | NumericSymbol::I128 => 16,
        }
    }

    pub open spec fn spec_align(self) -> u8 {
        if self.spec_size() > 8 {
            8
        } else {
            self.spec_size()
        }
    }

    pub fn name(self) -> (r: StringId)
        ensures
            r@ == self.spec_ordinal(),
    {
        let id: u16 = match self {
            NumericSymbol::U8 => 0,
            NumericSymbol::U16 => 1,
            NumericSymbol::U32 => 2,
            NumericSymbol::U64 => 3,
            NumericSymbol::U128 => 4,
            NumericSymbol::I8 => 5,
            NumericSymbol::I16 => 6,
            NumericSymbol::I32 => 7,
            NumericSymbol::I64 => 8,
            NumericSymbol::I128 => 9,
            NumericSymbol::F32 => 10,
            NumericSymbol::F64 => 11,
        };
        StringId::new(id)
    }

    pub fn size(self) -> (r: u8)
        ensures
            r == self.spec_size(),
    {
        match self {
            NumericSymbol::U8 | NumericSymbol::I8 => 1,
            NumericSymbol::U16 | NumericSymbol::I16 => 2,
            NumericSymbol::U32 | NumericSymbol::I32 | NumericSymbol::F32 => 4,
            NumericSymbol::U64 | NumericSymbol::I64 | NumericSymbol::F64 => 8,
            NumericSymbol::U128 | NumericSymbol::I128 => 16,
        }
    }

    pub fn align(self) -> (r: u8)
        ensures
            r == self.spec_align(),
    {
        let size = self.size();
        if size > 8 {
            8
        } else {
            size
        }
    }

    /// The packed size and alignment of the type.
    pub fn meta(self) -> (r: TypeMeta)
        ensures
            r == (TypeMeta { value: meta_pack(self.spec_size(), raw_of_align(self.spec_align())) }),
            r.wf(),
            r.spec_size() == self.spec_size(),
            r.spec_align() == self.spec_align(),
    {
        TypeMeta::new(self.size(), self.align()).unwrap()
    }
}

/// A contiguous run of fields in the protocol's field list.
#[derive(Debug, Clone, Copy, PartialEq, Eq)]
pub struct Fields {
    pub start: u32,
    pub len: u8,
}

/// A contiguous run of messages in the protocol's message list.
#[derive(Debug, Clone, Copy, PartialEq, Eq)]
pub struct Messages {
    pub start: u8,
    pub len: u8,
}

/// A contiguous run of structs in the protocol's struct order.
#[derive(Debug, Clone, Copy, PartialEq, Eq)]
pub struct Structs {
    pub start: u32,
    pub len: u8,
}

/// A contiguous run of enums in the protocol's enum order.
#[derive(Debug, Clone, Copy, PartialEq, Eq)]
pub struct Enums {
    pub start: u32,
    pub len: u8,
}

/// A contiguous run of variants in the protocol's variant list.
#[derive(Debug, Clone, Copy, PartialEq, Eq)]
pub struct Variants {
    pub start: u16,
    pub len: u16,
}

impl Fields {
    pub fn new(start: u32, len: u8) -> (r: Self)
        ensures
            r.start == start && r.len == len,
    {
        Fields { start, len }
    }

    pub fn start(&self) -> (r: u32)
        ensures
            r == self.start,
    {
        self.start
    }

    pub fn len(&self) -> (r: u8)
        ensures
            r == self.len,
    {
        self.len
    }
}

impl Messages {
    pub fn new(start: u8, len: u8) -> (r: Self)
        ensures
            r.start == start && r.len == len,
    {
        Messages { start, len }
    }

    pub fn start(&self) -> (r: u8)
        ensures
            r == self.start,
    {
        self.start
    }

    pub fn len(&self) -> (r: u8)
        ensures
            r == self.len,
    {
        self.len
    }
}

impl Structs {
    pub fn new(start: u32, len: u8) -> (r: Self)
        ensures
            r.start == start && r.len == len,
    {
        Structs { start, len }
    }

    pub fn start(&self) -> (r: u32)
        ensures
            r == self.start,
    {
        self.start
    }

    pub fn len(&self) -> (r: u8)
        ensures
            r == self.len,
    {
        self.len
    }
}

impl Enums {
    pub fn new(start: u32, len: u8) -> (r: Self)
        ensures
            r.start == start && r.len == len,
    {
        Enums { start, len }
    }

    pub fn start(&self) -> (r: u32)
        ensures
            r == self.start,
    {
        self.start
    }

    pub fn len(&self) -> (r: u8)
        ensures
            r == self.len,
    {
        self.len
    }
}

impl Variants {
    pub fn new(start: u16, len: u16) -> (r: Self)
        ensures
            r.start == start && r.len == len,
    {
        Variants { start, len }
    }

    pub fn start(&self) -> (r: u16)
        ensures
            r == self.start,
    {
        self.start
    }

    pub fn len(&self) -> (r: u16)
        ensures
            r == self.len,
    {
        self.len
    }
}

/// An enum: its name and its variants.
#[derive(Debug, Clone, Copy, PartialEq, Eq)]
pub struct EnumSymbol {
    pub name: StringId,
    pub variants: Variants,
}

/// The numeric type that stores an enum with `len` variants.
pub open spec fn enum_storage(len: u16) -> NumericSymbol {
    if len <= 255 {
        NumericSymbol::U8
    } else {
        NumericSymbol::U16
    }
}

impl EnumSymbol {
    pub fn new(name: StringId, variants: Variants) -> (r: Self)
        ensures
            r.name == name && r.variants == variants,
    {
        EnumSymbol { name, variants }
    }

    pub fn name(&self) -> (r: StringId)
        ensures
            r == self.name,
    {
        self.name
    }

    pub fn variants(&self) -> (r: Variants)
        ensures
            r == self.variants,
    {
        self.variants
    }

    fn get_numeric_type(self) -> (r: NumericSymbol)
        ensures
            r == enum_storage(self.variants.len),
    {
        if self.variants.len() <= 255 {
            NumericSymbol::U8
        } else {
            NumericSymbol::U16
        }
    }

    /// The size and alignment of the enum: those of `u8` up to 255
    /// variants, those of `u16` beyond.
    pub fn meta(&self) -> (r: Result<TypeMeta, ProtocolError>)
        ensures
            rview(r) == spec_meta_new(
                enum_storage(self.variants.len).spec_size(),
                enum_storage(self.variants.len).spec_align(),
            ),
            rview(r) == Ok::<u8, ErrorView>(
                if self.variants.len <= 255 {
                    meta_pack(1, 0)
                } else {
                    meta_pack(2, 1)
                },
            ),
            r matches Ok(m) ==> m.wf(),
    {
        let ty = self.get_numeric_type();
        let size = ty.size();
        let align = ty.align();
        TypeMeta::new(size, align)
    }
}

/// An array field type: the element type and the element count.
#[derive(Debug, Clone, Copy, PartialEq, Eq)]
pub struct ArraySymbol {
    pub kind: TypeId,
    pub len: Size,
}

impl ArraySymbol {
    pub fn new(kind: TypeId, len: Size) -> (r: Self)
        ensures
            r.kind == kind && r.len == len,
    {
        ArraySymbol { kind, len }
    }

    pub fn kind(&self) -> (r: TypeId)
        ensures
            r == self.kind,
    {
        self.kind
    }

    pub fn len(&self) -> (r: Size)
        ensures
            r == self.len,
    {
        self.len
    }
}

/// The type of a field: a plain type or an array of one.
#[derive(Debug, Clone, Copy, PartialEq, Eq)]
pub enum FieldType {
    Type(TypeId),
    Array(ArraySymbol),
}

/// A field: its name and its type.
#[derive(Debug, Clone, Copy, PartialEq, Eq)]
pub struct FieldSymbol {
    pub name: StringId,
    pub kind: FieldType,
}

impl FieldSymbol {
    pub fn new(name: StringId, kind: FieldType) -> (r: Self)
        ensures
            r.name == name && r.kind == kind,
    {
        FieldSymbol { name, kind }
    }

    pub fn name(&self) -> (r: StringId)
        ensures
            r == self.name,
    {
        self.name
    }

    pub fn kind(&self) -> (r: FieldType)
        ensures
            r == self.kind,
    {
        self.kind
    }

    /// The type of the field, or of its elements for an array.
    pub open spec fn spec_type_id(self) -> TypeId {
        match self.kind {
            FieldType::Type(sym) => sym,
            FieldType::Array(sym) => sym.kind,
        }
    }

    pub fn type_id(&self) -> (r: TypeId)
        ensures
            r == self.spec_type_id(),
    {
        match self.kind {
            FieldType::Type(sym) => sym,
            FieldType::Array(sym) => sym.kind(),
        }
    }
}

/// A struct: its name and its fields.
#[derive(Debug, Clone, Copy, PartialEq, Eq)]
pub struct StructSymbol {
    pub name: StringId,
    pub fields: Fields,
}

impl StructSymbol {
    pub fn new(name: StringId, fields: Fields) -> (r: Self)
        ensures
            r.name == name && r.fields == fields,
    {
        StructSymbol { name, fields }
    }

    pub fn name(&self) -> (r: StringId)
        ensures
            r == self.name,
    {
        self.name
    }

    pub fn fields(&self) -> (r: Fields)
        ensures
            r == self.fields,
    {
        self.fields
    }
}

/// A group: its name and the runs of its messages, structs and enums.
#[derive(Debug, Clone, Copy, PartialEq, Eq)]
pub struct GroupSymbol {
    pub name: StringId,
    pub messages: Messages,
    pub structs: Structs,
    pub enums: Enums,
}

impl GroupSymbol {
    pub fn new(name: StringId, messages: Messages, structs: Structs, enums: Enums) -> (r: Self)
        ensures
            r.name == name && r.messages == messages && r.structs == structs && r.enums
                == enums,
    {
        GroupSymbol { name, messages, structs, enums }
    }

    pub fn name(&self) -> (r: StringId)
        ensures
            r == self.name,
    {
        self.name
    }

    pub fn messages(&self) -> (r: Messages)
        ensures
            r == self.messages,
    {
        self.messages
    }

    pub fn structs(&self) -> (r: Structs)
        ensures
            r == self.structs,
    {
        self.structs
    }

    pub fn enums(&self) -> (r: Enums)
        ensures
            r == self.enums,
    {
        self.enums
    }

    /// The positions in the type table that the group's types are read
    /// from: from the first enum (past the builtins) to the end of the
    /// structs (past the builtins).
    pub fn type_range(&self) -> (r: core::ops::Range<usize>)
        requires
            self.enums.start + 12 <= usize::MAX,
            self.structs.start + self.structs.len + 12 <= usize::MAX,
        ensures
            r.start == self.enums.start + 12,
            r.end == self.structs.start + self.structs.len + 12,
    {
        let start = self.enums.start() as usize + NumericSymbol::COUNT;
        let len = self.structs.start() as usize + self.structs.len() as usize
            + NumericSymbol::COUNT;
        start..len
    }
}

/// The optional trailing byte array of a message, named by its field name.
#[derive(Debug, Clone, Copy, PartialEq, Eq)]
pub struct Remainder {
    pub name: Option<StringId>,
}

impl Remainder {
    pub fn new(name: Option<StringId>) -> (r: Self)
        ensures
            r.name == name,
    {
        Remainder { name }
    }

    pub fn name(&self) -> (r: Option<StringId>)
        ensures
            r == self.name,
    {
        self.name
    }
}

/// A message: its name, its fields and its remainder.
#[derive(Debug, Clone, Copy, PartialEq, Eq)]
pub struct MessageSymbol {
    pub name: StringId,
    pub fields: Fields,
    pub remainder: Remainder,
}

impl MessageSymbol {
    pub fn new(name: StringId, fields: Fields, remainder: Remainder) -> (r: Self)
        ensures
            r.name == name && r.fields == fields && r.remainder == remainder,
    {
        MessageSymbol { name, fields, remainder }
    }

    pub fn name(&self) -> (r: StringId)
        ensures
            r == self.name,
    {
        self.name
    }

    pub fn fields(&self) -> (r: Fields)
        ensures
            r == self.fields,
    {
        self.fields
    }

    pub fn remainder(&self) -> (r: Remainder)
        ensures
            r == self.remainder,
    {
        self.remainder
    }
}

/// A type of the type table.
#[derive(Debug, Clone, Copy, PartialEq, Eq)]
pub enum Type {
    Numeric(NumericSymbol),
    Array(ArraySymbol),
    Struct(StructSymbol),
    Enum(EnumSymbol),
}

impl Type {
    /// The name of a named type (arrays have none).
    pub open spec fn spec_name(self) -> u16 {
        match self {
            Type::Numeric(sym) => sym.spec_ordinal(),
            Type::Array(_) => 0,
            Type::Struct(sym) => sym.name@,
            Type::Enum(sym) => sym.name@,
        }
    }

    pub fn name(&self) -> (r: StringId)
        requires
            !(self is Array),
        ensures
            r@ == self.spec_name(),
    {
        match self {
            Type::Numeric(sym) => sym.name(),
            Type::Struct(sym) => sym.name(),
            Type::Enum(sym) => sym.name(),
            Type::Array(_) => StringId::new(0),
        }
    }
}

} // verus!
