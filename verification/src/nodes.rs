//! The nodes of a protocol tree: names are interned, children are runs
//! (ranges) of the tree's flat lists.
use vstd::prelude::*;

use crate::error::{ErrorView, ProtocolError};
use crate::pool::{StringId, StringPool, spec_intern};
use crate::text::{
    chars_to_string, parse_u8, spec_trim, split_once_exact, split_pair, std_parse_u8, sub_chars,
    to_chars, trim,
};

verus! {

/// A run `start..start + len` of one of the tree's flat lists.
#[derive(Debug, Clone, Copy, PartialEq, Eq)]
pub struct Range {
    pub start: usize,
    pub len: usize,
}

impl Range {
    pub fn start(&self) -> (r: usize)
        ensures
            r == self.start,
    {
        self.start
    }

    pub fn len(&self) -> (r: usize)
        ensures
            r == self.len,
    {
        self.len
    }

    pub fn as_range(&self) -> (r: core::ops::Range<usize>)
        requires
            self.start + self.len <= usize::MAX,
        ensures
            r.start == self.start,
            r.end == self.start + self.len,
    {
        self.start..self.start + self.len
    }
}

#[derive(Debug, Clone, Copy, PartialEq, Eq)]
pub struct EnumNode {
    pub name: StringId,
    pub variants: Range,
}

#[derive(Debug, Clone, Copy, PartialEq, Eq)]
pub struct GroupNode {
    pub name: StringId,
    pub messages: Range,
    pub structs: Range,
    pub enums: Range,
}

#[derive(Debug, Clone, Copy, PartialEq, Eq)]
pub struct MessageNode {
    pub name: StringId,
    pub fields: Range,
    pub remainder: Option<StringId>,
}

#[derive(Debug, Clone, Copy, PartialEq, Eq)]
pub struct StructNode {
    pub name: StringId,
    pub fields: Range,
}

#[derive(Debug, Clone, Copy, PartialEq, Eq)]
pub struct ArrayNode {
    pub kind: StringId,
    pub size: u8,
}

impl EnumNode {
    pub fn name(&self) -> (r: StringId)
        ensures
            r == self.name,
    {
        self.name
    }

    pub fn variants(&self) -> (r: Range)
        ensures
            r == self.variants,
    {
        self.variants
    }
}

impl GroupNode {
    pub fn name(&self) -> (r: StringId)
        ensures
            r == self.name,
    {
        self.name
    }

    pub fn messages(&self) -> (r: Range)
        ensures
            r == self.messages,
    {
        self.messages
    }

    pub fn structs(&self) -> (r: Range)
        ensures
            r == self.structs,
    {
        self.structs
    }

    pub fn enums(&self) -> (r: Range)
        ensures
            r == self.enums,
    {
        self.enums
    }
}

impl MessageNode {
    pub fn name(&self) -> (r: StringId)
        ensures
            r == self.name,
    {
        self.name
    }

    pub fn fields(&self) -> (r: Range)
        ensures
            r == self.fields,
    {
        self.fields
    }

    pub fn remainder(&self) -> (r: Option<StringId>)
        ensures
            r == self.remainder,
    {
        self.remainder
    }
}

impl StructNode {
    pub fn name(&self) -> (r: StringId)
        ensures
            r == self.name,
    {
        self.name
    }

    pub fn fields(&self) -> (r: Range)
        ensures
            r == self.fields,
    {
        self.fields
    }
}

impl ArrayNode {
    pub fn new(kind: StringId, size: u8) -> (r: Self)
        ensures
            r.kind == kind && r.size == size,
    {
        ArrayNode { kind, size }
    }

    pub fn kind(&self) -> (r: StringId)
        ensures
            r == self.kind,
    {
        self.kind
    }

    pub fn size(&self) -> (r: u8)
        ensures
            r == self.size,
    {
        self.size
    }
}

/// The syntax error of a malformed array type.
pub open spec fn array_syntax_error(input: Seq<char>) -> ErrorView {
    ErrorView::Syntax { src: input, should_be: "[TYPE; SIZE]"@ }
}

/// How a field type reads: nothing when it is not bracketed, an error when
/// only one bracket is there or the inside is not `TYPE; SIZE` with a `u8`
/// size, else the trimmed element type and the size.
pub open spec fn spec_parse_array(input: Seq<char>) -> Option<
    Result<(Seq<char>, u8), ErrorView>,
> {
    let s = spec_trim(input);
    let l = s.len() > 0 && s[0] == '[';
    let r = s.len() > 0 && s.last() == ']';
    if l != r {
        Some(Err(array_syntax_error(input)))
    } else if !l {
        None
    } else {
        match split_pair(s.subrange(1, s.len() - 1), ';') {
            None => Some(Err(array_syntax_error(input))),
            Some((kind, count)) => match std_parse_u8(spec_trim(count)) {
                Ok(n) => Some(Ok((spec_trim(kind), n))),
                Err(e) => Some(Err(ErrorView::IntParse(e))),
            },
        }
    }
}

/// An optional parse result seen through views.
pub open spec fn array_result_view(r: Option<Result<(String, u8), ProtocolError>>) -> Option<
    Result<(Seq<char>, u8), ErrorView>,
> {
    match r {
        None => None,
        Some(Ok((name, n))) => Some(Ok((name@, n))),
        Some(Err(e)) => Some(Err(e@)),
    }
}

fn array_syntax(input: &str) -> (r: ProtocolError)
    ensures
        r@ == array_syntax_error(input@),
{
    ProtocolError::Syntax { src: input.to_owned(), should_be: "[TYPE; SIZE]".to_owned() }
}

/// Reads an array type `[TYPE; SIZE]`.
pub fn parse_array(input: &str) -> (r: Option<Result<(String, u8), ProtocolError>>)
    ensures
        array_result_view(r) == spec_parse_array(input@),
{
    let chars = to_chars(input);
    let s = trim(chars.as_slice());
    let n = s.len();
    let l_bracket = n > 0 && s[0] == '[';
    let r_bracket = n > 0 && s[n - 1] == ']';
    if (!l_bracket && r_bracket) || (!r_bracket && l_bracket) {
        return Some(Err(array_syntax(input)));
    } else if !l_bracket && !r_bracket {
        return None;
    }
    let content = sub_chars(s.as_slice(), 1, n - 1);
    let (type_ident, count) = match split_once_exact(content.as_slice(), ';') {
        Some(parts) => parts,
        None => return Some(Err(array_syntax(input))),
    };
    let type_ident = chars_to_string(trim(type_ident.as_slice()).as_slice());
    let count = chars_to_string(trim(count.as_slice()).as_slice());
    Some(
        match parse_u8(count.as_str()) {
            Ok(count) => Ok((type_ident, count)),
            Err(err) => Err(ProtocolError::IntParse(err)),
        },
    )
}

/// The type of a field: a named type or an array of one.
#[derive(Debug, Clone, Copy, PartialEq, Eq)]
pub enum FieldTypeNode {
    Type(StringId),
    Array(ArrayNode),
}

/// Reading a field type into a pool: an array's element type is
/// interned trimmed, any other type is interned as written.
pub open spec fn spec_field_type(pool: Seq<Seq<char>>, s: Seq<char>) -> Result<
    (Seq<Seq<char>>, FieldTypeNode),
    ErrorView,
> {
    match spec_parse_array(s) {
        Some(Err(e)) => Err(e),
        Some(Ok((name, size))) => match spec_intern(pool, name) {
            Ok((p, id)) => Ok((p, FieldTypeNode::Array(ArrayNode { kind: StringId { value: id }, size }))),
            Err(e) => Err(e),
        },
        None => match spec_intern(pool, s) {
            Ok((p, id)) => Ok((p, FieldTypeNode::Type(StringId { value: id }))),
            Err(e) => Err(e),
        },
    }
}

impl FieldTypeNode {
    pub fn new(string: &str, pool: &mut StringPool) -> (r: Result<Self, ProtocolError>)
        requires
            old(pool).wf(),
        ensures
            final(pool).wf(),
            old(pool)@.is_prefix_of(final(pool)@),
            match spec_field_type(old(pool)@, string@) {
                Ok((p, node)) => r == Ok::<FieldTypeNode, ProtocolError>(node) && final(pool)@ == p,
                Err(e) => r matches Err(re) && re@ == e && final(pool)@ == old(pool)@,
            },
    {
        match parse_array(string) {
            Some(result) => {
                let (name, size) = result?;
                let name = pool.get_id(name.as_str())?;
                Ok(FieldTypeNode::Array(ArrayNode::new(name, size)))
            },
            None => Ok(FieldTypeNode::Type(pool.get_id(string)?)),
        }
    }

    pub open spec fn spec_kind_name(self) -> StringId {
        match self {
            FieldTypeNode::Type(id) => id,
            FieldTypeNode::Array(node) => node.kind,
        }
    }

    pub fn kind_name(self) -> (r: StringId)
        ensures
            r == self.spec_kind_name(),
    {
        match self {
            FieldTypeNode::Type(id) => id,
            FieldTypeNode::Array(node) => node.kind,
        }
    }
}

#[derive(Debug, Clone, Copy, PartialEq, Eq)]
pub struct FieldNode {
    pub name: StringId,
    pub kind: FieldTypeNode,
}

impl FieldNode {
    pub fn name(&self) -> (r: StringId)
        ensures
            r == self.name,
    {
        self.name
    }

    pub fn kind(&self) -> (r: FieldTypeNode)
        ensures
            r == self.kind,
    {
        self.kind
    }
}

} // verus!
