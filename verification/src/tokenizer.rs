//! Turning an XML document into tokens: one token per element, in
//! document order, with the attributes that its tag requires.
use vstd::prelude::*;

use crate::error::{ErrorView, ProtocolError};
use crate::text::str_eq;
use crate::token::{Token, TokenView, tokens_view};
use crate::xml::{XmlNode, XmlNodeKind, XmlNodeView, has_element, nodes_view, parse_xml, xml_document};

verus! {

/// The value of the first attribute with the given name.
pub open spec fn find_attr(attrs: Seq<(Seq<char>, Seq<char>)>, name: Seq<char>) -> Option<
    Seq<char>,
>
    decreases attrs.len(),
{
    if attrs.len() == 0 {
        None
    } else if attrs[0].0 == name {
        Some(attrs[0].1)
    } else {
        find_attr(attrs.drop_first(), name)
    }
}

/// The error for an element that lacks a required attribute.
pub open spec fn missing(tag: Seq<char>, attr: Seq<char>) -> ErrorView {
    ErrorView::MissingAttribute { tag, attr }
}

/// A required attribute of an element.
pub open spec fn required(n: XmlNodeView, attr: Seq<char>, tag: Seq<char>) -> Result<
    Seq<char>,
    ErrorView,
> {
    match find_attr(n.attributes, attr) {
        Some(v) => Ok(v),
        None => Err(missing(tag, attr)),
    }
}

/// The token of an element, by its tag; its attributes are read in the
/// order shown.
pub open spec fn element_token(n: XmlNodeView) -> Result<TokenView, ErrorView> {
    if n.tag == "protocol"@ {
        match required(n, "name"@, "protocol"@) {
            Err(e) => Err(e),
            Ok(name) => match required(n, "version"@, "protocol"@) {
                Err(e) => Err(e),
                Ok(version) => match required(n, "access"@, "protocol"@) {
                    Err(e) => Err(e),
                    Ok(access) => Ok(TokenView::Protocol { name, version, access }),
                },
            },
        }
    } else if n.tag == "group"@ {
        match required(n, "name"@, "group"@) {
            Err(e) => Err(e),
            Ok(name) => Ok(TokenView::Group { name }),
        }
    } else if n.tag == "message"@ {
        match required(n, "name"@, "message"@) {
            Err(e) => Err(e),
            Ok(name) => Ok(TokenView::Message { name }),
        }
    } else if n.tag == "struct"@ {
        match required(n, "name"@, "struct"@) {
            Err(e) => Err(e),
            Ok(name) => Ok(TokenView::Struct { name }),
        }
    } else if n.tag == "enum"@ {
        match required(n, "name"@, "enum"@) {
            Err(e) => Err(e),
            Ok(name) => Ok(TokenView::Enum { name }),
        }
    } else if n.tag == "field"@ {
        match required(n, "name"@, "field"@) {
            Err(e) => Err(e),
            Ok(name) => match required(n, "type"@, "field"@) {
                Err(e) => Err(e),
                Ok(kind) => Ok(TokenView::Field { name, kind }),
            },
        }
    } else if n.tag == "variant"@ {
        match required(n, "name"@, "variant"@) {
            Err(e) => Err(e),
            Ok(name) => Ok(TokenView::Variant { name }),
        }
    } else if n.tag == "remainder"@ {
        match required(n, "name"@, "remainder"@) {
            Err(e) => Err(e),
            Ok(name) => Ok(TokenView::Remainder { name }),
        }
    } else {
        Err(ErrorView::UnknownTag(n.tag))
    }
}

/// The tokens of the nodes, after those already read: elements give
/// tokens, other nodes are skipped, the first failing element stops it.
pub open spec fn tokens_from(acc: Seq<TokenView>, nodes: Seq<XmlNodeView>) -> Result<
    Seq<TokenView>,
    ErrorView,
>
    decreases nodes.len(),
{
    if nodes.len() == 0 {
        Ok(acc)
    } else if nodes[0].kind != XmlNodeKind::Element {
        tokens_from(acc, nodes.drop_first())
    } else {
        match element_token(nodes[0]) {
            Err(e) => Err(e),
            Ok(t) => tokens_from(acc.push(t), nodes.drop_first()),
        }
    }
}

/// The tokens of an XML text.
pub open spec fn spec_tokenize(content: Seq<char>) -> Result<Seq<TokenView>, ErrorView> {
    match xml_document(content) {
        Err(e) => Err(ErrorView::Xml(e)),
        Ok(nodes) => tokens_from(Seq::empty(), nodes),
    }
}

/// When the nodes hold an element, a successful run adds a token.
pub proof fn lemma_tokens_nonempty(acc: Seq<TokenView>, nodes: Seq<XmlNodeView>)
    ensures
        tokens_from(acc, nodes) matches Ok(ts) ==> ts.len() >= acc.len() && (has_element(nodes)
            ==> ts.len() > acc.len()),
    decreases nodes.len(),
{
    if nodes.len() > 0 {
        let rest = nodes.drop_first();
        lemma_tokens_nonempty(acc, rest);
        if let Ok(t) = element_token(nodes[0]) {
            lemma_tokens_nonempty(acc.push(t), rest);
        }
        if has_element(nodes) && nodes[0].kind != XmlNodeKind::Element {
            let i = choose|i: int| 0 <= i < nodes.len() && (#[trigger] nodes[i]).kind == XmlNodeKind::Element;
            assert(rest[i - 1] == nodes[i]);
        }
    }
}

fn missing_attribute(tag: &str, attr: &str) -> (r: ProtocolError)
    ensures
        r@ == missing(tag@, attr@),
{
    ProtocolError::MissingAttribute { tag: tag.to_owned(), attr: attr.to_owned() }
}

/// Reads a required attribute of an element.
fn read_attr(node: &XmlNode, attr: &str, tag: &str) -> (r: Result<String, ProtocolError>)
    ensures
        match required(node@, attr@, tag@) {
            Ok(v) => r matches Ok(s) && s@ == v,
            Err(e) => r matches Err(re) && re@ == e,
        },
{
    let ghost attrs = node@.attributes;
    let mut i: usize = 0;
    assert(attrs.skip(0) =~= attrs);
    while i < node.attributes.len()
        invariant
            0 <= i <= node.attributes@.len(),
            attrs == node@.attributes,
            find_attr(attrs, attr@) == find_attr(attrs.skip(i as int), attr@),
        decreases node.attributes.len() - i,
    {
        let a = &node.attributes[i];
        assert(attrs.skip(i as int)[0] == (a.name@, a.value@));
        assert(attrs.skip(i as int).drop_first() =~= attrs.skip(i + 1));
        if str_eq(a.name.as_str(), attr) {
            return Ok(a.value.clone());
        }
        i = i + 1;
    }
    assert(attrs.skip(i as int) =~= Seq::<(Seq<char>, Seq<char>)>::empty());
    Err(missing_attribute(tag, attr))
}

impl Token {
    fn new_protocol(node: &XmlNode) -> (r: Result<Token, ProtocolError>)
        requires
            node@.tag == "protocol"@,
        ensures
            match element_token(node@) {
                Ok(t) => r matches Ok(rt) && rt@ == t,
                Err(e) => r matches Err(re) && re@ == e,
            },
    {
        Ok(
            Token::Protocol {
                name: read_attr(node, "name", "protocol")?,
                version: read_attr(node, "version", "protocol")?,
                access: read_attr(node, "access", "protocol")?,
            },
        )
    }

    fn new_group(node: &XmlNode) -> (r: Result<Token, ProtocolError>)
        requires
            node@.tag == "group"@,
            node@.tag != "protocol"@,
        ensures
            match element_token(node@) {
                Ok(t) => r matches Ok(rt) && rt@ == t,
                Err(e) => r matches Err(re) && re@ == e,
            },
    {
        Ok(Token::Group { name: read_attr(node, "name", "group")? })
    }

    fn new_message(node: &XmlNode) -> (r: Result<Token, ProtocolError>)
        requires
            node@.tag == "message"@,
            node@.tag != "protocol"@,
            node@.tag != "group"@,
        ensures
            match element_token(node@) {
                Ok(t) => r matches Ok(rt) && rt@ == t,
                Err(e) => r matches Err(re) && re@ == e,
            },
    {
        Ok(Token::Message { name: read_attr(node, "name", "message")? })
    }

    fn new_struct(node: &XmlNode) -> (r: Result<Token, ProtocolError>)
        requires
            node@.tag == "struct"@,
            node@.tag != "protocol"@,
            node@.tag != "group"@,
            node@.tag != "message"@,
        ensures
            match element_token(node@) {
                Ok(t) => r matches Ok(rt) && rt@ == t,
                Err(e) => r matches Err(re) && re@ == e,
            },
    {
        Ok(Token::Struct { name: read_attr(node, "name", "struct")? })
    }

    fn new_enum(node: &XmlNode) -> (r: Result<Token, ProtocolError>)
        requires
            node@.tag == "enum"@,
            node@.tag != "protocol"@,
            node@.tag != "group"@,
            node@.tag != "message"@,
            node@.tag != "struct"@,
        ensures
            match element_token(node@) {
                Ok(t) => r matches Ok(rt) && rt@ == t,
                Err(e) => r matches Err(re) && re@ == e,
            },
    {
        Ok(Token::Enum { name: read_attr(node, "name", "enum")? })
    }

    fn new_field(node: &XmlNode) -> (r: Result<Token, ProtocolError>)
        requires
            node@.tag == "field"@,
            node@.tag != "protocol"@,
            node@.tag != "group"@,
            node@.tag != "message"@,
            node@.tag != "struct"@,
            node@.tag != "enum"@,
        ensures
            match element_token(node@) {
                Ok(t) => r matches Ok(rt) && rt@ == t,
                Err(e) => r matches Err(re) && re@ == e,
            },
    {
        Ok(
            Token::Field {
                name: read_attr(node, "name", "field")?,
                kind: read_attr(node, "type", "field")?,
            },
        )
    }

    fn new_variant(node: &XmlNode) -> (r: Result<Token, ProtocolError>)
        requires
            node@.tag == "variant"@,
            node@.tag != "protocol"@,
            node@.tag != "group"@,
            node@.tag != "message"@,
            node@.tag != "struct"@,
            node@.tag != "enum"@,
            node@.tag != "field"@,
        ensures
            match element_token(node@) {
                Ok(t) => r matches Ok(rt) && rt@ == t,
                Err(e) => r matches Err(re) && re@ == e,
            },
    {
        Ok(Token::Variant { name: read_attr(node, "name", "variant")? })
    }

    fn new_remainder(node: &XmlNode) -> (r: Result<Token, ProtocolError>)
        requires
            node@.tag == "remainder"@,
            node@.tag != "protocol"@,
            node@.tag != "group"@,
            node@.tag != "message"@,
            node@.tag != "struct"@,
            node@.tag != "enum"@,
            node@.tag != "field"@,
            node@.tag != "variant"@,
        ensures
            match element_token(node@) {
                Ok(t) => r matches Ok(rt) && rt@ == t,
                Err(e) => r matches Err(re) && re@ == e,
            },
    {
        Ok(Token::Remainder { name: read_attr(node, "name", "remainder")? })
    }
}

/// The token of an element.
fn element_to_token(node: &XmlNode) -> (r: Result<Token, ProtocolError>)
    ensures
        match element_token(node@) {
            Ok(t) => r matches Ok(rt) && rt@ == t,
            Err(e) => r matches Err(re) && re@ == e,
        },
{
    let tag = node.tag.as_str();
    if str_eq(tag, "protocol") {
        Token::new_protocol(node)
    } else if str_eq(tag, "group") {
        Token::new_group(node)
    } else if str_eq(tag, "message") {
        Token::new_message(node)
    } else if str_eq(tag, "struct") {
        Token::new_struct(node)
    } else if str_eq(tag, "enum") {
        Token::new_enum(node)
    } else if str_eq(tag, "field") {
        Token::new_field(node)
    } else if str_eq(tag, "variant") {
        Token::new_variant(node)
    } else if str_eq(tag, "remainder") {
        Token::new_remainder(node)
    } else {
        Err(ProtocolError::UnknownTag(node.tag.clone()))
    }
}

/// Reads the tokens of an XML text: one per element, in document order.
pub fn tokenize(content: &str) -> (r: Result<Vec<Token>, ProtocolError>)
    ensures
        match spec_tokenize(content@) {
            Ok(ts) => r matches Ok(v) && tokens_view(v@) == ts && v@.len() > 0,
            Err(e) => r matches Err(re) && re@ == e,
        },
{
    let nodes = match parse_xml(content) {
        Ok(nodes) => nodes,
        Err(e) => return Err(ProtocolError::Xml(e)),
    };
    let ghost nv = nodes_view(nodes@);
    proof {
        lemma_tokens_nonempty(Seq::empty(), nv);
    }
    let mut tokens: Vec<Token> = Vec::new();
    let mut i: usize = 0;
    assert(nv.skip(0) =~= nv);
    assert(tokens_view(tokens@) =~= Seq::<TokenView>::empty());
    while i < nodes.len()
        invariant
            0 <= i <= nodes@.len(),
            nv == nodes_view(nodes@),
            xml_document(content@) == Ok::<Seq<XmlNodeView>, roxmltree::Error>(nv),
            has_element(nv),
            tokens_from(Seq::empty(), nv) == tokens_from(tokens_view(tokens@), nv.skip(i as int)),
        decreases nodes.len() - i,
    {
        let node = &nodes[i];
        assert(nv.skip(i as int)[0] == node@);
        assert(nv.skip(i as int).drop_first() =~= nv.skip(i + 1));
        if node.kind == XmlNodeKind::Element {
            let token = match element_to_token(node) {
                Ok(token) => token,
                Err(e) => return Err(e),
            };
            let ghost before = tokens_view(tokens@);
            tokens.push(token);
            assert(tokens_view(tokens@) =~= before.push(token@));
        }
        i = i + 1;
    }
    assert(nv.skip(i as int) =~= Seq::<XmlNodeView>::empty());
    Ok(tokens)
}

} // verus!
