//! The XML document, as the plain values that tokenizing reads from it.
use vstd::prelude::*;

verus! {

/// The kinds of XML nodes.
#[derive(Debug, Clone, Copy, PartialEq, Eq, Structural)]
pub enum XmlNodeKind {
    Root,
    Element,
    ProcessingInstruction,
    Comment,
    Text,
}

/// An attribute: its local name and its value.
#[derive(Debug)]
pub struct XmlAttribute {
    pub name: String,
    pub value: String,
}

/// A node of the document: its kind, its tag's local name (empty for
/// nodes that are not elements) and its attributes in document order.
#[derive(Debug)]
pub struct XmlNode {
    pub kind: XmlNodeKind,
    pub tag: String,
    pub attributes: Vec<XmlAttribute>,
}

/// The model of an [`XmlNode`].
pub struct XmlNodeView {
    pub kind: XmlNodeKind,
    pub tag: Seq<char>,
    pub attributes: Seq<(Seq<char>, Seq<char>)>,
}

impl View for XmlNode {
    type V = XmlNodeView;

    open spec fn view(&self) -> XmlNodeView {
        XmlNodeView {
            kind: self.kind,
            tag: self.tag@,
            attributes: self.attributes@.map_values(|a: XmlAttribute| (a.name@, a.value@)),
        }
    }
}

/// The nodes of a list, each seen through its view.
pub open spec fn nodes_view(nodes: Seq<XmlNode>) -> Seq<XmlNodeView> {
    nodes.map_values(|n: XmlNode| n@)
}

/// What parsing a text as an XML document gives: its nodes in document
/// order (the root first, then each element before its children), or the
/// parser's error.
pub uninterp spec fn xml_document(content: Seq<char>) -> Result<Seq<XmlNodeView>, roxmltree::Error>;

/// Whether some node is an element.
pub open spec fn has_element(nodes: Seq<XmlNodeView>) -> bool {
    exists|i: int| 0 <= i < nodes.len() && (#[trigger] nodes[i]).kind == XmlNodeKind::Element
}

/// Parses `content` with `roxmltree::Document::parse` and lists the
/// document's nodes (`root().descendants()`), each converted to plain
/// values. The contract claims that the result is a function of the text
/// alone, and, as roxmltree documents, that a parsed document always has
/// a root element. What the nodes are is only named.
#[verifier::external_body]
pub fn parse_xml(content: &str) -> (r: Result<Vec<XmlNode>, roxmltree::Error>)
    ensures
        match r {
            Ok(nodes) => xml_document(content@) == Ok::<Seq<XmlNodeView>, roxmltree::Error>(
                nodes_view(nodes@),
            ) && has_element(nodes_view(nodes@)),
            Err(e) => xml_document(content@) == Err::<Seq<XmlNodeView>, roxmltree::Error>(e),
        },
{
    let document = roxmltree::Document::parse(content)?;
    Ok(document.root().descendants().map(|n| XmlNode {
        kind: match n.node_type() {
            roxmltree::NodeType::Root => XmlNodeKind::Root,
            roxmltree::NodeType::Element => XmlNodeKind::Element,
            roxmltree::NodeType::PI => XmlNodeKind::ProcessingInstruction,
            roxmltree::NodeType::Comment => XmlNodeKind::Comment,
            roxmltree::NodeType::Text => XmlNodeKind::Text,
        },
        tag: n.tag_name().name().to_string(),
        attributes: n.attributes().map(|a| XmlAttribute { name: a.name().to_string(), value: a.value().to_string() }).collect(),
    }).collect())
}

} // verus!
