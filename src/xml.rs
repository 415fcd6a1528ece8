//! The parsed form of an attribute document: its nodes in document order.

use vstd::prelude::*;

verus! {

/// What the model of a node holds: its `name` and `value` attributes.
pub type NodeView = (Option<Seq<char>>, Option<Seq<char>>);

/// One node of a parsed document, with the two attributes that the search
/// reads.
#[derive(Clone, Debug, PartialEq, Eq)]
pub struct XmlNode {
    pub name: Option<String>,
    pub value: Option<String>,
}

/// The characters of an optional attribute.
pub open spec fn attr_view(a: Option<String>) -> Option<Seq<char>> {
    match a {
        Some(s) => Some(s@),
        None => None,
    }
}

impl View for XmlNode {
    type V = NodeView;

    open spec fn view(&self) -> NodeView {
        (attr_view(self.name), attr_view(self.value))
    }
}

/// The models of a sequence of nodes.
pub open spec fn nodes_view(nodes: Seq<XmlNode>) -> Seq<NodeView> {
    nodes.map_values(|n: XmlNode| n@)
}

/// The model of a parse outcome.
pub open spec fn parse_view(r: Result<Vec<XmlNode>, String>) -> Result<Seq<NodeView>, Seq<char>> {
    match r {
        Ok(v) => Ok(nodes_view(v@)),
        Err(e) => Err(e@),
    }
}

/// A name for what parsing a document gives: its nodes in document order
/// (each with its `name` and `value` attributes), or the parser's message.
pub uninterp spec fn xml_parse(text: Seq<char>) -> Result<Seq<NodeView>, Seq<char>>;

/// Relies on roxmltree::Document::parse and Document::descendants: a document
/// is parsed, or refused with an error, as a function of its text; its nodes
/// are listed in document order.
#[verifier::external_body]
pub(crate) fn parse_document(text: &str) -> (r: Result<Vec<XmlNode>, String>)
    ensures
        parse_view(r) == xml_parse(text@),
{
    match roxmltree::Document::parse(text) {
        Ok(doc) => Ok(doc.descendants().map(|n| XmlNode {
            name: n.attribute("name").map(|a| a.to_string()),
            value: n.attribute("value").map(|a| a.to_string()),
        }).collect()),
        Err(e) => Err(e.to_string()),
    }
}

} // verus!
