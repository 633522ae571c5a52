//! XML documents as trees.

use vstd::prelude::*;

use crate::text_map::TextMap;

verus! {

/// An XML element with what it holds.
#[derive(Debug)]
pub struct XmlElement {
    pub prefix: Option<String>,
    pub namespace: Option<String>,
    pub namespaces: Option<TextMap>,
    pub name: String,
    pub attributes: TextMap,
    pub children: Vec<XmlNode>,
}

/// One of the things that an element can hold.
#[derive(Debug)]
pub enum XmlNode {
    Element(XmlElement),
    Comment(String),
    CData(String),
    Text(String),
    ProcessingInstruction(String, Option<String>),
}

/// What an element is: its attributes have no order.
#[verifier::ext_equal]
pub struct ElementView {
    pub prefix: Option<Seq<char>>,
    pub namespace: Option<Seq<char>>,
    pub namespaces: Option<Map<Seq<char>, Seq<char>>>,
    pub name: Seq<char>,
    pub attributes: Map<Seq<char>, Seq<char>>,
    pub children: Seq<NodeView>,
}

/// What a node is.
#[verifier::ext_equal]
pub enum NodeView {
    Element(ElementView),
    Comment(Seq<char>),
    CData(Seq<char>),
    Text(Seq<char>),
    ProcessingInstruction(Seq<char>, Option<Seq<char>>),
}

/// The view of a text that may be missing.
pub open spec fn maybe_view(text: Option<String>) -> Option<Seq<char>> {
    match text {
        Some(text) => Some(text@),
        None => None,
    }
}

/// The view of an element.
pub open spec fn element_view(element: XmlElement) -> ElementView
    decreases element,
{
    ElementView {
        prefix: maybe_view(element.prefix),
        namespace: maybe_view(element.namespace),
        namespaces: match element.namespaces {
            Some(map) => Some(map@),
            None => None,
        },
        name: element.name@,
        attributes: element.attributes@,
        children: node_views(element.children@),
    }
}

/// The views of a list of nodes.
pub open spec fn node_views(nodes: Seq<XmlNode>) -> Seq<NodeView>
    decreases nodes,
{
    Seq::new(
        nodes.len(),
        |at: int|
            if 0 <= at < nodes.len() {
                node_view(nodes[at])
            } else {
                arbitrary()
            },
    )
}

/// The view of a node.
pub open spec fn node_view(node: XmlNode) -> NodeView
    decreases node,
{
    match node {
        XmlNode::Element(element) => NodeView::Element(element_view(element)),
        XmlNode::Comment(text) => NodeView::Comment(text@),
        XmlNode::CData(text) => NodeView::CData(text@),
        XmlNode::Text(text) => NodeView::Text(text@),
        XmlNode::ProcessingInstruction(name, data) => NodeView::ProcessingInstruction(
            name@,
            maybe_view(data),
        ),
    }
}

impl View for XmlElement {
    type V = ElementView;

    open spec fn view(&self) -> ElementView {
        element_view(*self)
    }
}

impl View for XmlNode {
    type V = NodeView;

    open spec fn view(&self) -> NodeView {
        node_view(*self)
    }
}

} // verus!
