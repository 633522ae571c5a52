//! Reading and writing XML documents with the `xmltree` crate.

use vstd::prelude::*;

use crate::ascii::{is_alphanumeric, lowered};
use crate::spaces::is_space;
use crate::text_map::TextMap;
use crate::xml::{ElementView, NodeView, XmlElement, XmlNode};

verus! {

/// `xmltree::Element`: an element of the outside tree.
#[verifier::external_type_specification]
#[verifier::external_body]
pub struct ExElement(xmltree::Element);

/// `xmltree::ParseError`: why a document could not be read.
#[verifier::external_type_specification]
#[verifier::external_body]
pub struct ExParseError(xmltree::ParseError);

/// `xmltree::Error`: why a document could not be written.
#[verifier::external_type_specification]
#[verifier::external_body]
pub struct ExWriteError(xmltree::Error);

/// What an `xmltree::Element` holds in its public fields.
pub uninterp spec fn outside_element(element: xmltree::Element) -> ElementView;

/// The root element that `xmltree::Element::parse` makes of a document, if it makes one.
pub uninterp spec fn xml_document(bytes: Seq<u8>) -> Option<ElementView>;

/// The document that `xmltree::Element::write_with_config` makes of an element, indented and
/// without a declaration, if it makes one.
pub uninterp spec fn xml_text(element: ElementView) -> Option<Seq<u8>>;

/// White space in the sense of XML.
pub open spec fn is_xml_space(character: char) -> bool {
    character == ' ' || character == '\t' || character == '\n' || character == '\r'
}

/// A character that XML takes as it is or through an escape, and that is no control character.
pub open spec fn is_plain_char(character: char) -> bool {
    let code = character as u32;
    ||| 0x20 <= code <= 0x7e
    ||| 0xa0 <= code && code != 0xfffe && code != 0xffff
}

/// A blank, a tab or a line feed.
pub open spec fn is_plain_space(character: char) -> bool {
    character == ' ' || character == '\t' || character == '\n'
}

/// A name of ASCII letters, digits and a few signs, not too long for the parser.
pub open spec fn is_plain_name(name: Seq<char>) -> bool {
    &&& 0 < name.len() <= 0x1_0000
    &&& is_alphanumeric(name[0]) && !('0' <= name[0] <= '9') || name[0] == '_'
    &&& forall|at: int|
        0 <= at < name.len() ==> is_alphanumeric(#[trigger] name[at]) || name[at] == '_' || name[at]
            == '-' || name[at] == '.'
}

/// An attribute's value without control characters.
pub open spec fn is_plain_value(value: Seq<char>) -> bool {
    forall|at: int| 0 <= at < value.len() ==> is_plain_char(#[trigger] value[at])
}

/// Whether a text is made of plain characters, blanks, tabs and line feeds.
pub open spec fn is_plain_data(text: Seq<char>) -> bool {
    forall|at: int|
        0 <= at < text.len() ==> is_plain_char(#[trigger] text[at]) || is_plain_space(text[at])
}

/// Plain text that is not all white space.
pub open spec fn is_plain_text(text: Seq<char>) -> bool {
    &&& is_plain_data(text)
    &&& exists|at: int| 0 <= at < text.len() && !is_xml_space(#[trigger] text[at])
}

/// Whether `part` stands nowhere in `text`.
pub open spec fn is_without(text: Seq<char>, part: Seq<char>) -> bool {
    forall|at: int, end: int|
        0 <= at && end == at + part.len() && end <= text.len() ==> #[trigger] text.subrange(at, end)
            != part
}

/// The bindings in force where no namespace is declared.
pub open spec fn bare_scope() -> Map<Seq<char>, Seq<char>> {
    Map::empty().insert(""@, ""@).insert("xml"@, "http://www.w3.org/XML/1998/namespace"@).insert(
        "xmlns"@,
        "http://www.w3.org/2000/xmlns/"@,
    )
}

/// A default namespace that can be declared.
pub open spec fn is_free_namespace(uri: Seq<char>) -> bool {
    &&& uri != "xml"@
    &&& uri != "xmlns"@
    &&& uri != "http://www.w3.org/XML/1998/namespace"@
    &&& uri != "http://www.w3.org/2000/xmlns/"@
}

/// Whether these can be bindings in force: the built-in ones, a default namespace or none, and
/// any prefixes.
pub open spec fn is_scope(scope: Map<Seq<char>, Seq<char>>) -> bool {
    &&& scope.contains_key(""@) && is_free_namespace(scope[""@])
    &&& scope.contains_key("xml"@) && scope["xml"@] == bare_scope()["xml"@]
    &&& scope.contains_key("xmlns"@) && scope["xmlns"@] == bare_scope()["xmlns"@]
    &&& forall|prefix: Seq<char>| #[trigger]
        scope.contains_key(prefix) && !bare_scope().contains_key(prefix) ==> scope[prefix].len()
            > 0
}

/// Whether the prefixes in a scope are plain names, and the namespaces plain values.
pub open spec fn is_simple_scope(scope: Map<Seq<char>, Seq<char>>) -> bool {
    forall|prefix: Seq<char>| #[trigger]
        scope.contains_key(prefix) ==> is_plain_value(scope[prefix]) && (
        bare_scope().contains_key(prefix) || is_plain_name(prefix))
}

/// Whether these can be the bindings in force all over a plain document.
pub open spec fn is_plain_scope(scope: Map<Seq<char>, Seq<char>>) -> bool {
    is_scope(scope) && is_simple_scope(scope)
}

/// The bindings in force in an element.
pub open spec fn scope_of(element: ElementView) -> Map<Seq<char>, Seq<char>> {
    match element.namespaces {
        Some(scope) => scope,
        None => bare_scope(),
    }
}

/// What is known of a node that was read: it does not hold what would end it.
pub open spec fn is_read_node(node: NodeView) -> bool
    decreases node,
{
    match node {
        NodeView::Element(element) => is_read_element(element),
        NodeView::Text(text) => text.len() > 0,
        NodeView::Comment(text) => is_without(text, "--"@),
        NodeView::CData(text) => is_without(text, "]]>"@),
        NodeView::ProcessingInstruction(name, data) => lowered(name) != "xml"@ && (
        data matches Some(text) ==> is_without(text, "?>"@)),
    }
}

/// What is known of an element that was read: it is in the namespace that its prefix is bound to,
/// its attributes are finitely many, all that is known of its nodes holds, and no text follows
/// another.
pub open spec fn is_read_element(element: ElementView) -> bool
    decreases element,
{
    let scope = scope_of(element);
    &&& is_scope(scope)
    &&& element.prefix matches Some(prefix) ==> scope.contains_key(prefix)
        && !bare_scope().contains_key(prefix)
    &&& element.namespace == namespace_in(scope, element.prefix)
    &&& element.namespaces is Some ==> scope != bare_scope()
    &&& element.attributes.dom().finite()
    &&& forall|at: int|
        0 <= at < element.children.len() ==> is_read_node(#[trigger] element.children[at])
    &&& forall|at: int, next: int|
        0 <= at < element.children.len() && next == at + 1 && next < element.children.len()
            && #[trigger] element.children[at] is Text ==> !(#[trigger] element.children[next]
            is Text)
}

/// Whether a node is made of plain names, values and characters, in the sense of
/// `is_simple_element`.
pub open spec fn is_simple_node(node: NodeView, scope: Map<Seq<char>, Seq<char>>) -> bool
    decreases node,
{
    match node {
        NodeView::Element(element) => is_simple_element(element, scope),
        NodeView::Text(text) => is_plain_text(text),
        NodeView::Comment(text) => is_plain_data(text),
        NodeView::CData(text) => is_plain_data(text),
        NodeView::ProcessingInstruction(name, data) => is_plain_name(name) && (
        data matches Some(text) ==> is_plain_data(text)),
    }
}

/// Whether an element is made of plain names, values and characters, has not too many attributes
/// for the parser, and stands with all that it holds where `scope` is in force.
pub open spec fn is_simple_element(
    element: ElementView,
    scope: Map<Seq<char>, Seq<char>>,
) -> bool
    decreases element,
{
    &&& scope_of(element) == scope
    &&& is_plain_name(element.name)
    &&& element.attributes.remove("version"@).dom().len() < 0x1000
    &&& forall|key: Seq<char>| #[trigger]
        element.attributes.contains_key(key) ==> is_plain_name(key) && key != "xmlns"@
            && is_plain_value(element.attributes[key])
    &&& forall|at: int|
        0 <= at < element.children.len() ==> is_simple_node(#[trigger] element.children[at], scope)
}

/// The namespace of an element with this prefix, if it is in one.
pub open spec fn namespace_in(
    scope: Map<Seq<char>, Seq<char>>,
    prefix: Option<Seq<char>>,
) -> Option<Seq<char>> {
    let uri = match prefix {
        Some(prefix) => scope[prefix],
        None => scope[""@],
    };
    if uri.len() == 0 {
        None
    } else {
        Some(uri)
    }
}

/// Whether a node is plain in the sense of `is_plain_element`. A comment does not hold what would
/// end it, and neither does a CDATA section or a processing instruction.
pub open spec fn is_plain_node(node: NodeView, scope: Map<Seq<char>, Seq<char>>) -> bool
    decreases node,
{
    match node {
        NodeView::Element(element) => is_plain_element(element, scope),
        NodeView::Text(text) => is_plain_text(text),
        NodeView::Comment(text) => is_plain_data(text) && is_without(text, "--"@),
        NodeView::CData(text) => is_plain_data(text) && is_without(text, "]]>"@),
        NodeView::ProcessingInstruction(name, data) => is_plain_name(name) && lowered(name)
            != "xml"@ && (data matches Some(text) ==> is_plain_data(text) && is_without(
            text,
            "?>"@,
        )),
    }
}

/// Whether an element is made of plain names, values and nodes, and stands with all that it holds
/// where `scope` is in force. It has not too many attributes for the parser. No text follows
/// another.
pub open spec fn is_plain_element(
    element: ElementView,
    scope: Map<Seq<char>, Seq<char>>,
) -> bool
    decreases element,
{
    &&& is_plain_name(element.name)
    &&& element.prefix matches Some(prefix) ==> scope.contains_key(prefix)
        && !bare_scope().contains_key(prefix)
    &&& element.namespace == namespace_in(scope, element.prefix)
    &&& element.namespaces == (if scope == bare_scope() {
        None
    } else {
        Some(scope)
    })
    &&& element.attributes.dom().finite()
    &&& element.attributes.remove("version"@).dom().len() < 0x1000
    &&& forall|key: Seq<char>| #[trigger]
        element.attributes.contains_key(key) ==> is_plain_name(key) && key != "xmlns"@
            && is_plain_value(element.attributes[key])
    &&& forall|at: int|
        0 <= at < element.children.len() ==> is_plain_node(#[trigger] element.children[at], scope)
    &&& forall|at: int, next: int|
        0 <= at < element.children.len() && next == at + 1 && next < element.children.len()
            && #[trigger] element.children[at] is Text ==> !(#[trigger] element.children[next]
            is Text)
}

/// Whether an element is read from its own document as it was written, but for blanks around its
/// comments.
pub open spec fn reads_back(element: ElementView) -> bool {
    exists|scope: Map<Seq<char>, Seq<char>>|
        is_plain_scope(scope) && #[trigger] is_plain_element(element, scope)
}

/// In a document of fewer bytes nothing is too long for the parser but, possibly, a name.
pub const LONGEST_DOCUMENT: u64 = 0x4000_0000;

/// A comment with white space at both its ends.
pub open spec fn padded(text: Seq<char>) -> Seq<char> {
    let front = if text.len() > 0 && is_space(text[0]) {
        text
    } else {
        seq![' '] + text
    };
    if text.len() > 0 && is_space(text.last()) {
        front
    } else {
        front.push(' ')
    }
}

/// An element with white space around all comments in it.
pub open spec fn settled(element: ElementView) -> ElementView
    decreases element,
{
    ElementView { children: settled_nodes(element.children), ..element }
}

/// Nodes with white space around all comments among them and in them.
pub open spec fn settled_nodes(nodes: Seq<NodeView>) -> Seq<NodeView>
    decreases nodes,
{
    Seq::new(
        nodes.len(),
        |at: int|
            if 0 <= at < nodes.len() {
                settled_node(nodes[at])
            } else {
                arbitrary()
            },
    )
}

/// A node with white space around all comments in it.
pub open spec fn settled_node(node: NodeView) -> NodeView
    decreases node,
{
    match node {
        NodeView::Element(element) => NodeView::Element(settled(element)),
        NodeView::Comment(text) => NodeView::Comment(padded(text)),
        _ => node,
    }
}

/// Calls `xmltree::Element::parse`. What it returns depends on the bytes alone: its root element is
/// named `xml_document`, and it fails where there is none. Of the root element, `is_read_element`
/// holds: the parser refuses prefixes that are not bound, puts what stands between two pieces of
/// markup into one text, and ends a comment, a CDATA section and a processing instruction at the
/// first place where they can end.
#[verifier::external_body]
fn parse(bytes: &[u8]) -> (result: Result<xmltree::Element, xmltree::ParseError>)
    ensures
        match result {
            Ok(element) => xml_document(bytes@) == Some(outside_element(element))
                && is_read_element(outside_element(element)),
            Err(_) => xml_document(bytes@) is None,
        },
{
    xmltree::Element::parse(bytes)
}

/// The message of an `xmltree::ParseError` and those of its causes, as `anyhow::Error` writes them
/// out; nothing is claimed of it.
#[verifier::external_body]
fn parse_error_text(error: xmltree::ParseError) -> (text: String) {
    format!("{:#}", anyhow::Error::new(error))
}

/// The message of an `xmltree::Error` and those of its causes, as `anyhow::Error` writes them out;
/// nothing is claimed of it.
#[verifier::external_body]
fn write_error_text(error: xmltree::Error) -> (text: String) {
    format!("{:#}", anyhow::Error::new(error))
}

/// Takes the public fields of an `xmltree::Element` over, one for one.
#[verifier::external_body]
fn own_element(element: xmltree::Element) -> (own: XmlElement)
    ensures
        own@ == outside_element(element),
{
    XmlElement {
        prefix: element.prefix,
        namespace: element.namespace,
        namespaces: element.namespaces.map(|map| TextMap { entries: map.0.into_iter().collect() }),
        name: element.name,
        attributes: TextMap { entries: element.attributes.into_iter().collect() },
        children: element.children.into_iter().map(|node| match node {
            xmltree::XMLNode::Element(child) => XmlNode::Element(own_element(child)),
            xmltree::XMLNode::Comment(text) => XmlNode::Comment(text),
            xmltree::XMLNode::CData(text) => XmlNode::CData(text),
            xmltree::XMLNode::Text(text) => XmlNode::Text(text),
            xmltree::XMLNode::ProcessingInstruction(name, data) => XmlNode::ProcessingInstruction(name, data),
        }).collect(),
    }
}

/// Fills the public fields of an `xmltree::Element`, one for one.
#[verifier::external_body]
fn to_outside(own: XmlElement) -> (element: xmltree::Element)
    ensures
        outside_element(element) == own@,
{
    xmltree::Element {
        prefix: own.prefix,
        namespace: own.namespace,
        namespaces: own.namespaces.map(|map| xmltree::Namespace(map.entries.into_iter().collect())),
        name: own.name,
        attributes: own.attributes.entries.into_iter().collect(),
        children: own.children.into_iter().map(|node| match node {
            XmlNode::Element(child) => xmltree::XMLNode::Element(to_outside(child)),
            XmlNode::Comment(text) => xmltree::XMLNode::Comment(text),
            XmlNode::CData(text) => xmltree::XMLNode::CData(text),
            XmlNode::Text(text) => xmltree::XMLNode::Text(text),
            XmlNode::ProcessingInstruction(name, data) => xmltree::XMLNode::ProcessingInstruction(name, data),
        }).collect(),
    }
}

/// Calls `xmltree::Element::write_with_config`, with indentation and without a document
/// declaration. What it writes depends on the element alone, as attributes are kept sorted: it is
/// named `xml_text`. An element that `reads_back` holds for is written, and where the document
/// stays under the parser's limits, `xmltree::Element::parse` gives the same element back, with
/// white space around its comments: markup characters are escaped, namespaces are declared where
/// they come into force, and the indentation that is added is white space between two pieces of
/// markup, which the parser drops.
#[verifier::external_body]
fn write(element: &xmltree::Element) -> (result: Result<Vec<u8>, xmltree::Error>)
    ensures
        match result {
            Ok(bytes) => xml_text(outside_element(*element)) == Some(bytes@) && (reads_back(
                outside_element(*element),
            ) && bytes@.len() < LONGEST_DOCUMENT ==> xml_document(bytes@) == Some(
                settled(outside_element(*element)),
            )),
            Err(_) => xml_text(outside_element(*element)) is None,
        },
        reads_back(outside_element(*element)) ==> result is Ok,
{
    let mut bytes = Vec::new();
    let config = xmltree::EmitterConfig::new().perform_indent(true).write_document_declaration(
        false,
    );
    element.write_with_config(&mut bytes, config)?;
    Ok(bytes)
}

/// Reads a document; where that fails, the error says why.
pub fn parse_document(bytes: &[u8]) -> (result: Result<XmlElement, String>)
    ensures
        match result {
            Ok(element) => xml_document(bytes@) == Some(element@) && is_read_element(element@),
            Err(_) => xml_document(bytes@) is None,
        },
{
    match parse(bytes) {
        Ok(element) => Ok(own_element(element)),
        Err(error) => Err(parse_error_text(error)),
    }
}

/// Writes a document; where that fails, the error says why. A plain document that is not too long
/// is read as the element that was written, with white space around its comments.
pub fn write_document(element: XmlElement) -> (result: Result<Vec<u8>, String>)
    ensures
        match result {
            Ok(bytes) => xml_text(element@) == Some(bytes@) && (reads_back(element@) && bytes@.len()
                < LONGEST_DOCUMENT ==> xml_document(bytes@) == Some(settled(element@))),
            Err(_) => xml_text(element@) is None,
        },
        reads_back(element@) ==> result is Ok,
{
    match write(&to_outside(element)) {
        Ok(bytes) => Ok(bytes),
        Err(error) => Err(write_error_text(error)),
    }
}

} // verus!
