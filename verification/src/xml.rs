//! Reading a document from XML text and writing it back, through `xmltree`.

use crate::attributes::Attributes;
use crate::tree::{ElementModel, Node, XmlElement};
use vstd::prelude::*;
use xmltree::XMLNode;

verus! {

/// `xmltree::Element`: the tree that `xmltree` reads and writes. It is
/// opaque here; only the functions below that convert look inside.
#[verifier::external_type_specification]
#[verifier::external_body]
pub struct ExTree(xmltree::Element);

/// `xmltree::Namespace`: the namespace declarations in scope at an element.
/// An [`XmlElement`] carries them through unread.
#[verifier::external_type_specification]
#[verifier::external_body]
pub struct ExNamespace(xmltree::Namespace);

/// `xmltree::ParseError`: why a text could not be read.
#[verifier::external_type_specification]
#[verifier::external_body]
pub struct ExParseError(xmltree::ParseError);

/// `xmltree::Error`: why a tree could not be written.
#[verifier::external_type_specification]
#[verifier::external_body]
pub struct ExEmitError(xmltree::Error);

/// What an `xmltree` element holds, field by field: its `name`, `prefix`,
/// `namespace` and `namespaces` as they are, the entries of `attributes` in
/// the order of the map, and its `children` in their order, each as the
/// node of the same kind, the elements among them by this same rule.
pub uninterp spec fn tree_model(tree: xmltree::Element) -> ElementModel;

/// The root element that `xmltree::Element::parse` reads from `text`, or
/// nothing where it rejects the text.
pub uninterp spec fn parsed(text: Seq<u8>) -> Option<ElementModel>;

/// The text that `xmltree::Element::write_with_config` writes for
/// `document`, with indentation or without, or nothing where it fails.
pub uninterp spec fn emitted(document: ElementModel, indent: bool) -> Option<Seq<u8>>;

/// Calls `xmltree::Element::parse` on a byte slice. The contract claims
/// only that the outcome depends on the bytes alone, and calls it `parsed`:
/// the reader keeps nothing between calls, and the attribute map keeps the
/// order in which the attributes stand. (`parse` would panic on a document
/// without a root element; the XML reader reports an error for such a
/// document first.)
#[verifier::external_body]
fn parse_tree(text: &[u8]) -> (r: Result<xmltree::Element, xmltree::ParseError>)
    ensures
        match r {
            Ok(tree) => parsed(text@) == Some(tree_model(tree)),
            Err(_) => parsed(text@) is None,
        },
{
    xmltree::Element::parse(text)
}

/// Moves the fields of an `xmltree::Element`, and of the elements below
/// it, into an [`XmlElement`], one for one. The contract claims that
/// nothing is lost or reordered. The attribute map of `xmltree` holds no
/// key twice, which [`Attributes`] asks for.
#[verifier::external_body]
fn element_from_tree(tree: xmltree::Element) -> (e: XmlElement)
    ensures
        e@ == tree_model(tree),
{
    let children = tree.children.into_iter().map(|c| match c {
        XMLNode::Element(t) => Node::Element(element_from_tree(t)),
        XMLNode::Comment(s) => Node::Comment(s),
        XMLNode::CData(s) => Node::CData(s),
        XMLNode::Text(s) => Node::Text(s),
        XMLNode::ProcessingInstruction(n, d) => Node::ProcessingInstruction(n, d),
    });
    XmlElement {
        prefix: tree.prefix,
        namespace: tree.namespace,
        namespaces: tree.namespaces,
        name: tree.name,
        attributes: Attributes { entries: tree.attributes.into_iter().collect() },
        children: children.collect(),
    }
}

/// Copies the fields of an [`XmlElement`], and of the elements below it,
/// into an `xmltree::Element`, one for one. The contract claims that
/// nothing is lost or reordered: no key occurs twice among the attributes,
/// so the attribute map takes each of them, in their order.
#[verifier::external_body]
fn tree_from_element(e: &XmlElement) -> (tree: xmltree::Element)
    ensures
        tree_model(tree) == e@,
{
    let children = e.children.iter().map(|c| match c {
        Node::Element(x) => XMLNode::Element(tree_from_element(x)),
        Node::Comment(s) => XMLNode::Comment(s.clone()),
        Node::CData(s) => XMLNode::CData(s.clone()),
        Node::Text(s) => XMLNode::Text(s.clone()),
        Node::ProcessingInstruction(n, d) => XMLNode::ProcessingInstruction(n.clone(), d.clone()),
    });
    xmltree::Element {
        prefix: e.prefix.clone(),
        namespace: e.namespace.clone(),
        namespaces: e.namespaces.clone(),
        name: e.name.clone(),
        attributes: e.attributes.entries.iter().cloned().collect(),
        children: children.collect(),
    }
}

/// Calls `xmltree::Element::write_with_config` with a byte vector to write
/// into and the default configuration, but for the indentation. The
/// contract claims only that the outcome depends on the tree and on
/// `indent` alone, and calls it `emitted`.
#[verifier::external_body]
fn emit_tree(tree: &xmltree::Element, indent: bool) -> (r: Result<Vec<u8>, xmltree::Error>)
    ensures
        match r {
            Ok(text) => emitted(tree_model(*tree), indent) == Some(text@),
            Err(_) => emitted(tree_model(*tree), indent) is None,
        },
{
    let mut text = Vec::new();
    let config = xmltree::EmitterConfig::new().perform_indent(indent);
    tree.write_with_config(&mut text, config).map(|_| text)
}

/// The text of an `xmltree::ParseError`, as its `Display` gives it. Nothing
/// is claimed of it.
#[verifier::external_body]
fn parse_error_message(error: &xmltree::ParseError) -> (message: String) {
    error.to_string()
}

/// The text of an `xmltree::Error`, as its `Display` gives it. Nothing is
/// claimed of it.
#[verifier::external_body]
fn emit_error_message(error: &xmltree::Error) -> (message: String) {
    error.to_string()
}

/// The text is not well-formed XML.
#[derive(Clone, Debug, PartialEq, Eq)]
pub struct ParseFailure {
    /// What the reader said of it.
    pub message: String,
}

/// The document could not be written as text.
#[derive(Clone, Debug, PartialEq, Eq)]
pub struct WriteFailure {
    /// What the writer said of it.
    pub message: String,
}

/// Reads the root element of an XML text. It fails exactly where the
/// reader rejects the text.
pub fn parse(text: &[u8]) -> (r: Result<XmlElement, ParseFailure>)
    ensures
        match r {
            Ok(document) => parsed(text@) == Some(document@),
            Err(_) => parsed(text@) is None,
        },
{
    match parse_tree(text) {
        Ok(tree) => Ok(element_from_tree(tree)),
        Err(error) => Err(ParseFailure { message: parse_error_message(&error) }),
    }
}

/// Writes the document as XML text, with indentation. It fails exactly
/// where the writer does.
pub fn serialize(document: &XmlElement) -> (r: Result<Vec<u8>, WriteFailure>)
    ensures
        match r {
            Ok(text) => emitted(document@, true) == Some(text@),
            Err(_) => emitted(document@, true) is None,
        },
{
    let tree = tree_from_element(document);
    match emit_tree(&tree, true) {
        Ok(text) => Ok(text),
        Err(error) => Err(WriteFailure { message: emit_error_message(&error) }),
    }
}

} // verus!
