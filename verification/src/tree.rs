//! The document tree: elements, their attributes and their children.

use crate::attributes::{Attributes, PairModel};
use vstd::prelude::*;

verus! {

/// The mathematical value of an [`XmlElement`].
pub struct ElementModel {
    /// The prefix of the tag, if it has one.
    pub prefix: Option<Seq<char>>,
    /// The namespace of the tag, if it has one.
    pub namespace: Option<Seq<char>>,
    /// The namespace declarations in scope, if there are any. They are
    /// carried through and never read.
    pub namespaces: Option<xmltree::Namespace>,
    /// The tag, without prefix.
    pub name: Seq<char>,
    /// The attributes, in the order in which they are written.
    pub attributes: Seq<PairModel>,
    /// The children, in document order.
    pub children: Seq<NodeModel>,
}

/// The mathematical value of a [`Node`].
pub enum NodeModel {
    Element(ElementModel),
    Comment(Seq<char>),
    CData(Seq<char>),
    Text(Seq<char>),
    ProcessingInstruction(Seq<char>, Option<Seq<char>>),
}

/// The character sequence of an optional string.
pub open spec fn text_model(s: Option<String>) -> Option<Seq<char>> {
    match s {
        Some(t) => Some(t@),
        None => None,
    }
}

/// One child of an element.
#[derive(Debug, PartialEq, Eq)]
pub enum Node {
    /// A nested element.
    Element(XmlElement),
    /// A comment.
    Comment(String),
    /// A CDATA section.
    CData(String),
    /// Character data.
    Text(String),
    /// A processing instruction: its name and, if it has any, its data.
    ProcessingInstruction(String, Option<String>),
}

/// A named node with attributes and ordered children.
#[derive(Debug, PartialEq, Eq)]
pub struct XmlElement {
    /// The prefix of the tag, if it has one.
    pub prefix: Option<String>,
    /// The namespace of the tag, if it has one.
    pub namespace: Option<String>,
    /// The namespace declarations in scope, if there are any.
    pub namespaces: Option<xmltree::Namespace>,
    /// The tag, without prefix.
    pub name: String,
    /// The attributes, in the order in which they are written.
    pub attributes: Attributes,
    /// The children, in document order.
    pub children: Vec<Node>,
}

impl Node {
    /// The mathematical value of this node.
    pub open spec fn model(self) -> NodeModel
        decreases self,
    {
        match self {
            Node::Element(e) => NodeModel::Element(e.model()),
            Node::Comment(s) => NodeModel::Comment(s@),
            Node::CData(s) => NodeModel::CData(s@),
            Node::Text(s) => NodeModel::Text(s@),
            Node::ProcessingInstruction(n, d) => NodeModel::ProcessingInstruction(n@, text_model(d)),
        }
    }
}

/// The mathematical values of a sequence of nodes.
pub open spec fn nodes_model(nodes: Seq<Node>) -> Seq<NodeModel>
    decreases nodes,
{
    Seq::new(
        nodes.len(),
        |i: int|
            if 0 <= i < nodes.len() {
                nodes[i].model()
            } else {
                NodeModel::Text(Seq::empty())
            },
    )
}

impl XmlElement {
    /// The mathematical value of this element.
    pub open spec fn model(self) -> ElementModel
        decreases self,
    {
        ElementModel {
            prefix: text_model(self.prefix),
            namespace: text_model(self.namespace),
            namespaces: self.namespaces,
            name: self.name@,
            attributes: self.attributes@,
            children: nodes_model(self.children@),
        }
    }

    /// An element called `name` that has nothing else: no attributes, no
    /// children, no namespace.
    pub fn new(name: &str) -> (e: XmlElement)
        ensures
            e@ == ElementModel::empty(name@),
    {
        let e = XmlElement {
            prefix: None,
            namespace: None,
            namespaces: None,
            name: name.to_owned(),
            attributes: Attributes::new(),
            children: Vec::new(),
        };
        assert(e@.children =~= Seq::<NodeModel>::empty());
        e
    }
}

impl ElementModel {
    /// The element called `name` that has nothing else.
    pub open spec fn empty(name: Seq<char>) -> ElementModel {
        ElementModel {
            prefix: None,
            namespace: None,
            namespaces: None,
            name,
            attributes: Seq::empty(),
            children: Seq::empty(),
        }
    }
}

impl View for Node {
    type V = NodeModel;

    open spec fn view(&self) -> NodeModel {
        self.model()
    }
}

impl View for XmlElement {
    type V = ElementModel;

    open spec fn view(&self) -> ElementModel {
        self.model()
    }
}

} // verus!
