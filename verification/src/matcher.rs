//! Deciding whether an element is the one sought: by its tag, and by the
//! value of its `name` attribute.

use crate::attributes::attribute_value;
use crate::tree::{ElementModel, NodeModel, XmlElement};
use vstd::prelude::*;

verus! {

/// The key of the attribute that names an element.
pub open spec fn name_key() -> Seq<char> {
    "name"@
}

/// `e` has the tag `tag`, and its `name` attribute is present and equal to
/// `name`, character for character.
pub open spec fn element_matches(e: ElementModel, tag: Seq<char>, name: Seq<char>) -> bool {
    e.name == tag && attribute_value(e.attributes, name_key()) == Some(name)
}

/// The predicate "the node is an element that matches `tag` and `name`".
pub open spec fn matching(tag: Seq<char>, name: Seq<char>) -> spec_fn(NodeModel) -> bool {
    |n: NodeModel| n is Element && element_matches(n->Element_0, tag, name)
}

/// The predicate "the node is an element with the tag `tag`".
pub open spec fn tagged(tag: Seq<char>) -> spec_fn(NodeModel) -> bool {
    |n: NodeModel| n is Element && n->Element_0.name == tag
}

/// Matches the elements with a given tag whose `name` attribute has a given
/// value.
#[derive(Clone, Debug, PartialEq, Eq)]
pub struct MatchTagWithName {
    /// The tag that an element must have.
    pub tag: String,
    /// The value that its `name` attribute must have.
    pub name_value: String,
}

impl MatchTagWithName {
    /// The matcher for `tag` and `name`.
    pub fn new(tag: &str, name: &str) -> (m: MatchTagWithName)
        ensures
            m.tag@ == tag@,
            m.name_value@ == name@,
    {
        MatchTagWithName { tag: tag.to_owned(), name_value: name.to_owned() }
    }

    /// Whether this matcher accepts the element `e`.
    pub open spec fn accepts(self, e: ElementModel) -> bool {
        element_matches(e, self.tag@, self.name_value@)
    }

    /// Whether `e` is a match.
    pub fn match_element(&self, e: &XmlElement) -> (r: bool)
        ensures
            r == self.accepts(e@),
    {
        if e.name == self.tag {
            match e.attributes.get("name") {
                Some(v) => *v == self.name_value,
                None => false,
            }
        } else {
            false
        }
    }
}

} // verus!
