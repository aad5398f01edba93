//! How a tree after an edit stands to the tree before it.

use crate::attributes::{attribute_value, PairModel};
use crate::editor::{child, envs_tag, named_leaf, value_key, with_value};
use crate::matcher::{matching, tagged};
use crate::search::first_index;
use crate::tree::{ElementModel, NodeModel};
use vstd::prelude::*;

verus! {

/// Two elements agree in all but their children.
pub open spec fn same_head(a: ElementModel, b: ElementModel) -> bool {
    &&& a.prefix == b.prefix
    &&& a.namespace == b.namespace
    &&& a.namespaces == b.namespaces
    &&& a.name == b.name
    &&& a.attributes == b.attributes
}

/// Two sequences of equal length agree everywhere but at `i`.
pub open spec fn same_but_at(a: Seq<NodeModel>, b: Seq<NodeModel>, i: int) -> bool {
    &&& a.len() == b.len()
    &&& forall|j: int| 0 <= j < a.len() && j != i ==> #[trigger] a[j] == b[j]
}

/// Two elements agree in all but the value of their `value` attribute.
pub open spec fn same_but_value(a: ElementModel, b: ElementModel) -> bool {
    &&& a.prefix == b.prefix
    &&& a.namespace == b.namespace
    &&& a.namespaces == b.namespaces
    &&& a.name == b.name
    &&& a.children == b.children
    &&& forall|key: Seq<char>|
        key != value_key() ==> #[trigger] attribute_value(a.attributes, key) == attribute_value(b.attributes, key)
}

/// `after` is `before`, but for the value of its `value` attribute where it
/// is an element.
pub open spec fn kept(before: NodeModel, after: NodeModel) -> bool {
    after == before || (before is Element && after is Element && same_but_value(
        after->Element_0,
        before->Element_0,
    ))
}

/// The children of a configuration but for its `envs` container are after
/// the application what they were before, in the same order.
pub open spec fn others_kept(before: Seq<NodeModel>, after: Seq<NodeModel>) -> bool {
    match first_index(before, tagged(envs_tag())) {
        Some(k) => same_but_at(after, before, k),
        None => {
            &&& after.len() == before.len() + 1
            &&& forall|j: int| 0 <= j < before.len() ==> #[trigger] after[j + 1] == before[j]
        },
    }
}

/// At most one of the children matches `tag` and `name`.
pub open spec fn at_most_one(children: Seq<NodeModel>, tag: Seq<char>, name: Seq<char>) -> bool {
    forall|i: int, j: int|
        0 <= i < children.len() && 0 <= j < children.len() && matching(tag, name)(#[trigger] children[i])
            && matching(tag, name)(#[trigger] children[j]) ==> i == j
}

/// The value of the last of `variables` that is called `name`, if any is.
pub open spec fn last_value(variables: Seq<PairModel>, name: Seq<char>) -> Option<Seq<char>>
    decreases variables.len(),
{
    if variables.len() == 0 {
        None
    } else if variables.last().0 == name {
        Some(variables.last().1)
    } else {
        last_value(variables.drop_last(), name)
    }
}

/// The first child of `container` that matches `tag` and `name` holds
/// `value`.
pub open spec fn holds_value(container: ElementModel, tag: Seq<char>, name: Seq<char>, value: Seq<char>) -> bool {
    match first_index(container.children, matching(tag, name)) {
        Some(i) => {
            &&& 0 <= i < container.children.len()
            &&& container.children[i] is Element
            &&& attribute_value(child(container, i).attributes, value_key()) == Some(value)
        },
        None => false,
    }
}

/// The new leaves of the variables, the last variable's first.
pub open spec fn leaves_last_first(tag: Seq<char>, variables: Seq<PairModel>) -> Seq<NodeModel> {
    Seq::new(
        variables.len(),
        |i: int|
            NodeModel::Element(
                with_value(
                    named_leaf(tag, variables[variables.len() - 1 - i].0),
                    variables[variables.len() - 1 - i].1,
                ),
            ),
    )
}

} // verus!
