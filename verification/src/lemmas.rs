//! What one write, a run of writes and the filling of a configuration do:
//! the steps from which the laws are proved.

use crate::attributes::{
    attribute_value, has_key, lemma_bound_again, lemma_bound_twice, lemma_bound_value, lemma_other_value, PairModel,
};
use crate::editor::{
    child, container_index, env_tag, envs_tag, named_leaf, populated, upsert, upsert_all, value_key, with_child,
    with_container, with_value,
};
use crate::matcher::{element_matches, matching, name_key, tagged};
use crate::relations::{holds_value, kept, last_value, same_but_value, same_head};
use crate::search::{
    first_index, lemma_first_index, lemma_first_index_front, lemma_first_index_none, lemma_first_index_same,
    lemma_first_index_shift, lemma_first_index_some,
};
use crate::tree::{ElementModel, NodeModel};
use vstd::prelude::*;

verus! {

/// The attribute that names an element is not the one that holds its value.
pub proof fn lemma_keys_differ()
    ensures
        name_key() != value_key(),
{
    reveal_strlit("name");
    reveal_strlit("value");
    assert(name_key().len() == 4);
    assert(value_key().len() == 5);
}

/// Setting the value of an element does not change what it matches.
pub proof fn lemma_with_value_matches(e: ElementModel, value: Seq<char>, tag: Seq<char>, name: Seq<char>)
    ensures
        element_matches(with_value(e, value), tag, name) == element_matches(e, tag, name),
{
    lemma_keys_differ();
    lemma_other_value(e.attributes, value_key(), value, name_key());
}

/// A new leaf has exactly two attributes: its name, then its value.
pub proof fn lemma_new_leaf(tag: Seq<char>, name: Seq<char>, value: Seq<char>)
    ensures
        with_value(named_leaf(tag, name), value) == (ElementModel {
            attributes: seq![(name_key(), name), (value_key(), value)],
            ..ElementModel::empty(tag)
        }),
{
    lemma_keys_differ();
    let a = seq![(name_key(), name)];
    assert forall|j: int| 0 <= j < a.len() implies !#[trigger] has_key(value_key())(a[j]) by {}
    lemma_first_index_none(a, has_key(value_key()));
    assert(a.push((value_key(), value)) =~= seq![(name_key(), name), (value_key(), value)]);
}

/// A leaf matches the name it was made with, and no other.
pub proof fn lemma_leaf_matches(tag: Seq<char>, name: Seq<char>, other: Seq<char>)
    ensures
        element_matches(named_leaf(tag, name), tag, other) == (other == name),
{
    let a = seq![(name_key(), name)];
    assert(has_key(name_key())(a[0]));
    lemma_first_index_some(a, has_key(name_key()), 0);
}

/// After a variable was written, the first child that matches its name
/// holds its value.
pub proof fn lemma_upsert_written(container: ElementModel, tag: Seq<char>, name: Seq<char>, value: Seq<char>)
    ensures
        match first_index(upsert(container, tag, name, value).children, matching(tag, name)) {
            Some(i) => {
                &&& 0 <= i < upsert(container, tag, name, value).children.len()
                &&& upsert(container, tag, name, value).children[i] is Element
                &&& attribute_value(child(upsert(container, tag, name, value), i).attributes, value_key()) == Some(
                    value,
                )
            },
            None => false,
        },
{
    let pred = matching(tag, name);
    let after = upsert(container, tag, name, value);
    lemma_first_index(container.children, pred);
    match first_index(container.children, pred) {
        Some(i) => {
            let leaf = child(container, i);
            lemma_with_value_matches(leaf, value, tag, name);
            assert(pred(container.children[i]));
            assert forall|j: int| 0 <= j < container.children.len() implies pred(
                #[trigger] container.children[j],
            ) == pred(after.children[j]) by {}
            lemma_first_index_same(container.children, after.children, pred);
            lemma_bound_value(leaf.attributes, value_key(), value);
        },
        None => {
            let leaf = with_value(named_leaf(tag, name), value);
            lemma_with_value_matches(named_leaf(tag, name), value, tag, name);
            lemma_leaf_matches(tag, name, name);
            assert(pred(NodeModel::Element(leaf)));
            lemma_first_index_front(container.children, NodeModel::Element(leaf), pred);
            lemma_bound_value(named_leaf(tag, name).attributes, value_key(), value);
            assert(after.children[0] == NodeModel::Element(leaf));
        },
    }
}

/// Writing a variable leaves the first child that matches another name
/// what it was, though it may move down by one place.
pub proof fn lemma_upsert_other(
    container: ElementModel,
    tag: Seq<char>,
    name: Seq<char>,
    value: Seq<char>,
    other: Seq<char>,
)
    requires
        other != name,
    ensures
        match first_index(container.children, matching(tag, other)) {
            Some(i) => match first_index(upsert(container, tag, name, value).children, matching(tag, other)) {
                Some(k) => {
                    &&& 0 <= k < upsert(container, tag, name, value).children.len()
                    &&& k == i + upsert(container, tag, name, value).children.len() - container.children.len()
                    &&& upsert(container, tag, name, value).children[k] == container.children[i]
                },
                None => false,
            },
            None => first_index(upsert(container, tag, name, value).children, matching(tag, other)) is None,
        },
{
    let pred = matching(tag, name);
    let other_pred = matching(tag, other);
    let after = upsert(container, tag, name, value);
    lemma_first_index(container.children, pred);
    lemma_first_index(container.children, other_pred);
    match first_index(container.children, pred) {
        Some(i) => {
            let leaf = child(container, i);
            lemma_with_value_matches(leaf, value, tag, other);
            assert(pred(container.children[i]));
            assert(!other_pred(container.children[i]));
            assert forall|j: int| 0 <= j < container.children.len() implies other_pred(
                #[trigger] container.children[j],
            ) == other_pred(after.children[j]) by {}
            lemma_first_index_same(container.children, after.children, other_pred);
            if let Some(k) = first_index(container.children, other_pred) {
                assert(other_pred(container.children[k]));
            }
        },
        None => {
            let leaf = with_value(named_leaf(tag, name), value);
            lemma_with_value_matches(named_leaf(tag, name), value, tag, other);
            lemma_leaf_matches(tag, name, other);
            assert(!other_pred(NodeModel::Element(leaf)));
            lemma_first_index_shift(container.children, NodeModel::Element(leaf), other_pred);
            if let Some(k) = first_index(container.children, other_pred) {
                assert(after.children[k + 1] == container.children[k]);
            }
        },
    }
}

/// For every name among `variables`, the first child of `container` that
/// matches the name holds the last value written under it.
pub open spec fn settled(container: ElementModel, tag: Seq<char>, variables: Seq<PairModel>) -> bool {
    forall|name: Seq<char>| #[trigger]
        last_value(variables, name) is Some ==> holds_value(
            container,
            tag,
            name,
            last_value(variables, name)->Some_0,
        )
}

/// After the variables were written, the container is settled for them.
pub proof fn lemma_upsert_all_settles(container: ElementModel, tag: Seq<char>, variables: Seq<PairModel>)
    ensures
        settled(upsert_all(container, tag, variables), tag, variables),
    decreases variables.len(),
{
    if variables.len() > 0 {
        let before = upsert_all(container, tag, variables.drop_last());
        let name = variables.last().0;
        let value = variables.last().1;
        let after = upsert(before, tag, name, value);
        lemma_upsert_all_settles(container, tag, variables.drop_last());
        assert forall|other: Seq<char>| #[trigger] last_value(variables, other) is Some implies holds_value(
            after,
            tag,
            other,
            last_value(variables, other)->Some_0,
        ) by {
            if other == name {
                lemma_upsert_written(before, tag, name, value);
            } else {
                assert(last_value(variables.drop_last(), other) is Some);
                lemma_upsert_other(before, tag, name, value, other);
            }
        }
    }
}

/// The `i`-th child of `container` after the last value of each name among
/// `variables` was given to the first child that matches the name.
pub open spec fn revalued_child(
    container: ElementModel,
    tag: Seq<char>,
    variables: Seq<PairModel>,
    i: int,
) -> NodeModel {
    let node = container.children[i];
    if node is Element {
        match attribute_value(node->Element_0.attributes, name_key()) {
            Some(name) => if first_index(container.children, matching(tag, name)) == Some(i) && last_value(
                variables,
                name,
            ) is Some {
                NodeModel::Element(with_value(node->Element_0, last_value(variables, name)->Some_0))
            } else {
                node
            },
            None => node,
        }
    } else {
        node
    }
}

/// `container` after the last value of each name among `variables` was
/// given to the first child that matches the name.
pub open spec fn revalued(container: ElementModel, tag: Seq<char>, variables: Seq<PairModel>) -> ElementModel {
    ElementModel {
        children: Seq::new(container.children.len(), |i: int| revalued_child(container, tag, variables, i)),
        ..container
    }
}

/// Every name among `variables` is matched by a child of `container`.
pub open spec fn all_present(container: ElementModel, tag: Seq<char>, variables: Seq<PairModel>) -> bool {
    forall|name: Seq<char>| #[trigger]
        last_value(variables, name) is Some ==> first_index(container.children, matching(tag, name)) is Some
}

/// Giving values to children does not change what they match.
pub proof fn lemma_revalued_matches(
    container: ElementModel,
    tag: Seq<char>,
    variables: Seq<PairModel>,
    name: Seq<char>,
)
    ensures
        first_index(revalued(container, tag, variables).children, matching(tag, name)) == first_index(
            container.children,
            matching(tag, name),
        ),
{
    let pred = matching(tag, name);
    let after = revalued(container, tag, variables);
    assert forall|j: int| 0 <= j < container.children.len() implies pred(#[trigger] container.children[j]) == pred(
        after.children[j],
    ) by {
        let node = container.children[j];
        if node is Element {
            if let Some(own) = attribute_value(node->Element_0.attributes, name_key()) {
                if last_value(variables, own) is Some {
                    lemma_with_value_matches(node->Element_0, last_value(variables, own)->Some_0, tag, name);
                }
            }
        }
    }
    lemma_first_index_same(container.children, after.children, pred);
}

/// Where every name is matched already, writing the variables only gives
/// values: the last value of each name, to the first child that matches it.
pub proof fn lemma_upsert_all_revalues(container: ElementModel, tag: Seq<char>, variables: Seq<PairModel>)
    requires
        all_present(container, tag, variables),
    ensures
        upsert_all(container, tag, variables) == revalued(container, tag, variables),
    decreases variables.len(),
{
    if variables.len() == 0 {
        assert(revalued(container, tag, variables).children =~= container.children);
    } else {
        let rest = variables.drop_last();
        let name = variables.last().0;
        let value = variables.last().1;
        assert forall|other: Seq<char>| #[trigger] last_value(rest, other) is Some implies first_index(
            container.children,
            matching(tag, other),
        ) is Some by {
            assert(last_value(variables, other) is Some);
        }
        lemma_upsert_all_revalues(container, tag, rest);
        let before = revalued(container, tag, rest);
        let after = upsert(before, tag, name, value);
        let goal = revalued(container, tag, variables);
        lemma_revalued_matches(container, tag, rest, name);
        assert(last_value(variables, name) is Some);
        lemma_first_index(container.children, matching(tag, name));
        let i = first_index(container.children, matching(tag, name))->Some_0;
        assert(matching(tag, name)(container.children[i]));
        let leaf = child(container, i);
        assert(attribute_value(leaf.attributes, name_key()) == Some(name));
        assert(after.children.len() == goal.children.len());
        assert forall|j: int| 0 <= j < goal.children.len() implies after.children[j] == goal.children[j] by {
            if j == i {
                if last_value(rest, name) is Some {
                    lemma_with_value_twice(leaf, last_value(rest, name)->Some_0, value);
                }
            } else {
                let node = container.children[j];
                if node is Element {
                    if let Some(own) = attribute_value(node->Element_0.attributes, name_key()) {
                        if first_index(container.children, matching(tag, own)) == Some(j) {
                            assert(own != name);
                            assert(last_value(variables, own) == last_value(rest, own));
                        }
                    }
                }
            }
        }
        assert(after.children =~= goal.children);
    }
}

/// Setting the value twice is setting it to the second value.
pub proof fn lemma_with_value_twice(e: ElementModel, first: Seq<char>, second: Seq<char>)
    ensures
        with_value(with_value(e, first), second) == with_value(e, second),
{
    lemma_bound_twice(e.attributes, value_key(), first, second);
}

/// Writing the variables into a container that is settled for them changes
/// nothing.
pub proof fn lemma_settled_is_fixed(container: ElementModel, tag: Seq<char>, variables: Seq<PairModel>)
    requires
        settled(container, tag, variables),
    ensures
        upsert_all(container, tag, variables) == container,
{
    assert forall|name: Seq<char>| #[trigger] last_value(variables, name) is Some implies first_index(
        container.children,
        matching(tag, name),
    ) is Some by {
        assert(holds_value(container, tag, name, last_value(variables, name)->Some_0));
    }
    lemma_upsert_all_revalues(container, tag, variables);
    let after = revalued(container, tag, variables);
    assert forall|j: int| 0 <= j < container.children.len() implies after.children[j] == container.children[j] by {
        let node = container.children[j];
        if node is Element {
            if let Some(own) = attribute_value(node->Element_0.attributes, name_key()) {
                if first_index(container.children, matching(tag, own)) == Some(j) && last_value(variables, own)
                    is Some {
                    assert(holds_value(container, tag, own, last_value(variables, own)->Some_0));
                    lemma_bound_again(node->Element_0.attributes, value_key(), last_value(variables, own)->Some_0);
                }
            }
        }
    }
    assert(after.children =~= container.children);
}

/// Writing the same variables a second time changes nothing.
pub proof fn lemma_upsert_all_idempotent(container: ElementModel, tag: Seq<char>, variables: Seq<PairModel>)
    ensures
        upsert_all(upsert_all(container, tag, variables), tag, variables) == upsert_all(container, tag, variables),
{
    lemma_upsert_all_settles(container, tag, variables);
    lemma_settled_is_fixed(upsert_all(container, tag, variables), tag, variables);
}

/// Writing one variable is writing the run of that variable alone.
pub proof fn lemma_upsert_all_single(container: ElementModel, tag: Seq<char>, name: Seq<char>, value: Seq<char>)
    ensures
        upsert_all(container, tag, seq![(name, value)]) == upsert(container, tag, name, value),
{
    let variables = seq![(name, value)];
    assert(variables.drop_last() =~= Seq::<PairModel>::empty());
    assert(upsert_all(container, tag, variables.drop_last()) == container);
    assert(variables.last() == (name, value));
}

/// Writing variables changes the children of a container and nothing else.
pub proof fn lemma_upsert_all_head(container: ElementModel, tag: Seq<char>, variables: Seq<PairModel>)
    ensures
        same_head(upsert_all(container, tag, variables), container),
    decreases variables.len(),
{
    if variables.len() > 0 {
        lemma_upsert_all_head(container, tag, variables.drop_last());
    }
}

/// After `with_container`, the container is there, at `container_index`.
pub proof fn lemma_container_found(parent: ElementModel, tag: Seq<char>)
    ensures
        first_index(with_container(parent, tag).children, tagged(tag)) == Some(container_index(parent, tag)),
        0 <= container_index(parent, tag) < with_container(parent, tag).children.len(),
        with_container(parent, tag).children[container_index(parent, tag)] is Element,
        child(with_container(parent, tag), container_index(parent, tag)).name == tag,
{
    lemma_first_index(parent.children, tagged(tag));
    match first_index(parent.children, tagged(tag)) {
        Some(k) => {
            assert(tagged(tag)(parent.children[k]));
        },
        None => {
            let container = NodeModel::Element(ElementModel::empty(tag));
            assert(tagged(tag)(container));
            lemma_first_index_front(parent.children, container, tagged(tag));
            assert(parent.children.insert(0, container)[0] == container);
        },
    }
}

/// Writing the same variables into a configuration a second time changes
/// nothing.
pub proof fn lemma_populate_idempotent(configuration: ElementModel, variables: Seq<PairModel>)
    ensures
        populated(populated(configuration, variables), variables) == populated(configuration, variables),
{
    let prepared = with_container(configuration, envs_tag());
    let k = container_index(configuration, envs_tag());
    let envs = upsert_all(child(prepared, k), env_tag(), variables);
    let once = populated(configuration, variables);
    lemma_container_found(configuration, envs_tag());
    lemma_upsert_all_head(child(prepared, k), env_tag(), variables);
    assert forall|j: int| 0 <= j < prepared.children.len() implies tagged(envs_tag())(#[trigger] prepared.children[j])
        == tagged(envs_tag())(once.children[j]) by {}
    lemma_first_index_same(prepared.children, once.children, tagged(envs_tag()));
    lemma_first_index(prepared.children, tagged(envs_tag()));
    assert(with_container(once, envs_tag()) == once);
    assert(container_index(once, envs_tag()) == k);
    assert(child(once, k) == envs);
    lemma_upsert_all_idempotent(child(prepared, k), env_tag(), variables);
    assert(once.children.update(k, NodeModel::Element(envs)) =~= once.children);
}

/// Replacing a child by an element with the same tag and attributes does
/// not change which child is found under a tag and a name.
pub proof fn lemma_with_child_matches(
    parent: ElementModel,
    i: int,
    replacement: ElementModel,
    tag: Seq<char>,
    name: Seq<char>,
)
    requires
        0 <= i < parent.children.len(),
        parent.children[i] is Element,
        same_head(replacement, child(parent, i)),
    ensures
        first_index(with_child(parent, i, replacement).children, matching(tag, name)) == first_index(
            parent.children,
            matching(tag, name),
        ),
{
    let after = with_child(parent, i, replacement);
    assert forall|j: int| 0 <= j < parent.children.len() implies matching(tag, name)(#[trigger] parent.children[j])
        == matching(tag, name)(after.children[j]) by {}
    lemma_first_index_same(parent.children, after.children, matching(tag, name));
}

/// Populating a configuration changes its children and nothing else.
pub proof fn lemma_populate_head(configuration: ElementModel, variables: Seq<PairModel>)
    ensures
        same_head(populated(configuration, variables), configuration),
{
}

/// Setting the value of an element changes that attribute and nothing else.
pub proof fn lemma_with_value_frame(e: ElementModel, value: Seq<char>)
    ensures
        same_but_value(with_value(e, value), e),
        attribute_value(with_value(e, value).attributes, value_key()) == Some(value),
{
    lemma_bound_value(e.attributes, value_key(), value);
    assert forall|key: Seq<char>| key != value_key() implies #[trigger] attribute_value(
        with_value(e, value).attributes,
        key,
    ) == attribute_value(e.attributes, key) by {
        lemma_other_value(e.attributes, value_key(), value, key);
    }
}

/// Writing one variable removes no child, keeps the children in their
/// order, and changes at most the value of one of them.
pub proof fn lemma_upsert_keeps(container: ElementModel, tag: Seq<char>, name: Seq<char>, value: Seq<char>)
    ensures
        ({
            let after = upsert(container, tag, name, value);
            let added = after.children.len() - container.children.len();
            &&& 0 <= added <= 1
            &&& forall|z: int|
                0 <= z < container.children.len() ==> kept(
                    container.children[z],
                    #[trigger] after.children[added + z],
                )
        }),
{
    let after = upsert(container, tag, name, value);
    lemma_first_index(container.children, matching(tag, name));
    match first_index(container.children, matching(tag, name)) {
        Some(i) => {
            lemma_with_value_frame(child(container, i), value);
            assert(matching(tag, name)(container.children[i]));
            assert forall|z: int| 0 <= z < container.children.len() implies kept(
                container.children[z],
                #[trigger] after.children[0 + z],
            ) by {}
        },
        None => {
            assert forall|z: int| 0 <= z < container.children.len() implies kept(
                container.children[z],
                #[trigger] after.children[1 + z],
            ) by {}
        },
    }
}

} // verus!
