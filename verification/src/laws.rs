//! What holds of every document, configuration and set of variables.

use crate::attributes::{attribute_value, PairModel};
use crate::editor::{
    apply_model, child, component_tag, configuration_tag, env_tag, envs_tag, named_leaf, populated, run_manager,
    upsert, upsert_all, value_key, with_child, with_container, with_first_child, with_value, Sought,
};
use crate::injector::{inject_model, Outcome};
use crate::lemmas::{
    lemma_leaf_matches, lemma_new_leaf, lemma_populate_head, lemma_populate_idempotent, lemma_upsert_all_settles,
    lemma_upsert_all_single, lemma_upsert_keeps, lemma_upsert_other, lemma_with_child_matches,
    lemma_with_value_frame, lemma_with_value_matches,
};
use crate::matcher::{matching, name_key, tagged};
use crate::relations::{
    at_most_one, holds_value, kept, last_value, leaves_last_first, others_kept, same_but_at, same_but_value,
    same_head,
};
use crate::search::{first_index, lemma_first_index, lemma_first_index_none};
use crate::tree::{ElementModel, NodeModel};
use crate::xml::parsed;
use vstd::prelude::*;

verus! {

/// Idempotence: applying the same variables to the same configuration a
/// second time leaves the document as the first application left it.
pub proof fn law_apply_idempotent(document: ElementModel, configuration_name: Seq<char>, variables: Seq<PairModel>)
    ensures
        match apply_model(document, configuration_name, variables) {
            Ok(once) => apply_model(once, configuration_name, variables) == Ok::<ElementModel, Sought>(once),
            Err(_) => true,
        },
{
    if let Ok(once) = apply_model(document, configuration_name, variables) {
        let component = matching(component_tag(), run_manager());
        let named = matching(configuration_tag(), configuration_name);
        lemma_first_index(document.children, component);
        let i = first_index(document.children, component)->Some_0;
        assert(component(document.children[i]));
        let manager = child(document, i);
        lemma_first_index(manager.children, named);
        let j = first_index(manager.children, named)->Some_0;
        assert(named(manager.children[j]));
        let configuration = child(manager, j);
        let filled = populated(configuration, variables);
        let managed = with_child(manager, j, filled);
        lemma_populate_head(configuration, variables);
        lemma_with_child_matches(manager, j, filled, configuration_tag(), configuration_name);
        lemma_with_child_matches(document, i, managed, component_tag(), run_manager());
        lemma_populate_idempotent(configuration, variables);
        assert(child(once, i) == managed);
        assert(child(managed, j) == filled);
        assert(managed.children.update(j, NodeModel::Element(filled)) =~= managed.children);
        assert(once.children.update(i, NodeModel::Element(managed)) =~= once.children);
    }
}

/// Idempotence on files: where the text that a run wrote reads back as the
/// document that was written, a second run with the same variables on that
/// text writes the same text again.
pub proof fn law_inject_idempotent(text: Seq<u8>, configuration_name: Seq<char>, variables: Seq<PairModel>)
    requires
        inject_model(text, configuration_name, variables) is Written,
        parsed(inject_model(text, configuration_name, variables)->Written_0) == Some(
            apply_model(parsed(text)->Some_0, configuration_name, variables)->Ok_0,
        ),
    ensures
        inject_model(inject_model(text, configuration_name, variables)->Written_0, configuration_name, variables)
            == inject_model(text, configuration_name, variables),
{
    law_apply_idempotent(parsed(text)->Some_0, configuration_name, variables);
}

/// Upsert of an existing variable: where the container has a child for the
/// variable, the first such child gets the new value and keeps everything
/// else; all its siblings stay as they were, so as many children match the
/// variable's name after the write as before it.
pub proof fn law_upsert_overwrites(container: ElementModel, tag: Seq<char>, name: Seq<char>, value: Seq<char>)
    requires
        first_index(container.children, matching(tag, name)) is Some,
    ensures
        ({
            let i = first_index(container.children, matching(tag, name))->Some_0;
            let after = upsert(container, tag, name, value);
            &&& 0 <= i < container.children.len()
            &&& container.children[i] is Element
            &&& after == with_child(container, i, with_value(child(container, i), value))
            &&& same_head(after, container)
            &&& same_but_at(after.children, container.children, i)
            &&& same_but_value(child(after, i), child(container, i))
            &&& attribute_value(child(after, i).attributes, value_key()) == Some(value)
            &&& forall|j: int|
                0 <= j < container.children.len() ==> matching(tag, name)(#[trigger] after.children[j]) == matching(
                    tag,
                    name,
                )(container.children[j])
        }),
{
    lemma_first_index(container.children, matching(tag, name));
    let i = first_index(container.children, matching(tag, name))->Some_0;
    assert(matching(tag, name)(container.children[i]));
    lemma_with_value_frame(child(container, i), value);
    lemma_with_value_matches(child(container, i), value, tag, name);
}

/// Upsert in a configuration: where the configuration has an `envs`
/// container with a child for the variable, applying the variable changes
/// that child's value and nothing else in the configuration.
pub proof fn law_existing_variable(configuration: ElementModel, name: Seq<char>, value: Seq<char>)
    requires
        first_index(configuration.children, tagged(envs_tag())) is Some,
        first_index(
            child(configuration, first_index(configuration.children, tagged(envs_tag()))->Some_0).children,
            matching(env_tag(), name),
        ) is Some,
    ensures
        ({
            let k = first_index(configuration.children, tagged(envs_tag()))->Some_0;
            let envs = child(configuration, k);
            let i = first_index(envs.children, matching(env_tag(), name))->Some_0;
            populated(configuration, seq![(name, value)]) == with_child(
                configuration,
                k,
                with_child(envs, i, with_value(child(envs, i), value)),
            )
        }),
{
    let k = first_index(configuration.children, tagged(envs_tag()))->Some_0;
    lemma_upsert_all_single(child(configuration, k), env_tag(), name, value);
}

/// The last write wins: after a run of writes, the first child that
/// matches a name among the variables holds the value of the last variable
/// of that name.
pub proof fn law_last_write_wins(container: ElementModel, tag: Seq<char>, variables: Seq<PairModel>, name: Seq<char>)
    requires
        last_value(variables, name) is Some,
    ensures
        holds_value(upsert_all(container, tag, variables), tag, name, last_value(variables, name)->Some_0),
{
    lemma_upsert_all_settles(container, tag, variables);
}

/// The order of two writes is immaterial where the names differ and the
/// container has a child for at least one of them. (Where it has a child
/// for neither, the order decides which new leaf comes first.)
pub proof fn law_writes_commute(
    container: ElementModel,
    tag: Seq<char>,
    first: PairModel,
    second: PairModel,
)
    requires
        first.0 != second.0,
        first_index(container.children, matching(tag, first.0)) is Some || first_index(
            container.children,
            matching(tag, second.0),
        ) is Some,
    ensures
        upsert(upsert(container, tag, first.0, first.1), tag, second.0, second.1) == upsert(
            upsert(container, tag, second.0, second.1),
            tag,
            first.0,
            first.1,
        ),
{
    let one = upsert(container, tag, first.0, first.1);
    let other = upsert(container, tag, second.0, second.1);
    let left = upsert(one, tag, second.0, second.1);
    let right = upsert(other, tag, first.0, first.1);
    lemma_first_index(container.children, matching(tag, first.0));
    lemma_first_index(container.children, matching(tag, second.0));
    lemma_upsert_other(container, tag, first.0, first.1, second.0);
    lemma_upsert_other(container, tag, second.0, second.1, first.0);
    if let Some(i) = first_index(container.children, matching(tag, first.0)) {
        assert(matching(tag, first.0)(container.children[i]));
    }
    if let Some(j) = first_index(container.children, matching(tag, second.0)) {
        assert(matching(tag, second.0)(container.children[j]));
    }
    assert(left.children =~= right.children);
}

/// Creation: in a configuration without an `envs` container, applying one
/// variable puts a new container in front of the children, and in it one
/// leaf with the variable's name and value.
pub proof fn law_creation(configuration: ElementModel, name: Seq<char>, value: Seq<char>)
    requires
        first_index(configuration.children, tagged(envs_tag())) is None,
    ensures
        populated(configuration, seq![(name, value)]) == with_first_child(
            configuration,
            ElementModel {
                children: seq![
                    NodeModel::Element(
                        ElementModel {
                            attributes: seq![(name_key(), name), (value_key(), value)],
                            ..ElementModel::empty(env_tag())
                        },
                    ),
                ],
                ..ElementModel::empty(envs_tag())
            },
        ),
{
    let empty = ElementModel::empty(envs_tag());
    let prepared = with_container(configuration, envs_tag());
    assert(child(prepared, 0) == empty);
    lemma_upsert_all_single(empty, env_tag(), name, value);
    lemma_first_index_none(empty.children, matching(env_tag(), name));
    lemma_new_leaf(env_tag(), name, value);
    let leaf = with_value(named_leaf(env_tag(), name), value);
    assert(empty.children.insert(0, NodeModel::Element(leaf)) =~= seq![NodeModel::Element(leaf)]);
    let filled = upsert(empty, env_tag(), name, value);
    assert(prepared.children.update(0, NodeModel::Element(filled)) =~= configuration.children.insert(
        0,
        NodeModel::Element(filled),
    ));
}

/// Several new variables: where the names of the variables differ from one
/// another and no child of the container matches any of them, writing them
/// puts one new leaf for each in front of the children, the last written
/// first.
pub proof fn law_fresh_variables(container: ElementModel, tag: Seq<char>, variables: Seq<PairModel>)
    requires
        forall|n: int|
            0 <= n < variables.len() ==> first_index(container.children, matching(tag, (#[trigger] variables[n]).0))
                is None,
        forall|a: int, b: int|
            0 <= a < b < variables.len() ==> (#[trigger] variables[a]).0 != (#[trigger] variables[b]).0,
    ensures
        upsert_all(container, tag, variables).children == leaves_last_first(tag, variables) + container.children,
        same_head(upsert_all(container, tag, variables), container),
    decreases variables.len(),
{
    if variables.len() == 0 {
        assert(leaves_last_first(tag, variables) + container.children =~= container.children);
    } else {
        let rest = variables.drop_last();
        let name = variables.last().0;
        let value = variables.last().1;
        assert forall|n: int| 0 <= n < rest.len() implies first_index(
            container.children,
            matching(tag, (#[trigger] rest[n]).0),
        ) is None by {
            assert(rest[n] == variables[n]);
        }
        assert forall|a: int, b: int| 0 <= a < b < rest.len() implies (#[trigger] rest[a]).0 != (#[trigger] rest[b]).0
        by {
            assert(rest[a] == variables[a]);
            assert(rest[b] == variables[b]);
        }
        law_fresh_variables(container, tag, rest);
        let before = upsert_all(container, tag, rest);
        let pred = matching(tag, name);
        assert(variables[variables.len() - 1].0 == name);
        lemma_first_index(container.children, pred);
        assert forall|j: int| 0 <= j < before.children.len() implies !#[trigger] pred(before.children[j]) by {
            if j < rest.len() {
                let own = rest[rest.len() - 1 - j];
                assert(own == variables[rest.len() - 1 - j]);
                assert(before.children[j] == NodeModel::Element(with_value(named_leaf(tag, own.0), own.1)));
                lemma_with_value_matches(named_leaf(tag, own.0), own.1, tag, name);
                lemma_leaf_matches(tag, own.0, name);
            } else {
                assert(before.children[j] == container.children[j - rest.len()]);
            }
        }
        lemma_first_index_none(before.children, pred);
        let leaf = NodeModel::Element(with_value(named_leaf(tag, name), value));
        assert(before.children.insert(0, leaf) =~= leaves_last_first(tag, variables) + container.children);
    }
}

/// Preservation: an application changes nothing outside the configuration
/// it is aimed at. The document, the run manager and the configuration keep
/// their tags and attributes; the other components, the other
/// configurations, and the configuration's children but for the `envs`
/// container stay as they were, in their order.
pub proof fn law_preservation(document: ElementModel, configuration_name: Seq<char>, variables: Seq<PairModel>)
    ensures
        match apply_model(document, configuration_name, variables) {
            Ok(after) => {
                let i = first_index(document.children, matching(component_tag(), run_manager()))->Some_0;
                let j = first_index(
                    child(document, i).children,
                    matching(configuration_tag(), configuration_name),
                )->Some_0;
                &&& same_head(after, document)
                &&& same_but_at(after.children, document.children, i)
                &&& 0 <= i < document.children.len()
                &&& after.children[i] is Element
                &&& same_head(child(after, i), child(document, i))
                &&& same_but_at(child(after, i).children, child(document, i).children, j)
                &&& 0 <= j < child(document, i).children.len()
                &&& child(after, i).children[j] is Element
                &&& same_head(child(child(after, i), j), child(child(document, i), j))
                &&& others_kept(child(child(document, i), j).children, child(child(after, i), j).children)
            },
            Err(_) => true,
        },
{
    if let Ok(after) = apply_model(document, configuration_name, variables) {
        let component = matching(component_tag(), run_manager());
        let named = matching(configuration_tag(), configuration_name);
        lemma_first_index(document.children, component);
        let i = first_index(document.children, component)->Some_0;
        let manager = child(document, i);
        lemma_first_index(manager.children, named);
        let j = first_index(manager.children, named)->Some_0;
        let configuration = child(manager, j);
        let filled = populated(configuration, variables);
        assert(child(after, i) == with_child(manager, j, filled));
        assert(child(child(after, i), j) == filled);
        lemma_first_index(configuration.children, tagged(envs_tag()));
        let prepared = with_container(configuration, envs_tag());
        if first_index(configuration.children, tagged(envs_tag())) is None {
            assert forall|z: int| 0 <= z < configuration.children.len() implies #[trigger] filled.children[z + 1]
                == configuration.children[z] by {
                assert(prepared.children[z + 1] == configuration.children[z]);
            }
        }
    }
}

/// Nothing is lost: writing variables removes no child of the container and
/// keeps the children in their order, behind the new leaves. A child is
/// after the writes what it was before them, but for the value of its
/// `value` attribute.
pub proof fn law_children_kept(container: ElementModel, tag: Seq<char>, variables: Seq<PairModel>)
    ensures
        ({
            let after = upsert_all(container, tag, variables);
            let added = after.children.len() - container.children.len();
            &&& 0 <= added <= variables.len()
            &&& forall|z: int|
                0 <= z < container.children.len() ==> kept(
                    container.children[z],
                    #[trigger] after.children[added + z],
                )
        }),
    decreases variables.len(),
{
    if variables.len() > 0 {
        let before = upsert_all(container, tag, variables.drop_last());
        let after = upsert(before, tag, variables.last().0, variables.last().1);
        law_children_kept(container, tag, variables.drop_last());
        lemma_upsert_keeps(before, tag, variables.last().0, variables.last().1);
        let early = before.children.len() - container.children.len();
        let late = after.children.len() - before.children.len();
        assert forall|z: int| 0 <= z < container.children.len() implies kept(
            container.children[z],
            #[trigger] after.children[early + late + z],
        ) by {
            assert(kept(container.children[z], before.children[early + z]));
            assert(kept(before.children[early + z], after.children[late + (early + z)]));
        }
    }
}

/// No duplicates are made: a name that at most one child of the container
/// matches is matched by at most one child after a write, whatever was
/// written.
pub proof fn law_upsert_adds_no_duplicate(
    container: ElementModel,
    tag: Seq<char>,
    name: Seq<char>,
    value: Seq<char>,
    other: Seq<char>,
)
    requires
        at_most_one(container.children, tag, other),
    ensures
        at_most_one(upsert(container, tag, name, value).children, tag, other),
{
    let pred = matching(tag, other);
    let after = upsert(container, tag, name, value);
    lemma_first_index(container.children, matching(tag, name));
    match first_index(container.children, matching(tag, name)) {
        Some(k) => {
            lemma_with_value_matches(child(container, k), value, tag, other);
            assert forall|i: int, j: int|
                0 <= i < after.children.len() && 0 <= j < after.children.len() && pred(#[trigger] after.children[i])
                    && pred(#[trigger] after.children[j]) implies i == j by {
                assert(pred(container.children[i]));
                assert(pred(container.children[j]));
            }
        },
        None => {
            let leaf = with_value(named_leaf(tag, name), value);
            lemma_with_value_matches(named_leaf(tag, name), value, tag, other);
            lemma_leaf_matches(tag, name, other);
            assert forall|i: int, j: int|
                0 <= i < after.children.len() && 0 <= j < after.children.len() && pred(#[trigger] after.children[i])
                    && pred(#[trigger] after.children[j]) implies i == j by {
                if i > 0 {
                    assert(after.children[i] == container.children[i - 1]);
                    assert(pred(container.children[i - 1]));
                }
                if j > 0 {
                    assert(after.children[j] == container.children[j - 1]);
                    assert(pred(container.children[j - 1]));
                }
            }
        },
    }
}

/// No duplicates are made by a run of writes either.
pub proof fn law_upsert_all_adds_no_duplicate(
    container: ElementModel,
    tag: Seq<char>,
    variables: Seq<PairModel>,
    other: Seq<char>,
)
    requires
        at_most_one(container.children, tag, other),
    ensures
        at_most_one(upsert_all(container, tag, variables).children, tag, other),
    decreases variables.len(),
{
    if variables.len() > 0 {
        law_upsert_all_adds_no_duplicate(container, tag, variables.drop_last(), other);
        law_upsert_adds_no_duplicate(
            upsert_all(container, tag, variables.drop_last()),
            tag,
            variables.last().0,
            variables.last().1,
            other,
        );
    }
}

/// An application succeeds exactly where the document has a run manager
/// with a configuration of the name.
pub proof fn law_apply_succeeds(document: ElementModel, configuration_name: Seq<char>, variables: Seq<PairModel>)
    ensures
        apply_model(document, configuration_name, variables) is Ok <==> {
            &&& first_index(document.children, matching(component_tag(), run_manager())) is Some
            &&& first_index(
                child(
                    document,
                    first_index(document.children, matching(component_tag(), run_manager()))->Some_0,
                ).children,
                matching(configuration_tag(), configuration_name),
            ) is Some
        },
{
}

/// Missing structure: where the run manager is there and none of its
/// configurations has the name, the application fails and names the
/// configuration that was sought.
pub proof fn law_missing_configuration(
    document: ElementModel,
    configuration_name: Seq<char>,
    variables: Seq<PairModel>,
)
    requires
        first_index(document.children, matching(component_tag(), run_manager())) is Some,
        first_index(
            child(
                document,
                first_index(document.children, matching(component_tag(), run_manager()))->Some_0,
            ).children,
            matching(configuration_tag(), configuration_name),
        ) is None,
    ensures
        apply_model(document, configuration_name, variables) == Err::<ElementModel, Sought>(
            Sought { tag: configuration_tag(), name: configuration_name },
        ),
{
}

/// Missing structure on files: where the text reads as a document that
/// lacks the run manager or the configuration, the run writes nothing and
/// says what was sought.
pub proof fn law_inject_missing(text: Seq<u8>, configuration_name: Seq<char>, variables: Seq<PairModel>)
    requires
        parsed(text) is Some,
        apply_model(parsed(text)->Some_0, configuration_name, variables) is Err,
    ensures
        inject_model(text, configuration_name, variables) == Outcome::Missing(
            apply_model(parsed(text)->Some_0, configuration_name, variables)->Err_0,
        ),
{
}

} // verus!
