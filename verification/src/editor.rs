//! Finding, creating and updating the elements of a run configuration.

use crate::attributes::{has_key, pairs_model, with_attribute, PairModel};
use crate::matcher::{matching, name_key, tagged, MatchTagWithName};
use crate::search::{first_index, lemma_first_index, lemma_first_index_none, lemma_first_index_some};
use crate::tree::{nodes_model, ElementModel, Node, NodeModel, XmlElement};
use vstd::prelude::*;
use vstd::string::StringExecFns;

verus! {

/// The key of the attribute that holds a variable's value.
pub open spec fn value_key() -> Seq<char> {
    "value"@
}

/// The tag of the component elements.
pub open spec fn component_tag() -> Seq<char> {
    "component"@
}

/// The name of the component that holds the run configurations.
pub open spec fn run_manager() -> Seq<char> {
    "RunManager"@
}

/// The tag of a run configuration.
pub open spec fn configuration_tag() -> Seq<char> {
    "configuration"@
}

/// The tag of the container of a configuration's variables.
pub open spec fn envs_tag() -> Seq<char> {
    "envs"@
}

/// The tag of the element that holds one variable.
pub open spec fn env_tag() -> Seq<char> {
    "env"@
}

/// The element that is the `i`-th child of `e`.
pub open spec fn child(e: ElementModel, i: int) -> ElementModel {
    e.children[i]->Element_0
}

/// `e` with the element `c` as its `i`-th child.
pub open spec fn with_child(e: ElementModel, i: int, c: ElementModel) -> ElementModel {
    ElementModel { children: e.children.update(i, NodeModel::Element(c)), ..e }
}

/// `e` with the element `c` put in front of its children.
pub open spec fn with_first_child(e: ElementModel, c: ElementModel) -> ElementModel {
    ElementModel { children: e.children.insert(0, NodeModel::Element(c)), ..e }
}

/// `e` with its `value` attribute set to `value`.
pub open spec fn with_value(e: ElementModel, value: Seq<char>) -> ElementModel {
    ElementModel { attributes: with_attribute(e.attributes, value_key(), value), ..e }
}

/// The element `<tag name="name"/>`.
pub open spec fn named_leaf(tag: Seq<char>, name: Seq<char>) -> ElementModel {
    ElementModel { attributes: seq![(name_key(), name)], ..ElementModel::empty(tag) }
}

/// What was sought and not found: a tag, and a value of the `name` attribute.
pub struct Sought {
    /// The tag that was sought.
    pub tag: Seq<char>,
    /// The value of the `name` attribute that was sought.
    pub name: Seq<char>,
}

/// A level of the expected structure is missing: no child with this tag and
/// this `name` attribute.
#[derive(Clone, Debug, PartialEq, Eq)]
pub struct StructureNotFound {
    /// The tag that was sought.
    pub tag: String,
    /// The value of the `name` attribute that was sought.
    pub name: String,
}

impl View for StructureNotFound {
    type V = Sought;

    open spec fn view(&self) -> Sought {
        Sought { tag: self.tag@, name: self.name@ }
    }
}

/// The report of a missing level: what was sought, and in which file.
pub open spec fn message_model(sought: Sought, path: Seq<char>) -> Seq<char> {
    "Failed to find <"@ + sought.tag + " name=\""@ + sought.name + "\"> tag in \""@ + path + "\" file"@
}

impl StructureNotFound {
    /// The report of this error for the file at `path`. It names the tag
    /// and the name that were sought, and the file.
    pub fn message(&self, path: &str) -> (text: String)
        ensures
            text@ == message_model(self@, path@),
    {
        let mut text = "Failed to find <".to_owned();
        text.append(self.tag.as_str());
        text.append(" name=\"");
        text.append(self.name.as_str());
        text.append("\"> tag in \"");
        text.append(path);
        text.append("\" file");
        text
    }
}

/// The element at `i`, which must be one, for writing.
fn element_at_mut(children: &mut Vec<Node>, i: usize) -> (r: &mut XmlElement)
    requires
        i < old(children)@.len(),
        old(children)@[i as int] is Element,
    ensures
        *r == old(children)@[i as int]->Element_0,
        final(children)@ == old(children)@.update(i as int, Node::Element(*final(r))),
{
    match &mut children[i] {
        Node::Element(e) => e,
        _ => vstd::pervasive::unreached(),
    }
}

/// The index of the first child of `parent` that `matcher` accepts.
pub fn find_child(parent: &XmlElement, matcher: &MatchTagWithName) -> (r: Option<usize>)
    ensures
        match r {
            Some(i) => {
                &&& first_index(parent@.children, matching(matcher.tag@, matcher.name_value@)) == Some(i as int)
                &&& i < parent.children@.len()
                &&& parent.children@[i as int] is Element
            },
            None => first_index(parent@.children, matching(matcher.tag@, matcher.name_value@)) is None,
        },
{
    let ghost pred = matching(matcher.tag@, matcher.name_value@);
    let mut i: usize = 0;
    while i < parent.children.len()
        invariant
            i <= parent.children@.len(),
            pred == matching(matcher.tag@, matcher.name_value@),
            forall|j: int| 0 <= j < i ==> !#[trigger] pred(parent@.children[j]),
        decreases parent.children@.len() - i,
    {
        match &parent.children[i] {
            Node::Element(e) => {
                if matcher.match_element(e) {
                    proof {
                        lemma_first_index_some(parent@.children, pred, i as int);
                    }
                    return Some(i);
                }
            },
            _ => {},
        }
        i += 1;
    }
    proof {
        lemma_first_index_none(parent@.children, pred);
    }
    None
}

/// The first child of `parent` that `matcher` accepts, for writing.
pub fn get_mut_child<'a>(parent: &'a mut XmlElement, matcher: &MatchTagWithName) -> (r: Option<&'a mut XmlElement>)
    ensures
        match r {
            Some(found) => {
                &&& first_index(old(parent)@.children, matching(matcher.tag@, matcher.name_value@)) is Some
                &&& found@ == child(
                    old(parent)@,
                    first_index(old(parent)@.children, matching(matcher.tag@, matcher.name_value@))->Some_0,
                )
                &&& final(parent)@ == with_child(
                    old(parent)@,
                    first_index(old(parent)@.children, matching(matcher.tag@, matcher.name_value@))->Some_0,
                    final(found)@,
                )
            },
            None => {
                &&& first_index(old(parent)@.children, matching(matcher.tag@, matcher.name_value@)) is None
                &&& *final(parent) == *old(parent)
            },
        },
{
    match find_child(parent, matcher) {
        Some(i) => {
            assert(parent@.children[i as int] == parent.children@[i as int]@);
            let found = element_at_mut(&mut parent.children, i);
            proof {
                assert(nodes_model(after_borrow(parent.children)@) =~= nodes_model(old(parent).children@).update(
                    i as int,
                    NodeModel::Element(final(found)@),
                ));
            }
            Some(found)
        },
        None => None,
    }
}

/// The index of the first child of `parent` that is an element with the
/// tag `tag`.
pub fn find_tagged(parent: &XmlElement, tag: &str) -> (r: Option<usize>)
    ensures
        match r {
            Some(i) => {
                &&& first_index(parent@.children, tagged(tag@)) == Some(i as int)
                &&& i < parent.children@.len()
                &&& parent.children@[i as int] is Element
            },
            None => first_index(parent@.children, tagged(tag@)) is None,
        },
{
    let ghost pred = tagged(tag@);
    let wanted = tag.to_owned();
    let mut i: usize = 0;
    while i < parent.children.len()
        invariant
            i <= parent.children@.len(),
            pred == tagged(tag@),
            wanted@ == tag@,
            forall|j: int| 0 <= j < i ==> !#[trigger] pred(parent@.children[j]),
        decreases parent.children@.len() - i,
    {
        assert(parent@.children[i as int] == parent.children@[i as int]@);
        match &parent.children[i] {
            Node::Element(e) => {
                if e.name == wanted {
                    proof {
                        lemma_first_index_some(parent@.children, pred, i as int);
                    }
                    return Some(i);
                }
            },
            _ => {},
        }
        i += 1;
    }
    proof {
        lemma_first_index_none(parent@.children, pred);
    }
    None
}

/// The first child of `parent` with the tag `tag` and the name `name`, for
/// writing, or the report that there is none.
pub fn find_or_fail<'a>(parent: &'a mut XmlElement, tag: &str, name: &str) -> (r: Result<
    &'a mut XmlElement,
    StructureNotFound,
>)
    ensures
        match r {
            Ok(found) => {
                &&& first_index(old(parent)@.children, matching(tag@, name@)) is Some
                &&& found@ == child(old(parent)@, first_index(old(parent)@.children, matching(tag@, name@))->Some_0)
                &&& final(parent)@ == with_child(
                    old(parent)@,
                    first_index(old(parent)@.children, matching(tag@, name@))->Some_0,
                    final(found)@,
                )
            },
            Err(e) => {
                &&& first_index(old(parent)@.children, matching(tag@, name@)) is None
                &&& e@ == (Sought { tag: tag@, name: name@ })
                &&& *final(parent) == *old(parent)
            },
        },
{
    let matcher = MatchTagWithName::new(tag, name);
    match get_mut_child(parent, &matcher) {
        Some(found) => Ok(found),
        None => Err(StructureNotFound { tag: matcher.tag, name: matcher.name_value }),
    }
}

/// `parent` with a child tagged `tag`: unchanged where it has one, else
/// with a new empty element of that tag in front of its children.
pub open spec fn with_container(parent: ElementModel, tag: Seq<char>) -> ElementModel {
    match first_index(parent.children, tagged(tag)) {
        Some(_) => parent,
        None => with_first_child(parent, ElementModel::empty(tag)),
    }
}

/// Where the first child tagged `tag` stands in `with_container(parent, tag)`.
pub open spec fn container_index(parent: ElementModel, tag: Seq<char>) -> int {
    match first_index(parent.children, tagged(tag)) {
        Some(i) => i,
        None => 0,
    }
}

/// `container` after one variable was written into it: the first child that
/// matches `tag` and `name` gets the value, and where there is none, a new
/// leaf with that name and value goes in front of the children.
pub open spec fn upsert(container: ElementModel, tag: Seq<char>, name: Seq<char>, value: Seq<char>) -> ElementModel {
    match first_index(container.children, matching(tag, name)) {
        Some(i) => with_child(container, i, with_value(child(container, i), value)),
        None => with_first_child(container, with_value(named_leaf(tag, name), value)),
    }
}

/// `container` after the variables were written into it, one after the
/// other, first to last.
pub open spec fn upsert_all(container: ElementModel, tag: Seq<char>, variables: Seq<PairModel>) -> ElementModel
    decreases variables.len(),
{
    if variables.len() == 0 {
        container
    } else {
        upsert(upsert_all(container, tag, variables.drop_last()), tag, variables.last().0, variables.last().1)
    }
}

/// `configuration` after the variables were written into its `envs`
/// container, which is created where it is missing.
pub open spec fn populated(configuration: ElementModel, variables: Seq<PairModel>) -> ElementModel {
    let prepared = with_container(configuration, envs_tag());
    let k = container_index(configuration, envs_tag());
    with_child(prepared, k, upsert_all(child(prepared, k), env_tag(), variables))
}

/// The document after the variables were written into the configuration
/// called `configuration_name` of its run manager, or what is missing.
pub open spec fn apply_model(
    document: ElementModel,
    configuration_name: Seq<char>,
    variables: Seq<PairModel>,
) -> Result<ElementModel, Sought> {
    match first_index(document.children, matching(component_tag(), run_manager())) {
        None => Err(Sought { tag: component_tag(), name: run_manager() }),
        Some(i) => {
            let manager = child(document, i);
            match first_index(manager.children, matching(configuration_tag(), configuration_name)) {
                None => Err(Sought { tag: configuration_tag(), name: configuration_name }),
                Some(j) => Ok(
                    with_child(document, i, with_child(manager, j, populated(child(manager, j), variables))),
                ),
            }
        },
    }
}

/// The first child of `parent` tagged `tag`, for writing. Where there is
/// none, an empty one is created first, as the first child.
pub fn find_or_create_container<'a>(parent: &'a mut XmlElement, tag: &str) -> (container: &'a mut XmlElement)
    ensures
        container@ == child(with_container(old(parent)@, tag@), container_index(old(parent)@, tag@)),
        final(parent)@ == with_child(
            with_container(old(parent)@, tag@),
            container_index(old(parent)@, tag@),
            final(container)@,
        ),
{
    let k = match find_tagged(parent, tag) {
        Some(k) => k,
        None => {
            parent.children.insert(0, Node::Element(XmlElement::new(tag)));
            0
        },
    };
    let ghost prepared = parent@;
    proof {
        assert(prepared.children =~= with_container(old(parent)@, tag@).children);
        assert(prepared.children[k as int] == parent.children@[k as int]@);
    }
    let container = element_at_mut(&mut parent.children, k);
    proof {
        assert(nodes_model(after_borrow(parent.children)@) =~= prepared.children.update(
            k as int,
            NodeModel::Element(final(container)@),
        ));
    }
    container
}

/// Writes one variable into `container`: the first child with the tag `tag`
/// and the name `name` gets `value` as its `value` attribute. Where there is
/// no such child, a new one is put in front of the others.
pub fn upsert_leaf(container: &mut XmlElement, tag: &str, name: &str, value: &str)
    ensures
        final(container)@ == upsert(old(container)@, tag@, name@, value@),
{
    let matcher = MatchTagWithName::new(tag, name);
    match get_mut_child(container, &matcher) {
        Some(leaf) => {
            leaf.attributes.set("value", value);
        },
        None => {
            let mut leaf = XmlElement::new(tag);
            leaf.attributes.set("name", name);
            leaf.attributes.set("value", value);
            proof {
                lemma_first_index_none(Seq::<PairModel>::empty(), has_key(name_key()));
                assert(with_attribute(Seq::<PairModel>::empty(), name_key(), name@) =~= seq![(name_key(), name@)]);
                assert(leaf@ == with_value(named_leaf(tag@, name@), value@));
            }
            container.children.insert(0, Node::Element(leaf));
            proof {
                assert(container@.children =~= old(container)@.children.insert(0, NodeModel::Element(leaf@)));
            }
        },
    }
}

/// Writes the variables into `container`, one after the other, first to
/// last, each as `upsert_leaf` does.
pub fn upsert_leaves(container: &mut XmlElement, tag: &str, variables: &Vec<(String, String)>)
    ensures
        final(container)@ == upsert_all(old(container)@, tag@, pairs_model(variables@)),
{
    let ghost all = pairs_model(variables@);
    let mut n: usize = 0;
    while n < variables.len()
        invariant
            n <= variables@.len(),
            all == pairs_model(variables@),
            container@ == upsert_all(old(container)@, tag@, all.take(n as int)),
        decreases variables@.len() - n,
    {
        let pair = &variables[n];
        upsert_leaf(container, tag, pair.0.as_str(), pair.1.as_str());
        proof {
            assert(all.take(n + 1).drop_last() =~= all.take(n as int));
            assert(all.take(n + 1).last() == (pair.0@, pair.1@));
        }
        n += 1;
    }
    proof {
        assert(all.take(n as int) =~= all);
    }
}

/// Writes the variables into `configuration`: into its first child tagged
/// `envs`, which is created as the first child where there is none.
pub fn populate(configuration: &mut XmlElement, variables: &Vec<(String, String)>)
    ensures
        final(configuration)@ == populated(old(configuration)@, pairs_model(variables@)),
{
    let envs = find_or_create_container(configuration, "envs");
    upsert_leaves(envs, "env", variables);
}

/// Writes the variables into the configuration called `configuration_name`
/// of the run manager of `document`, as `populate` does. Where the run
/// manager or the configuration is missing, the document stays as it is and
/// the error says what was sought.
pub fn apply(document: &mut XmlElement, configuration_name: &str, variables: &Vec<(String, String)>) -> (r: Result<
    (),
    StructureNotFound,
>)
    ensures
        match r {
            Ok(_) => apply_model(old(document)@, configuration_name@, pairs_model(variables@)) == Ok::<
                ElementModel,
                Sought,
            >(final(document)@),
            Err(e) => {
                &&& apply_model(old(document)@, configuration_name@, pairs_model(variables@)) == Err::<
                    ElementModel,
                    Sought,
                >(e@)
                &&& final(document)@ == old(document)@
            },
        },
{
    let manager = match find_or_fail(document, "component", "RunManager") {
        Ok(manager) => manager,
        Err(e) => {
            return Err(e);
        },
    };
    let configuration = match find_or_fail(manager, "configuration", configuration_name) {
        Ok(configuration) => configuration,
        Err(e) => {
            proof {
                lemma_same_child(old(document)@, matching(component_tag(), run_manager()));
            }
            return Err(e);
        },
    };
    populate(configuration, variables);
    Ok(())
}

/// Putting the first child that satisfies a predicate where it stands
/// changes nothing.
proof fn lemma_same_child(parent: ElementModel, pred: spec_fn(NodeModel) -> bool)
    requires
        first_index(parent.children, pred) is Some,
        parent.children[first_index(parent.children, pred)->Some_0] is Element,
    ensures
        with_child(
            parent,
            first_index(parent.children, pred)->Some_0,
            child(parent, first_index(parent.children, pred)->Some_0),
        ) == parent,
{
    lemma_first_index(parent.children, pred);
    let i = first_index(parent.children, pred)->Some_0;
    assert(parent.children.update(i, NodeModel::Element(child(parent, i))) =~= parent.children);
}

} // verus!
