use envs_injector::matcher::MatchTagWithName;
use envs_injector::attributes::Attributes;
use envs_injector::tree::{Node, XmlElement};

fn pair(key: &str, value: &str) -> (String, String) {
    (key.to_string(), value.to_string())
}

#[test]
fn new_attributes_are_empty() {
    let attributes = Attributes::new();
    assert_eq!(attributes.len(), 0);
    assert!(attributes.entries().is_empty());
    assert_eq!(attributes.get("name"), None);
}

#[test]
fn set_appends_a_new_key_at_the_end() {
    let mut attributes = Attributes::new();
    attributes.set("name", "FOO");
    attributes.set("value", "1");
    attributes.set("extra", "x");
    assert_eq!(attributes.len(), 3);
    assert_eq!(attributes.entries(), &vec![pair("name", "FOO"), pair("value", "1"), pair("extra", "x")]);
}

#[test]
fn set_overwrites_an_existing_key_in_place() {
    let mut attributes = Attributes::new();
    attributes.set("name", "FOO");
    attributes.set("value", "old");
    attributes.set("extra", "x");
    attributes.set("value", "new");
    assert_eq!(attributes.len(), 3);
    assert_eq!(attributes.entries(), &vec![pair("name", "FOO"), pair("value", "new"), pair("extra", "x")]);
}

#[test]
fn get_returns_the_bound_value() {
    let mut attributes = Attributes::new();
    attributes.set("name", "FOO");
    attributes.set("value", "1");
    assert_eq!(attributes.get("name"), Some(&"FOO".to_string()));
    assert_eq!(attributes.get("value"), Some(&"1".to_string()));
    assert_eq!(attributes.get("Name"), None);
    assert_eq!(attributes.get(""), None);
}

#[test]
fn setting_the_same_value_twice_changes_nothing() {
    let mut once = Attributes::new();
    once.set("value", "1");
    let mut twice = Attributes::new();
    twice.set("value", "1");
    twice.set("value", "1");
    assert_eq!(once, twice);
}

#[test]
fn setting_one_key_leaves_the_others() {
    let mut attributes = Attributes::new();
    attributes.set("a", "1");
    attributes.set("b", "2");
    attributes.set("a", "3");
    assert_eq!(attributes.get("b"), Some(&"2".to_string()));
    assert_eq!(attributes.get("a"), Some(&"3".to_string()));
}

#[test]
fn new_element_has_only_its_name() {
    let element = XmlElement::new("envs");
    assert_eq!(element.name, "envs");
    assert_eq!(element.prefix, None);
    assert_eq!(element.namespace, None);
    assert_eq!(element.namespaces, None);
    assert_eq!(element.attributes.len(), 0);
    assert!(element.children.is_empty());
}

#[test]
fn matcher_keeps_tag_and_name() {
    let matcher = MatchTagWithName::new("configuration", "app");
    assert_eq!(matcher.tag, "configuration");
    assert_eq!(matcher.name_value, "app");
}

#[test]
fn matcher_accepts_tag_and_name() {
    let mut element = XmlElement::new("env");
    element.attributes.set("name", "FOO");
    assert!(MatchTagWithName::new("env", "FOO").match_element(&element));
}

#[test]
fn matcher_rejects_another_tag() {
    let mut element = XmlElement::new("envs");
    element.attributes.set("name", "FOO");
    assert!(!MatchTagWithName::new("env", "FOO").match_element(&element));
}

#[test]
fn matcher_rejects_another_name() {
    let mut element = XmlElement::new("env");
    element.attributes.set("name", "FOO");
    assert!(!MatchTagWithName::new("env", "BAR").match_element(&element));
}

#[test]
fn matcher_rejects_a_missing_name_attribute() {
    let mut element = XmlElement::new("env");
    element.attributes.set("value", "FOO");
    assert!(!MatchTagWithName::new("env", "FOO").match_element(&element));
    assert!(!MatchTagWithName::new("env", "").match_element(&element));
}

#[test]
fn matcher_does_not_fold_case_or_trim() {
    let mut element = XmlElement::new("env");
    element.attributes.set("name", "Foo");
    assert!(!MatchTagWithName::new("env", "foo").match_element(&element));
    assert!(!MatchTagWithName::new("env", "Foo ").match_element(&element));
    assert!(!MatchTagWithName::new("env", " Foo").match_element(&element));
    assert!(!MatchTagWithName::new("Env", "Foo").match_element(&element));
    assert!(MatchTagWithName::new("env", "Foo").match_element(&element));
}

#[test]
fn matcher_is_reusable() {
    let matcher = MatchTagWithName::new("env", "FOO");
    let mut first = XmlElement::new("env");
    first.attributes.set("name", "FOO");
    let mut second = XmlElement::new("env");
    second.attributes.set("name", "BAR");
    assert!(matcher.match_element(&first));
    assert!(!matcher.match_element(&second));
    assert!(matcher.match_element(&first));
}

#[test]
fn matcher_ignores_children_and_other_attributes() {
    let mut element = XmlElement::new("env");
    element.attributes.set("value", "1");
    element.attributes.set("name", "FOO");
    element.children.push(Node::Text("inside".to_string()));
    assert!(MatchTagWithName::new("env", "FOO").match_element(&element));
}
