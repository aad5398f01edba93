use envs_injector::editor::StructureNotFound;
use envs_injector::injector::{inject, InjectError};
use envs_injector::selection::select_variables;
use envs_injector::tree::{Node, XmlElement};
use envs_injector::xml::{parse, serialize};

fn variables(items: &[(&str, &str)]) -> Vec<(String, String)> {
    items.iter().map(|(k, v)| (k.to_string(), v.to_string())).collect()
}

fn text_of(bytes: Vec<u8>) -> String {
    String::from_utf8(bytes).unwrap()
}

const WORKSPACE: &str = r#"<?xml version="1.0" encoding="UTF-8"?>
<project version="4">
  <component name="ChangeListManager">
    <list default="true" id="1" name="Default" comment="" />
  </component>
  <component name="RunManager" selected="Application.app">
    <configuration name="other" type="Application">
      <envs>
        <env name="X" value="untouched" />
      </envs>
    </configuration>
    <configuration name="app" type="Application" factoryName="Application">
      <option name="MAIN_CLASS_NAME" value="Main" />
      <envs>
        <env name="APP_A" value="1" />
        <env name="APP_X" value="old" />
      </envs>
      <method v="2" />
    </configuration>
  </component>
</project>"#;

#[test]
fn parse_reads_names_attributes_and_children() {
    let doc = parse(br#"<a x="1" y="2"><b/>text<!--c--><d z="3"><e/></d></a>"#).unwrap();
    let mut a = XmlElement::new("a");
    a.attributes.set("x", "1");
    a.attributes.set("y", "2");
    let mut d = XmlElement::new("d");
    d.attributes.set("z", "3");
    d.children.push(Node::Element(XmlElement::new("e")));
    a.children.push(Node::Element(XmlElement::new("b")));
    a.children.push(Node::Text("text".to_string()));
    a.children.push(Node::Comment("c".to_string()));
    a.children.push(Node::Element(d));
    assert_eq!(doc, a);
}

#[test]
fn parse_keeps_the_order_of_attributes() {
    let doc = parse(br#"<a zeta="1" alpha="2" mid="3"/>"#).unwrap();
    let keys: Vec<&str> = doc.attributes.entries().iter().map(|(k, _)| k.as_str()).collect();
    assert_eq!(keys, vec!["zeta", "alpha", "mid"]);
}

#[test]
fn parse_drops_whitespace_between_elements() {
    let doc = parse(b"<a>\n  <b/>\n  <c/>\n</a>").unwrap();
    let mut a = XmlElement::new("a");
    a.children.push(Node::Element(XmlElement::new("b")));
    a.children.push(Node::Element(XmlElement::new("c")));
    assert_eq!(doc, a);
}

#[test]
fn parse_rejects_malformed_text() {
    let result = parse(b"<a><b></a>");
    assert!(result.is_err());
    assert!(!result.unwrap_err().message.is_empty());
}

#[test]
fn parse_rejects_empty_text() {
    assert!(parse(b"").is_err());
}

#[test]
fn parse_rejects_text_without_a_root() {
    assert!(parse(b"<?xml version=\"1.0\"?><!-- nothing -->").is_err());
    assert!(parse(b"just text").is_err());
}

#[test]
fn serialize_writes_indented_text() {
    let mut a = XmlElement::new("a");
    a.attributes.set("x", "1");
    let mut b = XmlElement::new("b");
    b.attributes.set("name", "n");
    b.attributes.set("value", "v");
    a.children.push(Node::Element(b));
    a.children.push(Node::Element(XmlElement::new("c")));
    assert_eq!(
        text_of(serialize(&a).unwrap()),
        "<?xml version=\"1.0\" encoding=\"UTF-8\"?>\n<a x=\"1\">\n  <b name=\"n\" value=\"v\" />\n  <c />\n</a>"
    );
}

#[test]
fn serialize_escapes_attribute_values() {
    let mut a = XmlElement::new("a");
    a.attributes.set("value", "x<y & \"z\"");
    assert_eq!(
        text_of(serialize(&a).unwrap()),
        "<?xml version=\"1.0\" encoding=\"UTF-8\"?>\n<a value=\"x&lt;y &amp; &quot;z&quot;\" />"
    );
}

#[test]
fn serialize_writes_attributes_in_their_order() {
    let mut a = XmlElement::new("a");
    a.attributes.set("zeta", "1");
    a.attributes.set("alpha", "2");
    a.attributes.set("mid", "3");
    a.attributes.set("alpha", "4");
    assert_eq!(
        text_of(serialize(&a).unwrap()),
        "<?xml version=\"1.0\" encoding=\"UTF-8\"?>\n<a zeta=\"1\" alpha=\"4\" mid=\"3\" />"
    );
}

#[test]
fn what_was_written_reads_back() {
    let doc = parse(WORKSPACE.as_bytes()).unwrap();
    let written = serialize(&doc).unwrap();
    assert_eq!(text_of(written.clone()), WORKSPACE);
    assert_eq!(parse(&written).unwrap(), doc);
}

#[test]
fn comments_and_text_are_written_back() {
    let doc = parse(b"<a><!-- note --><b>inner text</b></a>").unwrap();
    assert_eq!(
        text_of(serialize(&doc).unwrap()),
        "<?xml version=\"1.0\" encoding=\"UTF-8\"?>\n<a>\n  <!-- note -->\n  <b>inner text</b>\n</a>"
    );
}

#[test]
fn namespaces_are_carried_through() {
    let doc = parse(br#"<p:a xmlns:p="urn:example"><p:b/></p:a>"#).unwrap();
    assert_eq!(doc.name, "a");
    assert_eq!(doc.prefix, Some("p".to_string()));
    assert_eq!(doc.namespace, Some("urn:example".to_string()));
    assert!(doc.namespaces.is_some());
    assert_eq!(
        text_of(serialize(&doc).unwrap()),
        "<?xml version=\"1.0\" encoding=\"UTF-8\"?>\n<p:a xmlns:p=\"urn:example\">\n  <p:b />\n</p:a>"
    );
}

#[test]
fn inject_overwrites_and_inserts() {
    let written = inject(WORKSPACE.as_bytes(), "app", &variables(&[("APP_X", "new"), ("APP_Y", "2")])).unwrap();
    let expected = r#"<?xml version="1.0" encoding="UTF-8"?>
<project version="4">
  <component name="ChangeListManager">
    <list default="true" id="1" name="Default" comment="" />
  </component>
  <component name="RunManager" selected="Application.app">
    <configuration name="other" type="Application">
      <envs>
        <env name="X" value="untouched" />
      </envs>
    </configuration>
    <configuration name="app" type="Application" factoryName="Application">
      <option name="MAIN_CLASS_NAME" value="Main" />
      <envs>
        <env name="APP_Y" value="2" />
        <env name="APP_A" value="1" />
        <env name="APP_X" value="new" />
      </envs>
      <method v="2" />
    </configuration>
  </component>
</project>"#;
    assert_eq!(text_of(written), expected);
}

#[test]
fn inject_creates_the_container() {
    let start = br#"<project><component name="RunManager"><configuration name="app"><method v="2"/></configuration></component></project>"#;
    let written = inject(start, "app", &variables(&[("X", "1")])).unwrap();
    let expected = r#"<?xml version="1.0" encoding="UTF-8"?>
<project>
  <component name="RunManager">
    <configuration name="app">
      <envs>
        <env name="X" value="1" />
      </envs>
      <method v="2" />
    </configuration>
  </component>
</project>"#;
    assert_eq!(text_of(written), expected);
}

#[test]
fn inject_twice_gives_the_same_text() {
    let vars = variables(&[("APP_X", "new"), ("APP_Y", "2"), ("APP_Z", "<&>")]);
    let first = inject(WORKSPACE.as_bytes(), "app", &vars).unwrap();
    let second = inject(&first, "app", &vars).unwrap();
    assert_eq!(text_of(first), text_of(second));
}

#[test]
fn inject_twice_into_a_new_container_gives_the_same_text() {
    let start = br#"<project><component name="RunManager"><configuration name="app"/></component></project>"#;
    let vars = variables(&[("FOO", "1"), ("BAR", "2")]);
    let first = inject(start, "app", &vars).unwrap();
    let second = inject(&first, "app", &vars).unwrap();
    assert_eq!(first, second);
}

#[test]
fn inject_reports_a_missing_configuration() {
    let result = inject(WORKSPACE.as_bytes(), "absent", &variables(&[("X", "1")]));
    assert_eq!(
        result,
        Err(InjectError::Structure(StructureNotFound {
            tag: "configuration".to_string(),
            name: "absent".to_string(),
        }))
    );
}

#[test]
fn inject_reports_a_missing_run_manager() {
    let start = br#"<project><component name="Other"><configuration name="app"/></component></project>"#;
    let result = inject(start, "app", &variables(&[("X", "1")]));
    assert_eq!(
        result,
        Err(InjectError::Structure(StructureNotFound {
            tag: "component".to_string(),
            name: "RunManager".to_string(),
        }))
    );
}

#[test]
fn inject_reports_malformed_text() {
    let result = inject(b"<project><component name=\"RunManager\">", "app", &variables(&[]));
    assert!(matches!(result, Err(InjectError::Parse(_))));
}

#[test]
fn inject_with_no_variables_still_creates_the_container() {
    let start = br#"<project><component name="RunManager"><configuration name="app"/></component></project>"#;
    let written = inject(start, "app", &variables(&[])).unwrap();
    let expected = r#"<?xml version="1.0" encoding="UTF-8"?>
<project>
  <component name="RunManager">
    <configuration name="app">
      <envs />
    </configuration>
  </component>
</project>"#;
    assert_eq!(text_of(written), expected);
}

#[test]
fn select_keeps_the_names_with_the_prefix_in_order() {
    let all = variables(&[("HOME", "/h"), ("APP_B", "2"), ("PATH", "/p"), ("APP_A", "1"), ("XAPP_C", "3"), ("APP_", "")]);
    assert_eq!(
        select_variables(&all, "APP_"),
        variables(&[("APP_B", "2"), ("APP_A", "1"), ("APP_", "")])
    );
}

#[test]
fn select_with_an_empty_prefix_keeps_all() {
    let all = variables(&[("HOME", "/h"), ("APP_B", "2")]);
    assert_eq!(select_variables(&all, ""), all);
}

#[test]
fn select_is_case_sensitive_and_needs_the_whole_prefix() {
    let all = variables(&[("app_A", "1"), ("AP", "2"), ("APP", "3"), ("APP_A", "4")]);
    assert_eq!(select_variables(&all, "APP_"), variables(&[("APP_A", "4")]));
}

#[test]
fn select_from_nothing() {
    assert_eq!(select_variables(&variables(&[]), "APP_"), variables(&[]));
}

#[test]
fn select_does_not_look_at_values() {
    let all = variables(&[("A", "APP_1"), ("APP_B", "x")]);
    assert_eq!(select_variables(&all, "APP_"), variables(&[("APP_B", "x")]));
}

#[test]
fn parse_reads_each_kind_of_child() {
    let doc = parse(b"<a><!--c--><?target data?><?bare?>t<![CDATA[x<y]]><b/></a>").unwrap();
    assert_eq!(
        doc.children,
        vec![
            Node::Comment("c".to_string()),
            Node::ProcessingInstruction("target".to_string(), Some("data".to_string())),
            Node::ProcessingInstruction("bare".to_string(), None),
            Node::Text("t".to_string()),
            Node::Text("x<y".to_string()),
            Node::Element(XmlElement::new("b")),
        ]
    );
}

#[test]
fn serialize_writes_each_kind_of_child() {
    let mut a = XmlElement::new("a");
    a.children.push(Node::Comment("c".to_string()));
    a.children.push(Node::ProcessingInstruction("target".to_string(), Some("data".to_string())));
    a.children.push(Node::ProcessingInstruction("bare".to_string(), None));
    a.children.push(Node::CData("x<y".to_string()));
    a.children.push(Node::Text("t&u".to_string()));
    a.children.push(Node::Element(XmlElement::new("b")));
    assert_eq!(
        text_of(serialize(&a).unwrap()),
        "<?xml version=\"1.0\" encoding=\"UTF-8\"?>\n<a>\n  <!-- c -->\n  <?target data?>\n  <?bare?><![CDATA[x<y]]>t&amp;u<b />\n</a>"
    );
}

#[test]
fn serialize_leaves_the_document_as_it_is() {
    let doc = parse(WORKSPACE.as_bytes()).unwrap();
    let first = serialize(&doc).unwrap();
    let second = serialize(&doc).unwrap();
    assert_eq!(first, second);
    assert_eq!(doc, parse(WORKSPACE.as_bytes()).unwrap());
}

#[test]
fn parse_reads_nested_elements_in_document_order() {
    let doc = parse(WORKSPACE.as_bytes()).unwrap();
    assert_eq!(doc.name, "project");
    assert_eq!(doc.attributes.get("version"), Some(&"4".to_string()));
    let names: Vec<String> = doc
        .children
        .iter()
        .map(|child| match child {
            Node::Element(e) => e.attributes.get("name").unwrap().clone(),
            other => panic!("not an element: {:?}", other),
        })
        .collect();
    assert_eq!(names, vec!["ChangeListManager".to_string(), "RunManager".to_string()]);
}
