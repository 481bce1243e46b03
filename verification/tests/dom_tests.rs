// The document tree.

use browser_engine::dom::{AttrMap, ElementData, Node, NodeType};

#[test]
fn test_text_node() {
    let node = Node::text("Hello, World!".to_string());
    assert!(matches!(node.node_type, NodeType::Text(_)));
    assert_eq!(node.text_content(), Some("Hello, World!"));
}

#[test]
fn test_element_node() {
    let mut attrs = AttrMap::new();
    attrs.insert("id".to_string(), "main".to_string());
    attrs.insert("class".to_string(), "container active".to_string());

    let node = Node::element("div".to_string(), attrs, vec![]);

    let elem_data = node.element_data().unwrap();
    assert_eq!(elem_data.tag_name, "div");
    assert_eq!(elem_data.id(), Some("main"));
    assert_eq!(elem_data.classes(), vec!["container", "active"]);
}

#[test]
fn test_comment_node() {
    let node = Node::comment("note".to_string());
    assert!(matches!(node.node_type, NodeType::Comment(_)));
    assert_eq!(node.text_content(), None);
    assert!(node.element_data().is_none());
    assert_eq!(node.children.len(), 0);
}

#[test]
fn test_element_without_attributes() {
    let elem = ElementData { tag_name: "p".to_string(), attributes: AttrMap::new() };
    assert_eq!(elem.id(), None);
    assert_eq!(elem.get_attribute("class"), None);
    assert_eq!(elem.classes(), Vec::<&str>::new());
}

#[test]
fn test_classes_are_split_at_any_white_space() {
    let mut attrs = AttrMap::new();
    attrs.insert("class".to_string(), "\t one\ntwo\u{a0}three \u{3000} ".to_string());
    let elem = ElementData { tag_name: "p".to_string(), attributes: attrs };
    assert_eq!(elem.classes(), vec!["one", "two", "three"]);
    let child = Node::text("t".to_string());
    let node = Node::element("div".to_string(), AttrMap::new(), vec![child]);
    assert_eq!(node.children.len(), 1);
    assert_eq!(node.text_content(), None);
}
