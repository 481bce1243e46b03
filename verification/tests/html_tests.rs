// Building a document tree from what an HTML parser reports.

use browser_engine::dom::{AttrMap, Node, NodeType};
use browser_engine::html::{DomNodeType, DomTreeSink};

fn attrs(pairs: &[(&str, &str)]) -> AttrMap {
    let mut map = AttrMap::new();
    for (name, value) in pairs {
        map.insert(name.to_string(), value.to_string());
    }
    map
}

fn tag(node: &Node) -> &str {
    node.element_data().unwrap().tag_name.as_str()
}

#[test]
fn test_empty_document() {
    let sink = DomTreeSink::new();
    assert_eq!(sink.get_document(), 0);
    assert_eq!(sink.node_count(), 1);
    let tree = sink.finish();
    assert_eq!(tag(&tree), "html");
    assert_eq!(tree.children.len(), 0);
}

#[test]
fn test_elements_are_moved_to_their_parents() {
    let mut sink = DomTreeSink::new();
    let html = sink.create_element("html".to_string(), AttrMap::new());
    let body = sink.create_element("body".to_string(), attrs(&[("class", "x")]));
    let note = sink.create_comment("note".to_string());
    // new nodes hang below the document until they are appended
    assert_eq!(sink.node(0).children, vec![html, body, note]);
    assert_eq!(sink.parent_of(body), Some(0));
    sink.append_node(html, body);
    sink.append_node(0, html);
    sink.append_node(body, note);
    let text = sink.append_text(body, "hello".to_string());
    assert_eq!(sink.node(0).children, vec![html]);
    assert_eq!(sink.node(html).children, vec![body]);
    assert_eq!(sink.node(body).children, vec![note, text]);
    assert_eq!(sink.parent_of(note), Some(body));
    // appending a child again keeps its place
    sink.append_node(body, note);
    assert_eq!(sink.node(body).children, vec![text, note]);
    let tree = sink.finish();
    assert_eq!(tag(&tree), "html");
    assert_eq!(tree.children.len(), 1);
    let body = &tree.children[0];
    assert_eq!(body.element_data().unwrap().get_attribute("class"), Some("x"));
    assert_eq!(body.children.len(), 2);
    assert_eq!(body.children[0].text_content(), Some("hello"));
    assert!(matches!(&body.children[1].node_type, NodeType::Comment(c) if c == "note"));
}

#[test]
fn test_remove_and_reparent() {
    let mut sink = DomTreeSink::new();
    let a = sink.create_element("a".to_string(), AttrMap::new());
    let b = sink.create_element("b".to_string(), AttrMap::new());
    let x = sink.append_text(a, "x".to_string());
    let y = sink.append_text(a, "y".to_string());
    let z = sink.append_text(b, "z".to_string());
    sink.reparent_children(a, b);
    assert_eq!(sink.node(a).children, Vec::<usize>::new());
    assert_eq!(sink.node(b).children, vec![z, x, y]);
    assert_eq!(sink.parent_of(x), Some(b));
    sink.remove_from_parent(z);
    assert_eq!(sink.parent_of(z), None);
    assert_eq!(sink.node(b).children, vec![x, y]);
    sink.remove_from_parent(z);
    assert_eq!(sink.node(b).children, vec![x, y]);
    sink.remove_from_parent(a);
    let tree = sink.finish();
    assert_eq!(tag(&tree), "b");
    assert_eq!(tree.children.len(), 2);
}

#[test]
fn test_add_attrs_if_missing() {
    let mut sink = DomTreeSink::new();
    let a = sink.create_element("a".to_string(), attrs(&[("id", "old")]));
    let pair = |n: &str, v: &str| (n.to_string(), v.to_string());
    sink.add_attrs_if_missing(a, vec![pair("id", "new"), pair("href", "1"), pair("href", "2")]);
    match &sink.node(a).node_type {
        DomNodeType::Element { local_name, attrs } => {
            assert_eq!(local_name, "a");
            assert_eq!(attrs.get("id"), Some(&"old".to_string()));
            assert_eq!(attrs.get("href"), Some(&"1".to_string()));
            assert_eq!(attrs.len(), 2);
        }
        other => panic!("{:?}", other),
    }
    let t = sink.append_text(a, "t".to_string());
    sink.add_attrs_if_missing(t, vec![pair("id", "x")]);
    assert!(matches!(&sink.node(t).node_type, DomNodeType::Text(s) if s == "t"));
    assert_eq!(sink.parent_of(t), Some(a));
}

#[test]
fn test_tree_is_cut_off_at_the_depth() {
    let mut sink = DomTreeSink::new();
    let a = sink.create_element("a".to_string(), AttrMap::new());
    let b = sink.create_element("b".to_string(), AttrMap::new());
    sink.append_node(a, b);
    sink.append_text(b, "deep".to_string());
    assert_eq!(sink.to_dom_tree(a, 0).children.len(), 0);
    let one = sink.to_dom_tree(a, 1);
    assert_eq!(one.children.len(), 1);
    assert_eq!(one.children[0].children.len(), 0);
    let two = sink.to_dom_tree(a, 2);
    assert_eq!(two.children[0].children[0].text_content(), Some("deep"));
    // a node that is its own ancestor does not stop the walk from ending
    sink.append_node(b, a);
    let looped = sink.to_dom_tree(a, 4);
    assert_eq!(tag(&looped), "a");
    assert_eq!(tag(&sink.to_dom_tree(0, 0)), "html");
}
