// The tree builder of the library, fed by the `html5ever` parser.

use browser_engine::dom::{AttrMap, Node};
use browser_engine::html::DomTreeSink;
use html5ever::parse_document;
use html5ever::tendril::{StrTendril, TendrilSink};
use html5ever::tree_builder::{ElemName, ElementFlags, NodeOrText, QuirksMode, TreeSink};
use html5ever::{Attribute, LocalName, Namespace, QualName};
use std::borrow::Cow;
use std::cell::RefCell;
use std::collections::HashMap;

struct HtmlParser;

impl HtmlParser {
    fn parse(source: &str) -> Node {
        let sink = Sink::new();
        let parser = parse_document(sink, Default::default());
        let sink = parser.one(source);
        sink.into_tree()
    }
}

/// The name of an element, as the parser asks for it.
#[derive(Debug, Clone)]
struct OwnedName {
    ns: Namespace,
    local: LocalName,
}

impl ElemName for OwnedName {
    fn ns(&self) -> &Namespace {
        &self.ns
    }

    fn local_name(&self) -> &LocalName {
        &self.local
    }
}

/// The tree sink that the parser writes to.
struct Sink {
    tree: RefCell<DomTreeSink>,
    names: RefCell<HashMap<usize, OwnedName>>,
}

impl Sink {
    fn new() -> Self {
        Sink { tree: RefCell::new(DomTreeSink::new()), names: RefCell::new(HashMap::new()) }
    }

    fn into_tree(self) -> Node {
        self.tree.into_inner().finish()
    }

    /// Panics on a handle that the sink did not give out, as indexing the
    /// nodes would.
    fn check(&self, id: usize) {
        let count = self.tree.borrow().node_count();
        assert!(id < count, "index out of bounds: the len is {} but the index is {}", count, id);
    }

    fn attribute_map(attrs: Vec<Attribute>) -> AttrMap {
        let mut map = AttrMap::new();
        for attr in attrs {
            map.insert(attr.name.local.to_string(), attr.value.to_string());
        }
        map
    }

    fn append_to(&self, parent: usize, child: NodeOrText<usize>) {
        self.check(parent);
        match child {
            NodeOrText::AppendNode(node_id) => {
                self.check(node_id);
                self.tree.borrow_mut().append_node(parent, node_id);
            }
            NodeOrText::AppendText(text) => {
                self.tree.borrow_mut().append_text(parent, text.to_string());
            }
        }
    }
}

impl TreeSink for Sink {
    type Handle = usize;
    type Output = Self;
    type ElemName<'a> = OwnedName;

    fn finish(self) -> Self {
        self
    }

    fn parse_error(&self, _msg: Cow<'static, str>) {
        // Parse errors are ignored
    }

    fn get_document(&self) -> usize {
        self.tree.borrow().get_document()
    }

    fn elem_name<'a>(&'a self, target: &'a usize) -> OwnedName {
        match self.names.borrow().get(target) {
            Some(name) => name.clone(),
            None => panic!("not an element"),
        }
    }

    fn create_element(&self, name: QualName, attrs: Vec<Attribute>, _flags: ElementFlags) -> usize {
        let id = self
            .tree
            .borrow_mut()
            .create_element(name.local.to_string(), Self::attribute_map(attrs));
        self.names.borrow_mut().insert(id, OwnedName { ns: name.ns, local: name.local });
        id
    }

    fn create_comment(&self, text: StrTendril) -> usize {
        self.tree.borrow_mut().create_comment(text.to_string())
    }

    fn create_pi(&self, _target: StrTendril, _data: StrTendril) -> usize {
        self.get_document()
    }

    fn append(&self, parent: &usize, child: NodeOrText<usize>) {
        self.append_to(*parent, child);
    }

    fn append_based_on_parent_node(
        &self,
        element: &usize,
        _prev_element: &usize,
        child: NodeOrText<usize>,
    ) {
        self.append_to(*element, child);
    }

    fn append_doctype_to_document(
        &self,
        _name: StrTendril,
        _public_id: StrTendril,
        _system_id: StrTendril,
    ) {
        // The doctype is ignored
    }

    fn get_template_contents(&self, target: &usize) -> usize {
        *target
    }

    fn same_node(&self, x: &usize, y: &usize) -> bool {
        x == y
    }

    fn set_quirks_mode(&self, _mode: QuirksMode) {
        // The quirks mode is ignored
    }

    fn append_before_sibling(&self, sibling: &usize, new_node: NodeOrText<usize>) {
        self.check(*sibling);
        let parent = self.tree.borrow().parent_of(*sibling);
        if let Some(parent) = parent {
            self.append_to(parent, new_node);
        }
    }

    fn add_attrs_if_missing(&self, target: &usize, attrs: Vec<Attribute>) {
        self.check(*target);
        let pairs = attrs
            .into_iter()
            .map(|attr| (attr.name.local.to_string(), attr.value.to_string()))
            .collect();
        self.tree.borrow_mut().add_attrs_if_missing(*target, pairs);
    }

    fn remove_from_parent(&self, target: &usize) {
        self.check(*target);
        self.tree.borrow_mut().remove_from_parent(*target);
    }

    fn reparent_children(&self, node: &usize, new_parent: &usize) {
        self.check(*node);
        self.check(*new_parent);
        self.tree.borrow_mut().reparent_children(*node, *new_parent);
    }
}


fn tags(node: &Node) -> String {
    match node.element_data() {
        Some(data) => {
            let inner: Vec<String> = node.children.iter().map(tags).collect();
            format!("{}[{}]", data.tag_name, inner.join(" "))
        }
        None => match node.text_content() {
            Some(text) => format!("{:?}", text),
            None => "<!-->".to_string(),
        },
    }
}

#[test]
fn test_parse_simple_html() {
    let html = "<html><body><h1>Hello</h1></body></html>";
    let dom = HtmlParser::parse(html);

    assert!(dom.element_data().is_some());
    assert_eq!(dom.element_data().unwrap().tag_name, "html");
}

#[test]
fn test_parse_text_content() {
    let html = "<p>Hello, World!</p>";
    let dom = HtmlParser::parse(html);

    // Should auto-wrap in html/body
    assert!(dom.children.len() > 0);
}

#[test]
fn test_parse_with_attributes() {
    let html = r#"<div id="main" class="container">Content</div>"#;
    let dom = HtmlParser::parse(html);

    assert!(dom.element_data().is_some());
}

#[test]
fn test_parsed_tree_in_full() {
    let dom = HtmlParser::parse(
        "<!DOCTYPE html><html><head><title>T</title></head><body><div id=\"main\" class=\"a b\"><h1>Hello</h1><!-- note --><p>One<br>two</p></div></body></html>",
    );
    assert_eq!(
        tags(&dom),
        "html[head[title[\"T\"]] body[div[h1[\"Hello\"] <!--> p[\"One\" br[] \"two\"]]]]"
    );
    let div = &dom.children[1].children[0];
    let data = div.element_data().unwrap();
    assert_eq!(data.id(), Some("main"));
    assert_eq!(data.classes(), vec!["a", "b"]);
    // What the parser puts right: elements that were not closed, and a table whose text is moved out.
    assert_eq!(tags(&HtmlParser::parse("<p>a<p>b")), "html[head[] body[p[\"a\"] p[\"b\"]]]");
    assert_eq!(
        tags(&HtmlParser::parse("<table>x<tr><td>y</table>")),
        "html[head[] body[\"x\" table[tbody[tr[td[\"y\"]]]]]]"
    );
    assert_eq!(tags(&HtmlParser::parse("")), "html[head[] body[]]");
    assert_eq!(
        tags(&HtmlParser::parse("<b><i>x</b>y</i>")),
        "html[head[] body[b[i[\"x\"]] i[\"y\"]]]"
    );
}
