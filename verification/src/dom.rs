//! The document tree: elements with attributes, text and comments.

use vstd::prelude::*;
use crate::string_map::StringMap;
use crate::text::{split_whitespace, words};

verus! {

/// The attributes of an element, by name.
pub type AttrMap = StringMap<String>;

/// Represents a node in the DOM tree
#[derive(Debug, Clone)]
pub enum NodeType {
    Element(ElementData),
    Text(String),
    Comment(String),
}

/// Element data containing tag name and attributes
#[derive(Debug, Clone)]
pub struct ElementData {
    pub tag_name: String,
    pub attributes: AttrMap,
}

/// A node in the DOM tree
#[derive(Debug)]
pub struct Node {
    pub node_type: NodeType,
    pub children: Vec<Node>,
}

/// What a node is, as a mathematical value.
pub enum KindModel {
    Element { tag_name: Seq<char>, attributes: Map<Seq<char>, String> },
    Text(Seq<char>),
    Comment(Seq<char>),
}

/// A tree of nodes as a mathematical value.
pub struct NodeModel {
    pub kind: KindModel,
    pub children: Seq<NodeModel>,
}

/// What a node is.
pub open spec fn kind_model(node_type: NodeType) -> KindModel {
    match node_type {
        NodeType::Element(e) => KindModel::Element {
            tag_name: e.tag_name@,
            attributes: e.attributes@,
        },
        NodeType::Text(t) => KindModel::Text(t@),
        NodeType::Comment(c) => KindModel::Comment(c@),
    }
}

/// The tree of a node as a mathematical value.
pub open spec fn node_model(node: Node) -> NodeModel
    decreases node, 0nat,
{
    NodeModel {
        kind: kind_model(node.node_type),
        children: node_models(node.children@, node.children@.len() as int),
    }
}

/// The trees of the first `k` nodes as mathematical values.
pub open spec fn node_models(nodes: Seq<Node>, k: int) -> Seq<NodeModel>
    decreases nodes, k,
{
    if k <= 0 || k > nodes.len() {
        Seq::empty()
    } else {
        node_models(nodes, k - 1).push(node_model(nodes[k - 1]))
    }
}

impl View for Node {
    type V = NodeModel;

    open spec fn view(&self) -> NodeModel {
        node_model(*self)
    }
}

/// The models of the first `k` nodes are `k` models, one for each node.
pub proof fn lemma_node_models(nodes: Seq<Node>, k: int)
    requires
        0 <= k <= nodes.len(),
    ensures
        node_models(nodes, k).len() == k,
        forall|j: int| 0 <= j < k ==> #[trigger] node_models(nodes, k)[j] == node_model(nodes[j]),
    decreases k,
{
    if k > 0 {
        lemma_node_models(nodes, k - 1);
    }
}

impl Node {
    /// Create a new text node
    pub fn text(data: String) -> (node: Node)
        ensures
            node.node_type == NodeType::Text(data),
            node.children@.len() == 0,
    {
        Node { node_type: NodeType::Text(data), children: Vec::new() }
    }

    /// Create a new element node
    pub fn element(tag_name: String, attributes: AttrMap, children: Vec<Node>) -> (node: Node)
        ensures
            node.node_type == NodeType::Element(ElementData { tag_name, attributes }),
            node.children == children,
    {
        Node { node_type: NodeType::Element(ElementData { tag_name, attributes }), children }
    }

    /// Create a new comment node
    pub fn comment(data: String) -> (node: Node)
        ensures
            node.node_type == NodeType::Comment(data),
            node.children@.len() == 0,
    {
        Node { node_type: NodeType::Comment(data), children: Vec::new() }
    }

    /// Get the element data if this is an element node
    pub fn element_data(&self) -> (data: Option<&ElementData>)
        ensures
            match self.node_type {
                NodeType::Element(e) => data == Some(&e),
                _ => data.is_none(),
            },
    {
        match &self.node_type {
            NodeType::Element(data) => Some(data),
            _ => None,
        }
    }

    /// Get the text content if this is a text node
    pub fn text_content(&self) -> (content: Option<&str>)
        ensures
            match self.node_type {
                NodeType::Text(t) => content.is_some() && content.unwrap()@ == t@,
                _ => content.is_none(),
            },
    {
        match &self.node_type {
            NodeType::Text(text) => Some(text.as_str()),
            _ => None,
        }
    }
}

impl ElementData {
    /// The value of the attribute `name`, where the element has it.
    pub open spec fn attribute(self, name: Seq<char>) -> Option<Seq<char>> {
        if self.attributes@.contains_key(name) {
            Some(self.attributes@[name]@)
        } else {
            None
        }
    }

    /// Get an attribute value by name
    pub fn get_attribute(&self, name: &str) -> (value: Option<&str>)
        ensures
            match value {
                Some(v) => self.attribute(name@) == Some(v@),
                None => self.attribute(name@).is_none(),
            },
    {
        match self.attributes.get(name) {
            Some(s) => Some(s.as_str()),
            None => None,
        }
    }

    /// Get the id attribute
    pub fn id(&self) -> (value: Option<&str>)
        ensures
            match value {
                Some(v) => self.attribute("id"@) == Some(v@),
                None => self.attribute("id"@).is_none(),
            },
    {
        self.get_attribute("id")
    }

    /// The words of the class attribute; none where the element has no such
    /// attribute.
    pub open spec fn class_names(self) -> Seq<Seq<char>> {
        match self.attribute("class"@) {
            Some(v) => words(v),
            None => Seq::empty(),
        }
    }

    /// Get all classes from the class attribute
    pub fn classes(&self) -> (names: Vec<&str>)
        ensures
            names@.len() == self.class_names().len(),
            forall|i: int| 0 <= i < names@.len() ==> (#[trigger] names@[i])@ == self.class_names()[i],
    {
        match self.get_attribute("class") {
            Some(s) => split_whitespace(s),
            None => Vec::new(),
        }
    }
}

} // verus!
