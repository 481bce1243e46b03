//! The document as the page's scripts reach it.

use vstd::prelude::*;
use crate::dom::{Node, NodeType};
use crate::text::str_eq;

verus! {

/// DOM bindings for JavaScript access to the DOM tree
pub struct DomBindings {
    /// The DOM tree
    pub dom_tree: Option<Node>,
}

impl DomBindings {
    /// Create new DOM bindings, bound to no tree.
    pub fn new() -> (bindings: Self)
        ensures
            bindings.dom_tree.is_none(),
    {
        DomBindings { dom_tree: None }
    }

    /// Bind a DOM tree
    pub fn bind_dom_tree(&mut self, dom: Node)
        ensures
            final(self).dom_tree == Some(dom),
    {
        self.dom_tree = Some(dom);
    }

    /// Get element by ID. Elements cannot be handed out yet: the tree is
    /// searched, and nothing is given.
    pub fn get_element_by_id(&self, id: &str) -> (found: Option<&Node>)
        ensures
            found.is_none(),
    {
        match &self.dom_tree {
            Some(root) => self.find_by_id(root, id),
            None => None,
        }
    }

    /// Find node by ID: the search goes through the tree and ends at the
    /// first element with the id, but gives nothing.
    fn find_by_id<'a>(&self, node: &'a Node, id: &str) -> (found: Option<&'a Node>)
        ensures
            found.is_none(),
        decreases *node,
    {
        match &node.node_type {
            NodeType::Element(data) => {
                match data.get_attribute("id") {
                    Some(value) => {
                        if str_eq(value, id) {
                            return None;
                        }
                    },
                    None => {},
                }
            },
            _ => {},
        }
        let mut i: usize = 0;
        while i < node.children.len()
            invariant
                i <= node.children@.len(),
            decreases node.children@.len() - i,
        {
            match self.find_by_id(&node.children[i], id) {
                Some(found) => {
                    return Some(found);
                },
                None => {},
            }
            i = i + 1;
        }
        None
    }

    /// Query selector. Selectors are not read yet: nothing is given.
    pub fn query_selector(&self, _selector: &str) -> (found: Option<&Node>)
        ensures
            found.is_none(),
    {
        None
    }

    /// Create element. The tree is left as it is.
    pub fn create_element(&mut self, _tag_name: &str) -> (done: Result<(), String>)
        ensures
            done.is_ok(),
            *final(self) == *old(self),
    {
        Ok(())
    }

    /// The markup inside an element. It is not written out yet: nothing
    /// is given.
    pub fn get_inner_html(&self, _element_id: &str) -> (html: Option<String>)
        ensures
            html.is_none(),
    {
        None
    }

    /// Sets the markup inside an element. The tree is left as it is.
    pub fn set_inner_html(&mut self, _element_id: &str, _html: &str) -> (done: Result<(), String>)
        ensures
            done.is_ok(),
            *final(self) == *old(self),
    {
        Ok(())
    }
}

impl Default for DomBindings {
    fn default() -> (bindings: Self)
        ensures
            bindings.dom_tree.is_none(),
    {
        DomBindings::new()
    }
}

} // verus!
