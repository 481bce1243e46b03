//! Building a document tree from what an HTML parser reports: the nodes
//! are kept in a list, each with its parent and its children, until the
//! tree is taken out.

use vstd::prelude::*;
use crate::dom::{lemma_node_models, node_models, AttrMap, KindModel, Node, NodeModel};
use crate::string_map::StringMap;

verus! {

/// What a node of the list is.
#[derive(Debug)]
pub enum DomNodeType {
    Document,
    Element { local_name: String, attrs: AttrMap },
    Text(String),
    Comment(String),
}

/// A node of the list.
#[derive(Debug)]
pub struct DomNode {
    pub node_type: DomNodeType,
    /// The index of the parent
    pub parent: Option<usize>,
    /// The indices of the children, in order
    pub children: Vec<usize>,
}

/// Custom tree sink that builds our DOM structure
#[derive(Debug)]
pub struct DomTreeSink {
    nodes: Vec<DomNode>,
    root: usize,
}

impl View for DomTreeSink {
    type V = Seq<DomNode>;

    closed spec fn view(&self) -> Seq<DomNode> {
        self.nodes@
    }
}

/// Those of the first `k` indices that are not `id`, in order.
pub open spec fn without_index(ids: Seq<usize>, id: usize, k: int) -> Seq<usize>
    decreases k,
{
    if k <= 0 || k > ids.len() {
        Seq::empty()
    } else if ids[k - 1] == id {
        without_index(ids, id, k - 1)
    } else {
        without_index(ids, id, k - 1).push(ids[k - 1])
    }
}

/// Taking an index out leaves indices that were there.
pub proof fn lemma_without_index(ids: Seq<usize>, id: usize, k: int, bound: int)
    requires
        0 <= k <= ids.len(),
        forall|i: int| 0 <= i < ids.len() ==> #[trigger] ids[i] < bound,
    ensures
        without_index(ids, id, k).len() <= k,
        forall|i: int|
            0 <= i < without_index(ids, id, k).len() ==> #[trigger] without_index(ids, id, k)[i]
                < bound,
    decreases k,
{
    if k > 0 {
        lemma_without_index(ids, id, k - 1, bound);
    }
}

/// Whether every parent and every child of a list of nodes is a node of
/// the list, and the list starts with the document.
pub open spec fn links_are_valid(nodes: Seq<DomNode>) -> bool {
    &&& nodes.len() >= 1
    &&& forall|i: int|
        0 <= i < nodes.len() ==> match (#[trigger] nodes[i]).parent {
            Some(p) => p < nodes.len(),
            None => true,
        }
    &&& forall|i: int, j: int|
        0 <= i < nodes.len() && 0 <= j < nodes[i].children@.len() ==> #[trigger] nodes[i].children@[j]
            < nodes.len()
}

/// The element that stands for a document without content.
pub open spec fn empty_document() -> NodeModel {
    NodeModel {
        kind: KindModel::Element { tag_name: "html"@, attributes: Map::empty() },
        children: Seq::empty(),
    }
}

/// The tree below a node of the list, as far as `depth` levels down. The
/// document stands for the tree of its first child, or for an empty `html`
/// element where it has none.
pub open spec fn tree_of(nodes: Seq<DomNode>, id: int, depth: nat) -> NodeModel
    decreases depth, 0nat,
{
    match nodes[id].node_type {
        DomNodeType::Document => if depth > 0 && nodes[id].children@.len() > 0 {
            tree_of(nodes, nodes[id].children@[0] as int, (depth - 1) as nat)
        } else {
            empty_document()
        },
        DomNodeType::Element { local_name, attrs } => NodeModel {
            kind: KindModel::Element { tag_name: local_name@, attributes: attrs@ },
            children: if depth > 0 {
                trees_of(
                    nodes,
                    nodes[id].children@,
                    nodes[id].children@.len() as int,
                    (depth - 1) as nat,
                )
            } else {
                Seq::empty()
            },
        },
        DomNodeType::Text(text) => NodeModel { kind: KindModel::Text(text@), children: Seq::empty() },
        DomNodeType::Comment(text) => NodeModel {
            kind: KindModel::Comment(text@),
            children: Seq::empty(),
        },
    }
}

/// The trees below the first `k` of a list of nodes.
pub open spec fn trees_of(nodes: Seq<DomNode>, ids: Seq<usize>, k: int, depth: nat) -> Seq<
    NodeModel,
>
    decreases depth, 1nat, k,
{
    if k <= 0 || k > ids.len() {
        Seq::empty()
    } else {
        trees_of(nodes, ids, k - 1, depth).push(tree_of(nodes, ids[k - 1] as int, depth))
    }
}

/// A copy of attributes.
fn copy_attrs(attrs: &AttrMap) -> (copy: AttrMap)
    ensures
        copy@ == attrs@,
{
    let mut copy: AttrMap = StringMap::new();
    let count = attrs.len();
    let ghost names = attrs.keys();
    let ghost values = attrs.values();
    let mut i: usize = 0;
    while i < count
        invariant
            i <= count,
            names == attrs.keys(),
            values == attrs.values(),
            count == names.len(),
            count == values.len(),
            names.no_duplicates(),
            attrs@ == crate::string_map::assoc(names, values),
            copy.keys() == names.subrange(0, i as int),
            copy.values() == values.subrange(0, i as int),
        decreases count - i,
    {
        let name = attrs.key_at(i).clone();
        let value = attrs.value_at(i).clone();
        let copied = copy.len();
        proof {
            assert(copied == i);
            if copy@.contains_key(name@) {
                let j = copy.keys().index_of(name@);
                assert(copy.keys().contains(name@));
                assert(0 <= j < i && names[j] == names[i as int]);
            }
        }
        copy.insert(name, value);
        assert(copy.keys() =~= names.subrange(0, i as int + 1));
        assert(copy.values() =~= values.subrange(0, i as int + 1));
        i = i + 1;
    }
    let copied = copy.len();
    proof {
        assert(copied == count);
        assert(names.subrange(0, count as int) =~= names);
        assert(values.subrange(0, count as int) =~= values);
    }
    copy
}

/// The indices of a list without `id`.
fn remove_index(ids: &Vec<usize>, id: usize) -> (kept: Vec<usize>)
    ensures
        kept@ == without_index(ids@, id, ids@.len() as int),
{
    let mut kept: Vec<usize> = Vec::new();
    let mut i: usize = 0;
    while i < ids.len()
        invariant
            i <= ids@.len(),
            kept@ == without_index(ids@, id, i as int),
        decreases ids@.len() - i,
    {
        if ids[i] != id {
            kept.push(ids[i]);
        }
        i = i + 1;
    }
    kept
}

/// Whether a list of indices holds `id`.
fn holds_index(ids: &Vec<usize>, id: usize) -> (held: bool)
    ensures
        held == ids@.contains(id),
{
    let mut i: usize = 0;
    while i < ids.len()
        invariant
            i <= ids@.len(),
            forall|j: int| 0 <= j < i ==> ids@[j] != id,
        decreases ids@.len() - i,
    {
        if ids[i] == id {
            return true;
        }
        i = i + 1;
    }
    false
}

impl DomTreeSink {
    /// The index of the document.
    pub closed spec fn document(&self) -> usize {
        self.root
    }

    /// The links of the list are valid, and the document is its first
    /// node.
    pub open spec fn wf(&self) -> bool {
        links_are_valid(self@) && self.document() == 0
    }

    /// A list that holds the document and nothing else.
    pub fn new() -> (sink: Self)
        ensures
            sink.wf(),
            sink@.len() == 1,
            sink@[0].node_type == DomNodeType::Document,
            sink@[0].parent.is_none(),
            sink@[0].children@ == Seq::<usize>::empty(),
    {
        let mut nodes: Vec<DomNode> = Vec::new();
        nodes.push(DomNode { node_type: DomNodeType::Document, parent: None, children: Vec::new() });
        DomTreeSink { nodes, root: 0 }
    }

    /// The index of the document.
    pub fn get_document(&self) -> (id: usize)
        ensures
            id == self.document(),
    {
        self.root
    }

    /// The number of nodes.
    pub fn node_count(&self) -> (count: usize)
        ensures
            count == self@.len(),
    {
        self.nodes.len()
    }

    /// The node at an index.
    pub fn node(&self, id: usize) -> (node: &DomNode)
        requires
            id < self@.len(),
        ensures
            *node == self@[id as int],
    {
        &self.nodes[id]
    }

    /// Whether the list is as `before` with one node more, which is the
    /// last child of `parent`.
    pub open spec fn added(&self, before: Seq<DomNode>, parent: usize, id: usize) -> bool {
        &&& id == before.len()
        &&& self@.len() == before.len() + 1
        &&& self@[id as int].parent == Some(parent)
        &&& self@[id as int].children@ == Seq::<usize>::empty()
        &&& self@[parent as int].children@ == before[parent as int].children@.push(id)
        &&& self@[parent as int].parent == before[parent as int].parent
        &&& self@[parent as int].node_type == before[parent as int].node_type
        &&& forall|i: int| 0 <= i < before.len() && i != parent ==> self@[i] == before[i]
    }

    /// Adds a node as the last child of `parent`, and gives its index.
    pub fn add_node(&mut self, node_type: DomNodeType, parent: usize) -> (id: usize)
        requires
            old(self).wf(),
            parent < old(self)@.len(),
        ensures
            final(self).wf(),
            final(self).added(old(self)@, parent, id),
            final(self)@[id as int].node_type == node_type,
    {
        let id = self.nodes.len();
        self.nodes.push(DomNode { node_type, parent: Some(parent), children: Vec::new() });
        self.nodes[parent].children.push(id);
        id
    }

    /// Adds an element, for the time being as the last child of the
    /// document.
    pub fn create_element(&mut self, local_name: String, attrs: AttrMap) -> (id: usize)
        requires
            old(self).wf(),
        ensures
            final(self).wf(),
            final(self).added(old(self)@, 0, id),
            final(self)@[id as int].node_type == (DomNodeType::Element { local_name, attrs }),
    {
        let parent = self.root;
        self.add_node(DomNodeType::Element { local_name, attrs }, parent)
    }

    /// Adds a comment, for the time being as the last child of the
    /// document.
    pub fn create_comment(&mut self, text: String) -> (id: usize)
        requires
            old(self).wf(),
        ensures
            final(self).wf(),
            final(self).added(old(self)@, 0, id),
            final(self)@[id as int].node_type == DomNodeType::Comment(text),
    {
        let parent = self.root;
        self.add_node(DomNodeType::Comment(text), parent)
    }

    /// Takes a node out of the children of its parent. A node without a
    /// parent stays as it is.
    pub fn remove_from_parent(&mut self, target: usize)
        requires
            old(self).wf(),
            target < old(self)@.len(),
        ensures
            final(self).wf(),
            final(self)@.len() == old(self)@.len(),
            match old(self)@[target as int].parent {
                Some(p) => {
                    &&& final(self)@[p as int].children@ == without_index(
                        old(self)@[p as int].children@,
                        target,
                        old(self)@[p as int].children@.len() as int,
                    )
                    &&& final(self)@[target as int].parent.is_none()
                    &&& forall|i: int|
                        0 <= i < old(self)@.len() ==> (#[trigger] final(self)@[i]).node_type == old(self)@[i].node_type
                    &&& forall|i: int|
                        0 <= i < old(self)@.len() && i != p ==> (#[trigger] final(self)@[i]).children
                            == old(self)@[i].children
                    &&& forall|i: int|
                        0 <= i < old(self)@.len() && i != target ==> (#[trigger] final(self)@[i]).parent == old(self)@[i].parent
                },
                None => final(self)@ == old(self)@,
            },
    {
        if let Some(parent) = self.nodes[target].parent {
            let kept = remove_index(&self.nodes[parent].children, target);
            proof {
                lemma_without_index(
                    self.nodes@[parent as int].children@,
                    target,
                    self.nodes@[parent as int].children@.len() as int,
                    self.nodes@.len() as int,
                );
            }
            self.nodes[parent].children = kept;
            self.nodes[target].parent = None;
        }
    }

    /// Makes a node the child of `parent`: the node leaves the children of
    /// its old parent, and becomes the last child of `parent` unless it is
    /// a child of `parent` still.
    pub fn append_node(&mut self, parent: usize, node_id: usize)
        requires
            old(self).wf(),
            parent < old(self)@.len(),
            node_id < old(self)@.len(),
        ensures
            final(self).wf(),
            final(self)@.len() == old(self)@.len(),
            final(self)@[node_id as int].parent == Some(parent),
            final(self)@[parent as int].children@.contains(node_id),
            forall|i: int|
                0 <= i < old(self)@.len() ==> (#[trigger] final(self)@[i]).node_type == old(self)@[i].node_type,
            forall|i: int|
                0 <= i < old(self)@.len() && i != node_id ==> (#[trigger] final(self)@[i]).parent
                    == old(self)@[i].parent,
            forall|i: int|
                0 <= i < old(self)@.len() && i != parent && Some(i as usize) != old(self)@[node_id as int].parent ==> (#[trigger] final(self)@[i]).children == old(self)@[i].children,
            ({
                let held = match old(self)@[node_id as int].parent {
                    Some(p) => if p == parent {
                        without_index(
                            old(self)@[parent as int].children@,
                            node_id,
                            old(self)@[parent as int].children@.len() as int,
                        )
                    } else {
                        old(self)@[parent as int].children@
                    },
                    None => old(self)@[parent as int].children@,
                };
                final(self)@[parent as int].children@ == if held.contains(node_id) {
                    held
                } else {
                    held.push(node_id)
                }
            }),
            match old(self)@[node_id as int].parent {
                Some(p) => p != parent ==> final(self)@[p as int].children@ == without_index(
                    old(self)@[p as int].children@,
                    node_id,
                    old(self)@[p as int].children@.len() as int,
                ),
                None => true,
            },
    {
        if let Some(old_parent) = self.nodes[node_id].parent {
            let kept = remove_index(&self.nodes[old_parent].children, node_id);
            proof {
                lemma_without_index(
                    self.nodes@[old_parent as int].children@,
                    node_id,
                    self.nodes@[old_parent as int].children@.len() as int,
                    self.nodes@.len() as int,
                );
            }
            self.nodes[old_parent].children = kept;
        }
        self.nodes[node_id].parent = Some(parent);
        if !holds_index(&self.nodes[parent].children, node_id) {
            self.nodes[parent].children.push(node_id);
            assert(self.nodes@[parent as int].children@.last() == node_id);
        }
    }

    /// Adds a text as the last child of `parent`, and gives its index.
    pub fn append_text(&mut self, parent: usize, text: String) -> (id: usize)
        requires
            old(self).wf(),
            parent < old(self)@.len(),
        ensures
            final(self).wf(),
            final(self).added(old(self)@, parent, id),
            final(self)@[id as int].node_type == DomNodeType::Text(text),
    {
        self.add_node(DomNodeType::Text(text), parent)
    }

    /// The parent of a node.
    pub fn parent_of(&self, id: usize) -> (parent: Option<usize>)
        requires
            id < self@.len(),
        ensures
            parent == self@[id as int].parent,
    {
        self.nodes[id].parent
    }

    /// Gives an element the attributes that it does not have yet. Of two
    /// new attributes with one name the first counts. A node that is no
    /// element stays as it is.
    pub fn add_attrs_if_missing(&mut self, target: usize, attrs: Vec<(String, String)>)
        requires
            old(self).wf(),
            target < old(self)@.len(),
        ensures
            final(self).wf(),
            final(self)@.len() == old(self)@.len(),
            forall|i: int|
                0 <= i < old(self)@.len() && i != target ==> final(self)@[i] == old(self)@[i],
            final(self)@[target as int].parent == old(self)@[target as int].parent,
            final(self)@[target as int].children == old(self)@[target as int].children,
            match old(self)@[target as int].node_type {
                DomNodeType::Element { local_name, attrs: held } => match final(self)@[target as int].node_type {
                    DomNodeType::Element { local_name: name, attrs: merged } => name == local_name
                        && merged@ == merged_attrs(held@, attrs@, attrs@.len() as int),
                    _ => false,
                },
                _ => final(self)@[target as int].node_type == old(self)@[target as int].node_type,
            },
    {
        let node = self.nodes.remove(target);
        let DomNode { node_type, parent, children } = node;
        let merged_type = match node_type {
            DomNodeType::Element { local_name, attrs: held } => {
                let mut merged = held;
                let mut i: usize = 0;
                while i < attrs.len()
                    invariant
                        i <= attrs@.len(),
                        merged@ == merged_attrs(held@, attrs@, i as int),
                    decreases attrs@.len() - i,
                {
                    if !merged.contains_key(attrs[i].0.as_str()) {
                        merged.insert(attrs[i].0.clone(), attrs[i].1.clone());
                    }
                    i = i + 1;
                }
                DomNodeType::Element { local_name, attrs: merged }
            },
            other => other,
        };
        self.nodes.insert(target, DomNode { node_type: merged_type, parent, children });
        assert(self.nodes@.len() == old(self).nodes@.len());
        assert forall|i: int| 0 <= i < old(self)@.len() && i != target implies self@[i] == old(self)@[i] by {}
    }

    /// Makes the children of a node the last children of another node, in
    /// order: each of them, in turn, leaves its parent and is appended to
    /// the new one. Afterwards each has the new parent; every other node
    /// has the parent that it had, and every node is what it was.
    pub fn reparent_children(&mut self, node: usize, new_parent: usize)
        requires
            old(self).wf(),
            node < old(self)@.len(),
            new_parent < old(self)@.len(),
        ensures
            final(self).wf(),
            final(self)@.len() == old(self)@.len(),
            forall|i: int|
                0 <= i < old(self)@.len() ==> (#[trigger] final(self)@[i]).node_type == old(self)@[i].node_type,
            forall|i: int|
                0 <= i < old(self)@.len() ==> (#[trigger] final(self)@[i]).parent == if old(self)@[node as int].children@.contains(i as usize) {
                    Some(new_parent)
                } else {
                    old(self)@[i].parent
                },
    {
        let mut children: Vec<usize> = Vec::new();
        let count = self.nodes[node].children.len();
        let mut i: usize = 0;
        while i < count
            invariant
                self.wf(),
                self.nodes == old(self).nodes,
                node < self@.len(),
                count == self@[node as int].children@.len(),
                i <= count,
                children@.len() == i,
                children@ == self@[node as int].children@.subrange(0, i as int),
                forall|j: int| 0 <= j < i ==> #[trigger] children@[j] < self@.len(),
            decreases count - i,
        {
            children.push(self.nodes[node].children[i]);
            assert(children@ =~= self@[node as int].children@.subrange(0, i as int + 1));
            i = i + 1;
        }
        assert(children@ =~= old(self)@[node as int].children@);
        let total = self.nodes.len();
        let mut k: usize = 0;
        while k < children.len()
            invariant
                self.wf(),
                self@.len() == old(self)@.len(),
                self@.len() == total,
                new_parent < self@.len(),
                k <= children@.len(),
                forall|j: int| 0 <= j < children@.len() ==> #[trigger] children@[j] < self@.len(),
                forall|i: int|
                    0 <= i < old(self)@.len() ==> (#[trigger] self@[i]).node_type == old(self)@[i].node_type,
                forall|i: int|
                    0 <= i < old(self)@.len() ==> (#[trigger] self@[i]).parent == if children@.subrange(
                        0,
                        k as int,
                    ).contains(i as usize) {
                        Some(new_parent)
                    } else {
                        old(self)@[i].parent
                    },
            decreases children@.len() - k,
        {
            let child = children[k];
            let ghost before = children@.subrange(0, k as int);
            let ghost after = children@.subrange(0, k as int + 1);
            self.remove_from_parent(child);
            self.append_node(new_parent, child);
            proof {
                assert(after =~= before.push(child));
                assert forall|i: int| 0 <= i < old(self)@.len() implies (#[trigger] self@[i]).parent
                    == if after.contains(i as usize) {
                    Some(new_parent)
                } else {
                    old(self)@[i].parent
                } by {
                    if i == child {
                        assert(after[k as int] == child);
                    } else if before.contains(i as usize) {
                        let j = choose|j: int| 0 <= j < before.len() && before[j] == i as usize;
                        assert(after[j] == i as usize);
                    } else if after.contains(i as usize) {
                        let j = choose|j: int| 0 <= j < after.len() && after[j] == i as usize;
                        assert(after[k as int] == child);
                        assert(j != k);
                        assert(before[j] == i as usize);
                    }
                }
            }
            k = k + 1;
        }
        assert(children@.subrange(0, children@.len() as int) =~= children@);
    }

    /// The tree below a node, as far as `depth` levels down.
    pub fn to_dom_tree(&self, node_id: usize, depth: usize) -> (tree: Node)
        requires
            self.wf(),
            node_id < self@.len(),
        ensures
            tree@ == tree_of(self@, node_id as int, depth as nat),
        decreases depth,
    {
        let node = &self.nodes[node_id];
        match &node.node_type {
            DomNodeType::Document => {
                if depth > 0 && node.children.len() > 0 {
                    self.to_dom_tree(node.children[0], depth - 1)
                } else {
                    let tree = Node::element(String::from_str("html"), StringMap::new(), Vec::new());
                    proof {
                        lemma_node_models(tree.children@, 0);
                        assert(tree@.children =~= Seq::<NodeModel>::empty());
                    }
                    tree
                }
            },
            DomNodeType::Element { local_name, attrs } => {
                let mut children: Vec<Node> = Vec::new();
                if depth > 0 {
                    let mut i: usize = 0;
                    while i < node.children.len()
                        invariant
                            self.wf(),
                            node_id < self@.len(),
                            *node == self@[node_id as int],
                            depth > 0,
                            i <= node.children@.len(),
                            children@.len() == i,
                            node_models(children@, i as int) == trees_of(
                                self@,
                                node.children@,
                                i as int,
                                (depth - 1) as nat,
                            ),
                        decreases node.children@.len() - i,
                    {
                        let ghost before = children@;
                        let child = self.to_dom_tree(node.children[i], depth - 1);
                        children.push(child);
                        proof {
                            lemma_node_models(before, i as int);
                            lemma_node_models(children@, i as int);
                            assert(node_models(children@, i as int) =~= node_models(
                                before,
                                i as int,
                            ));
                        }
                        i = i + 1;
                    }
                } else {
                    proof {
                        lemma_node_models(children@, 0);
                    }
                }
                let tree = Node::element(local_name.clone(), copy_attrs(attrs), children);
                tree
            },
            DomNodeType::Text(text) => {
                let tree = Node::text(text.clone());
                proof {
                    lemma_node_models(tree.children@, 0);
                    assert(tree@.children =~= Seq::<NodeModel>::empty());
                }
                tree
            },
            DomNodeType::Comment(text) => {
                let tree = Node::comment(text.clone());
                proof {
                    lemma_node_models(tree.children@, 0);
                    assert(tree@.children =~= Seq::<NodeModel>::empty());
                }
                tree
            },
        }
    }

    /// The document as a tree: the tree of the first child of the
    /// document, as many levels down as there are nodes.
    pub fn finish(self) -> (tree: Node)
        requires
            self.wf(),
        ensures
            tree@ == tree_of(self@, 0, self@.len()),
    {
        self.to_dom_tree(self.root, self.nodes.len())
    }
}

/// The attributes that an element has after the first `k` of a list of new
/// attributes were offered: each new one is taken where the element has
/// none of that name yet.
pub open spec fn merged_attrs(
    held: Map<Seq<char>, String>,
    attrs: Seq<(String, String)>,
    k: int,
) -> Map<Seq<char>, String>
    decreases k,
{
    if k <= 0 || k > attrs.len() {
        held
    } else {
        let before = merged_attrs(held, attrs, k - 1);
        if before.contains_key(attrs[k - 1].0@) {
            before
        } else {
            before.insert(attrs[k - 1].0@, attrs[k - 1].1)
        }
    }
}

} // verus!
