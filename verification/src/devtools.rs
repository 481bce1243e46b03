//! Developer tools: console, DOM inspector and network tab.

use vstd::prelude::*;
use crate::dom::Node;
use crate::clock::{duration_between, now, whole_millis};
use std::time::SystemTime;
use url::Url;

verus! {

/// The most messages that the console keeps.
pub const CONSOLE_MESSAGE_LIMIT: usize = 1000;

/// The most requests that the network tab keeps.
pub const NETWORK_REQUEST_LIMIT: usize = 500;

/// Active developer tools tab
#[derive(Debug, Clone, Copy, PartialEq, Eq, Structural)]
pub enum DevToolsTab {
    Console,
    DomInspector,
    Network,
}

/// Developer tools state
pub struct DevTools {
    /// Console log messages
    pub console: Console,
    /// DOM inspector state
    pub dom_inspector: DomInspector,
    /// Network activity log
    pub network: NetworkTab,
    /// Is devtools panel open
    pub is_open: bool,
    /// Current active tab
    pub active_tab: DevToolsTab,
}

impl DevTools {
    /// Create new developer tools: closed, on the console tab, with an empty
    /// console, a fresh inspector and an empty network tab.
    pub fn new() -> (tools: Self)
        ensures
            !tools.is_open,
            tools.active_tab == DevToolsTab::Console,
            tools.console@ == Seq::<ConsoleMessage>::empty(),
            tools.dom_inspector@ == DomInspectorView::fresh(),
            tools.network@ == Seq::<NetworkRequest>::empty(),
    {
        DevTools {
            console: Console::new(),
            dom_inspector: DomInspector::new(),
            network: NetworkTab::new(),
            is_open: false,
            active_tab: DevToolsTab::Console,
        }
    }

    /// Toggle devtools panel
    pub fn toggle(&mut self)
        ensures
            final(self).is_open == !old(self).is_open,
            final(self).active_tab == old(self).active_tab,
            final(self).console@ == old(self).console@,
            final(self).dom_inspector@ == old(self).dom_inspector@,
            final(self).network@ == old(self).network@,
    {
        self.is_open = !self.is_open;
    }

    /// Set active tab
    pub fn set_active_tab(&mut self, tab: DevToolsTab)
        ensures
            final(self).active_tab == tab,
            final(self).is_open == old(self).is_open,
            final(self).console@ == old(self).console@,
            final(self).dom_inspector@ == old(self).dom_inspector@,
            final(self).network@ == old(self).network@,
    {
        self.active_tab = tab;
    }

    /// Clear all devtools data: the console and the network tab.
    pub fn clear_all(&mut self)
        ensures
            final(self).console@ == Seq::<ConsoleMessage>::empty(),
            final(self).network@ == Seq::<NetworkRequest>::empty(),
            final(self).dom_inspector@ == old(self).dom_inspector@,
            final(self).is_open == old(self).is_open,
            final(self).active_tab == old(self).active_tab,
    {
        self.console.clear();
        self.network.clear();
    }
}

impl Default for DevTools {
    fn default() -> (tools: Self)
        ensures
            !tools.is_open,
            tools.active_tab == DevToolsTab::Console,
            tools.console@ == Seq::<ConsoleMessage>::empty(),
            tools.dom_inspector@ == DomInspectorView::fresh(),
            tools.network@ == Seq::<NetworkRequest>::empty(),
    {
        DevTools::new()
    }
}

/// Console message types
#[derive(Debug, Clone, Copy, PartialEq, Eq, Structural)]
pub enum ConsoleMessageType {
    Log,
    Info,
    Warn,
    Error,
    Debug,
}

/// A console message
#[derive(Debug)]
pub struct ConsoleMessage {
    /// Message type
    pub msg_type: ConsoleMessageType,
    /// Message content
    pub content: String,
    /// Timestamp
    pub timestamp: SystemTime,
    /// Source file/location (if available)
    pub source: Option<String>,
}

/// Console for logging JavaScript output and errors
pub struct Console {
    /// Console messages
    messages: Vec<ConsoleMessage>,
    /// Maximum messages to keep
    max_messages: usize,
}

impl View for Console {
    type V = Seq<ConsoleMessage>;

    closed spec fn view(&self) -> Seq<ConsoleMessage> {
        self.messages@
    }
}

/// The messages of one type among the first `k`, in order.
pub open spec fn messages_of_type(
    messages: Seq<ConsoleMessage>,
    msg_type: ConsoleMessageType,
    k: int,
) -> Seq<ConsoleMessage>
    decreases k,
{
    if k <= 0 || k > messages.len() {
        Seq::empty()
    } else if messages[k - 1].msg_type == msg_type {
        messages_of_type(messages, msg_type, k - 1).push(messages[k - 1])
    } else {
        messages_of_type(messages, msg_type, k - 1)
    }
}

/// There are no more messages of one type among the first `k` than `k`.
pub proof fn lemma_messages_of_type_len(
    messages: Seq<ConsoleMessage>,
    msg_type: ConsoleMessageType,
    k: int,
)
    requires
        0 <= k <= messages.len(),
    ensures
        messages_of_type(messages, msg_type, k).len() <= k,
    decreases k,
{
    if k > 0 {
        lemma_messages_of_type_len(messages, msg_type, k - 1);
    }
}

/// What a list of at most `limit + 1` entries keeps: all of them, or all
/// but the oldest where there is one too many.
pub open spec fn trimmed<T>(entries: Seq<T>, limit: int) -> Seq<T> {
    if entries.len() > limit {
        entries.subrange(1, entries.len() as int)
    } else {
        entries
    }
}

impl Console {
    /// The console keeps at most `CONSOLE_MESSAGE_LIMIT` messages.
    pub closed spec fn wf(&self) -> bool {
        self.max_messages == CONSOLE_MESSAGE_LIMIT && self.messages@.len() <= CONSOLE_MESSAGE_LIMIT
    }

    /// Create a new console, without messages.
    pub fn new() -> (console: Self)
        ensures
            console.wf(),
            console@ == Seq::<ConsoleMessage>::empty(),
    {
        Console { messages: Vec::new(), max_messages: CONSOLE_MESSAGE_LIMIT }
    }

    /// Log a message
    pub fn log(&mut self, content: String)
        requires
            old(self).wf(),
        ensures
            final(self).wf(),
            final(self).added(old(self)@, ConsoleMessageType::Log, content, None),
    {
        self.add_message(ConsoleMessageType::Log, content, None);
    }

    /// Log an info message
    pub fn info(&mut self, content: String)
        requires
            old(self).wf(),
        ensures
            final(self).wf(),
            final(self).added(old(self)@, ConsoleMessageType::Info, content, None),
    {
        self.add_message(ConsoleMessageType::Info, content, None);
    }

    /// Log a warning
    pub fn warn(&mut self, content: String)
        requires
            old(self).wf(),
        ensures
            final(self).wf(),
            final(self).added(old(self)@, ConsoleMessageType::Warn, content, None),
    {
        self.add_message(ConsoleMessageType::Warn, content, None);
    }

    /// Log an error
    pub fn error(&mut self, content: String)
        requires
            old(self).wf(),
        ensures
            final(self).wf(),
            final(self).added(old(self)@, ConsoleMessageType::Error, content, None),
    {
        self.add_message(ConsoleMessageType::Error, content, None);
    }

    /// Log a debug message
    pub fn debug(&mut self, content: String)
        requires
            old(self).wf(),
        ensures
            final(self).wf(),
            final(self).added(old(self)@, ConsoleMessageType::Debug, content, None),
    {
        self.add_message(ConsoleMessageType::Debug, content, None);
    }

    /// Whether the console holds what `before` held and one message more:
    /// the new message is the last one, with the type, content and source
    /// given and the time of the call; the oldest message is gone where the
    /// console was full.
    pub open spec fn added(
        &self,
        before: Seq<ConsoleMessage>,
        msg_type: ConsoleMessageType,
        content: String,
        source: Option<String>,
    ) -> bool {
        &&& self@.len() > 0
        &&& self@.last().msg_type == msg_type
        &&& self@.last().content == content
        &&& self@.last().source == source
        &&& self@ == trimmed(before.push(self@.last()), CONSOLE_MESSAGE_LIMIT as int)
    }

    /// Add a message with source
    pub fn add_message(
        &mut self,
        msg_type: ConsoleMessageType,
        content: String,
        source: Option<String>,
    )
        requires
            old(self).wf(),
        ensures
            final(self).wf(),
            final(self).added(old(self)@, msg_type, content, source),
    {
        let message = ConsoleMessage { msg_type, content, timestamp: now(), source };
        self.messages.push(message);
        if self.messages.len() > self.max_messages {
            let ghost full = self.messages@;
            self.messages.remove(0);
            assert(self.messages@ =~= full.subrange(1, full.len() as int));
        }
    }

    /// Get all messages
    pub fn messages(&self) -> (all: &[ConsoleMessage])
        ensures
            all@ == self@,
    {
        self.messages.as_slice()
    }

    /// Get messages by type, in the order in which they came.
    pub fn messages_by_type(&self, msg_type: ConsoleMessageType) -> (found: Vec<&ConsoleMessage>)
        ensures
            found@.len() == messages_of_type(self@, msg_type, self@.len() as int).len(),
            forall|i: int|
                0 <= i < found@.len() ==> *(#[trigger] found@[i]) == messages_of_type(
                    self@,
                    msg_type,
                    self@.len() as int,
                )[i],
    {
        let mut found: Vec<&ConsoleMessage> = Vec::new();
        let mut i: usize = 0;
        while i < self.messages.len()
            invariant
                i <= self.messages.len(),
                found@.len() == messages_of_type(self@, msg_type, i as int).len(),
                forall|j: int|
                    0 <= j < found@.len() ==> *(#[trigger] found@[j]) == messages_of_type(
                        self@,
                        msg_type,
                        i as int,
                    )[j],
            decreases self.messages.len() - i,
        {
            if self.messages[i].msg_type == msg_type {
                found.push(&self.messages[i]);
            }
            i = i + 1;
        }
        found
    }

    /// Clear all messages
    pub fn clear(&mut self)
        ensures
            final(self)@ == Seq::<ConsoleMessage>::empty(),
            old(self).wf() ==> final(self).wf(),
    {
        self.messages.clear();
    }

    /// Get message count
    pub fn count(&self) -> (n: usize)
        ensures
            n == self@.len(),
    {
        self.messages.len()
    }

    /// The number of messages of one type.
    fn count_of_type(&self, msg_type: ConsoleMessageType) -> (n: usize)
        ensures
            n == messages_of_type(self@, msg_type, self@.len() as int).len(),
    {
        let mut n: usize = 0;
        let mut i: usize = 0;
        while i < self.messages.len()
            invariant
                i <= self.messages.len(),
                n <= i,
                n == messages_of_type(self@, msg_type, i as int).len(),
            decreases self.messages.len() - i,
        {
            if self.messages[i].msg_type == msg_type {
                n = n + 1;
            }
            i = i + 1;
        }
        n
    }

    /// Get error count
    pub fn error_count(&self) -> (n: usize)
        ensures
            n == messages_of_type(self@, ConsoleMessageType::Error, self@.len() as int).len(),
    {
        self.count_of_type(ConsoleMessageType::Error)
    }

    /// Get warning count
    pub fn warning_count(&self) -> (n: usize)
        ensures
            n == messages_of_type(self@, ConsoleMessageType::Warn, self@.len() as int).len(),
    {
        self.count_of_type(ConsoleMessageType::Warn)
    }
}

impl Default for Console {
    fn default() -> (console: Self)
        ensures
            console.wf(),
            console@ == Seq::<ConsoleMessage>::empty(),
    {
        Console::new()
    }
}

/// A DOM inspector as a mathematical value.
pub struct DomInspectorView {
    /// The path from the root to the selected node
    pub selected: Seq<usize>,
    /// The paths of the expanded nodes
    pub expanded: Seq<Seq<usize>>,
    pub show_text_nodes: bool,
    pub show_comments: bool,
}

impl DomInspectorView {
    /// The state of a new inspector: the root is selected and expanded,
    /// text nodes are shown, comments are not.
    pub open spec fn fresh() -> DomInspectorView {
        DomInspectorView {
            selected: Seq::empty(),
            expanded: seq![Seq::empty()],
            show_text_nodes: true,
            show_comments: false,
        }
    }
}

/// The paths of a list of paths.
pub open spec fn path_views(paths: Seq<Vec<usize>>) -> Seq<Seq<usize>> {
    Seq::new(paths.len(), |i: int| paths[i]@)
}

/// The index of the first of the first `k` paths that is `path`; `k` where
/// none of them is.
pub open spec fn first_match(paths: Seq<Seq<usize>>, path: Seq<usize>, k: int) -> int
    decreases k,
{
    if k <= 0 || k > paths.len() {
        0
    } else {
        let before = first_match(paths, path, k - 1);
        if before < k - 1 {
            before
        } else if paths[k - 1] == path {
            k - 1
        } else {
            k
        }
    }
}

/// The first match among the first `k` paths lies among them or is `k`, and
/// no path before it is the path.
pub proof fn lemma_first_match(paths: Seq<Seq<usize>>, path: Seq<usize>, k: int)
    requires
        0 <= k <= paths.len(),
    ensures
        0 <= first_match(paths, path, k) <= k,
        first_match(paths, path, k) < k ==> paths[first_match(paths, path, k)] == path,
        forall|j: int| 0 <= j < first_match(paths, path, k) ==> paths[j] != path,
    decreases k,
{
    if k > 0 {
        lemma_first_match(paths, path, k - 1);
    }
}

/// The paths of the nodes of a tree that lie less than `max_depth` deep,
/// each node before its children and the children in order. `path` is the
/// path of the root and `depth` its depth.
pub open spec fn paths_to_depth(node: Node, path: Seq<usize>, depth: int, max_depth: int) -> Seq<
    Seq<usize>,
>
    decreases node, 0nat,
{
    if depth >= max_depth {
        Seq::empty()
    } else {
        seq![path] + child_paths_to_depth(
            node.children@,
            path,
            depth,
            max_depth,
            node.children@.len() as int,
        )
    }
}

/// The paths that the first `k` children of a node at `path` give.
pub open spec fn child_paths_to_depth(
    children: Seq<Node>,
    path: Seq<usize>,
    depth: int,
    max_depth: int,
    k: int,
) -> Seq<Seq<usize>>
    decreases children, k,
{
    if k <= 0 || k > children.len() {
        Seq::empty()
    } else {
        child_paths_to_depth(children, path, depth, max_depth, k - 1) + paths_to_depth(
            children[k - 1],
            path.push((k - 1) as usize),
            depth + 1,
            max_depth,
        )
    }
}

/// The node that a path leads to from a root: each index picks a child.
/// None where an index names no child.
pub open spec fn node_at(root: Node, path: Seq<usize>) -> Option<Node>
    decreases path.len(),
{
    if path.len() == 0 {
        Some(root)
    } else if path[0] < root.children@.len() {
        node_at(root.children@[path[0] as int], path.subrange(1, path.len() as int))
    } else {
        None
    }
}

/// Whether two paths hold the same indices.
fn same_path(a: &[usize], b: &[usize]) -> (same: bool)
    ensures
        same == (a@ == b@),
{
    if a.len() != b.len() {
        return false;
    }
    let mut i: usize = 0;
    while i < a.len()
        invariant
            i <= a@.len(),
            a@.len() == b@.len(),
            forall|j: int| 0 <= j < i ==> a@[j] == b@[j],
        decreases a@.len() - i,
    {
        if a[i] != b[i] {
            return false;
        }
        i = i + 1;
    }
    assert(a@ =~= b@);
    true
}

/// A copy of a path.
fn copy_path(path: &Vec<usize>) -> (copy: Vec<usize>)
    ensures
        copy@ == path@,
{
    let mut copy: Vec<usize> = Vec::new();
    let mut i: usize = 0;
    while i < path.len()
        invariant
            i <= path@.len(),
            copy@ == path@.subrange(0, i as int),
        decreases path@.len() - i,
    {
        copy.push(path[i]);
        assert(copy@ =~= path@.subrange(0, i as int + 1));
        i = i + 1;
    }
    assert(path@.subrange(0, path@.len() as int) =~= path@);
    copy
}

/// DOM inspector for viewing and inspecting the DOM tree
pub struct DomInspector {
    /// Currently selected node (path from root)
    selected_node_path: Vec<usize>,
    /// Expanded nodes (paths)
    expanded_nodes: Vec<Vec<usize>>,
    /// Show text nodes
    show_text_nodes: bool,
    /// Show comments
    show_comments: bool,
}

impl View for DomInspector {
    type V = DomInspectorView;

    closed spec fn view(&self) -> DomInspectorView {
        DomInspectorView {
            selected: self.selected_node_path@,
            expanded: path_views(self.expanded_nodes@),
            show_text_nodes: self.show_text_nodes,
            show_comments: self.show_comments,
        }
    }
}

impl DomInspector {
    /// Create a new DOM inspector
    pub fn new() -> (inspector: Self)
        ensures
            inspector@ == DomInspectorView::fresh(),
    {
        let mut expanded_nodes: Vec<Vec<usize>> = Vec::new();
        expanded_nodes.push(Vec::new());
        let inspector = DomInspector {
            selected_node_path: Vec::new(),
            expanded_nodes,
            show_text_nodes: true,
            show_comments: false,
        };
        assert(inspector@.expanded =~= seq![Seq::<usize>::empty()]);
        inspector
    }

    /// Select a node by path
    pub fn select_node(&mut self, path: Vec<usize>)
        ensures
            final(self)@ == (DomInspectorView { selected: path@, ..old(self)@ }),
    {
        self.selected_node_path = path;
    }

    /// Get selected node path
    pub fn selected_path(&self) -> (path: &[usize])
        ensures
            path@ == self@.selected,
    {
        self.selected_node_path.as_slice()
    }

    /// The index of the first expanded path that is `path`.
    fn position(&self, path: &[usize]) -> (index: usize)
        ensures
            index == first_match(self@.expanded, path@, self@.expanded.len() as int),
            index <= self@.expanded.len(),
    {
        let mut i: usize = 0;
        while i < self.expanded_nodes.len()
            invariant
                i <= self.expanded_nodes@.len(),
                first_match(self@.expanded, path@, i as int) == i,
            decreases self.expanded_nodes@.len() - i,
        {
            if same_path(self.expanded_nodes[i].as_slice(), path) {
                proof {
                    lemma_first_match_stays(
                        self@.expanded,
                        path@,
                        i as int + 1,
                        self@.expanded.len() as int,
                    );
                }
                return i;
            }
            i = i + 1;
        }
        i
    }

    /// Toggle node expansion: an expanded path is taken out, where it
    /// stands first; a path that is not expanded is added at the end.
    pub fn toggle_node(&mut self, path: Vec<usize>)
        ensures
            final(self)@.selected == old(self)@.selected,
            final(self)@.show_text_nodes == old(self)@.show_text_nodes,
            final(self)@.show_comments == old(self)@.show_comments,
            final(self)@.expanded == ({
                let index = first_match(old(self)@.expanded, path@, old(self)@.expanded.len() as int);
                if index < old(self)@.expanded.len() {
                    old(self)@.expanded.remove(index)
                } else {
                    old(self)@.expanded.push(path@)
                }
            }),
    {
        let index = self.position(path.as_slice());
        if index < self.expanded_nodes.len() {
            self.expanded_nodes.remove(index);
            assert(self@.expanded =~= old(self)@.expanded.remove(index as int));
        } else {
            self.expanded_nodes.push(path);
            assert(self@.expanded =~= old(self)@.expanded.push(path@));
        }
    }

    /// Check if node is expanded
    pub fn is_expanded(&self, path: &[usize]) -> (expanded: bool)
        ensures
            expanded == self@.expanded.contains(path@),
    {
        let index = self.position(path);
        proof {
            lemma_first_match(self@.expanded, path@, self@.expanded.len() as int);
        }
        index < self.expanded_nodes.len()
    }

    /// Get expanded nodes
    pub fn expanded_nodes(&self) -> (paths: &[Vec<usize>])
        ensures
            path_views(paths@) == self@.expanded,
    {
        self.expanded_nodes.as_slice()
    }

    /// Collapse all nodes but the root.
    pub fn collapse_all(&mut self)
        ensures
            final(self)@ == (DomInspectorView {
                expanded: seq![Seq::<usize>::empty()],
                ..old(self)@
            }),
    {
        self.expanded_nodes.clear();
        self.expanded_nodes.push(Vec::new());
        assert(self@.expanded =~= seq![Seq::<usize>::empty()]);
    }

    /// Expand all nodes that lie less than `max_depth` deep.
    pub fn expand_all(&mut self, dom: &Node, max_depth: usize)
        ensures
            final(self)@ == (DomInspectorView {
                expanded: paths_to_depth(*dom, Seq::empty(), 0, max_depth as int),
                ..old(self)@
            }),
    {
        self.expanded_nodes.clear();
        assert(self@.expanded =~= Seq::<Seq<usize>>::empty());
        self.expand_recursive(dom, Vec::new(), 0, max_depth);
    }

    /// Expands `node`, which stands at `path`, and what lies below it.
    pub fn expand_recursive(&mut self, node: &Node, path: Vec<usize>, depth: usize, max_depth: usize)
        ensures
            final(self)@ == (DomInspectorView {
                expanded: old(self)@.expanded + paths_to_depth(
                    *node,
                    path@,
                    depth as int,
                    max_depth as int,
                ),
                ..old(self)@
            }),
        decreases node,
    {
        if depth >= max_depth {
            assert(self@.expanded =~= old(self)@.expanded + Seq::<Seq<usize>>::empty());
            return ;
        }
        self.expanded_nodes.push(copy_path(&path));
        assert(self@.expanded =~= old(self)@.expanded + seq![path@]);
        let mut i: usize = 0;
        while i < node.children.len()
            invariant
                i <= node.children@.len(),
                depth < max_depth,
                self@ == (DomInspectorView {
                    expanded: old(self)@.expanded + seq![path@] + child_paths_to_depth(
                        node.children@,
                        path@,
                        depth as int,
                        max_depth as int,
                        i as int,
                    ),
                    ..old(self)@
                }),
            decreases node.children@.len() - i,
        {
            let mut child_path = copy_path(&path);
            child_path.push(i);
            self.expand_recursive(&node.children[i], child_path, depth + 1, max_depth);
            assert(self@.expanded =~= old(self)@.expanded + seq![path@] + child_paths_to_depth(
                node.children@,
                path@,
                depth as int,
                max_depth as int,
                i as int + 1,
            ));
            i = i + 1;
        }
        assert(self@.expanded =~= old(self)@.expanded + paths_to_depth(
            *node,
            path@,
            depth as int,
            max_depth as int,
        ));
    }

    /// Toggle showing text nodes
    pub fn toggle_text_nodes(&mut self)
        ensures
            final(self)@ == (DomInspectorView {
                show_text_nodes: !old(self)@.show_text_nodes,
                ..old(self)@
            }),
    {
        self.show_text_nodes = !self.show_text_nodes;
    }

    /// Toggle showing comments
    pub fn toggle_comments(&mut self)
        ensures
            final(self)@ == (DomInspectorView {
                show_comments: !old(self)@.show_comments,
                ..old(self)@
            }),
    {
        self.show_comments = !self.show_comments;
    }

    /// Check if text nodes are shown
    pub fn shows_text_nodes(&self) -> (shown: bool)
        ensures
            shown == self@.show_text_nodes,
    {
        self.show_text_nodes
    }

    /// Check if comments are shown
    pub fn shows_comments(&self) -> (shown: bool)
        ensures
            shown == self@.show_comments,
    {
        self.show_comments
    }

    /// Get node at path
    pub fn get_node_at_path<'a>(&self, root: &'a Node, path: &[usize]) -> (node: Option<&'a Node>)
        ensures
            match node {
                Some(n) => node_at(*root, path@) == Some(*n),
                None => node_at(*root, path@).is_none(),
            },
    {
        let mut current = root;
        let mut i: usize = 0;
        assert(path@.subrange(0, path@.len() as int) =~= path@);
        while i < path.len()
            invariant
                i <= path@.len(),
                node_at(*root, path@) == node_at(*current, path@.subrange(i as int, path@.len() as int)),
            decreases path@.len() - i,
        {
            let idx = path[i];
            let ghost rest = path@.subrange(i as int, path@.len() as int);
            assert(rest[0] == idx);
            assert(rest.subrange(1, rest.len() as int) =~= path@.subrange(
                i as int + 1,
                path@.len() as int,
            ));
            if idx < current.children.len() {
                current = &current.children[idx];
            } else {
                return None;
            }
            i = i + 1;
        }
        Some(current)
    }
}

/// Once a match is found among the first `k` paths, it stays the first
/// match among more of them.
pub proof fn lemma_first_match_stays(paths: Seq<Seq<usize>>, path: Seq<usize>, k: int, n: int)
    requires
        0 < k <= n <= paths.len(),
        first_match(paths, path, k) < k,
    ensures
        first_match(paths, path, n) == first_match(paths, path, k),
    decreases n - k,
{
    if k < n {
        lemma_first_match_stays(paths, path, k, n - 1);
    }
}

impl Default for DomInspector {
    fn default() -> (inspector: Self)
        ensures
            inspector@ == DomInspectorView::fresh(),
    {
        DomInspector::new()
    }
}

/// Type of network request
#[derive(Debug, Clone, Copy, PartialEq, Eq, Structural)]
pub enum NetworkRequestType {
    Document,
    Stylesheet,
    Script,
    Image,
    Font,
    Media,
    XHR,
    Fetch,
    WebSocket,
    Other,
}

/// Network request record
#[derive(Debug)]
pub struct NetworkRequest {
    /// Request URL
    pub url: Url,
    /// HTTP method
    pub method: String,
    /// Status code (if completed)
    pub status: Option<u16>,
    /// Response size in bytes
    pub size: Option<usize>,
    /// Request duration in milliseconds
    pub duration_ms: Option<u64>,
    /// Request start time
    pub started_at: SystemTime,
    /// Request end time
    pub completed_at: Option<SystemTime>,
    /// Content type
    pub content_type: Option<String>,
    /// Request type (Document, Stylesheet, Script, Image, etc.)
    pub request_type: NetworkRequestType,
}

/// Network activity logger
pub struct NetworkTab {
    /// Network requests
    requests: Vec<NetworkRequest>,
    /// Maximum requests to keep
    max_requests: usize,
}

impl View for NetworkTab {
    type V = Seq<NetworkRequest>;

    closed spec fn view(&self) -> Seq<NetworkRequest> {
        self.requests@
    }
}

/// The requests of one type among the first `k`, in order.
pub open spec fn requests_of_type(
    requests: Seq<NetworkRequest>,
    request_type: NetworkRequestType,
    k: int,
) -> Seq<NetworkRequest>
    decreases k,
{
    if k <= 0 || k > requests.len() {
        Seq::empty()
    } else if requests[k - 1].request_type == request_type {
        requests_of_type(requests, request_type, k - 1).push(requests[k - 1])
    } else {
        requests_of_type(requests, request_type, k - 1)
    }
}

/// The sizes of the first `k` requests that have one, added up.
pub open spec fn transferred(requests: Seq<NetworkRequest>, k: int) -> int
    decreases k,
{
    if k <= 0 || k > requests.len() {
        0
    } else {
        transferred(requests, k - 1) + match requests[k - 1].size {
            Some(size) => size as int,
            None => 0,
        }
    }
}

/// Whether a request failed: its status is 400 or more, or it is complete
/// without a status.
pub open spec fn has_failed(request: NetworkRequest) -> bool {
    match request.status {
        Some(status) => status >= 400,
        None => request.completed_at.is_some(),
    }
}

/// The number of failed requests among the first `k`.
pub open spec fn failures(requests: Seq<NetworkRequest>, k: int) -> nat
    decreases k,
{
    if k <= 0 || k > requests.len() {
        0
    } else {
        failures(requests, k - 1) + if has_failed(requests[k - 1]) {
            1nat
        } else {
            0nat
        }
    }
}

impl NetworkTab {
    /// The tab keeps at most `NETWORK_REQUEST_LIMIT` requests.
    pub closed spec fn wf(&self) -> bool {
        self.max_requests == NETWORK_REQUEST_LIMIT && self.requests@.len() <= NETWORK_REQUEST_LIMIT
    }

    /// Create a new network tab, without requests.
    pub fn new() -> (tab: Self)
        ensures
            tab.wf(),
            tab@ == Seq::<NetworkRequest>::empty(),
    {
        NetworkTab { requests: Vec::new(), max_requests: NETWORK_REQUEST_LIMIT }
    }

    /// Log a new request and give its index. The request is the last one in
    /// the tab, started at the time of the call and not complete; the oldest
    /// request is gone where the tab was full.
    pub fn log_request(&mut self, url: Url, method: String, request_type: NetworkRequestType) -> (index:
        usize)
        requires
            old(self).wf(),
        ensures
            final(self).wf(),
            final(self)@.len() > 0,
            index == final(self)@.len() - 1,
            final(self)@ == trimmed(
                old(self)@.push(final(self)@.last()),
                NETWORK_REQUEST_LIMIT as int,
            ),
            final(self)@.last().url == url,
            final(self)@.last().method == method,
            final(self)@.last().request_type == request_type,
            final(self)@.last().status.is_none(),
            final(self)@.last().size.is_none(),
            final(self)@.last().duration_ms.is_none(),
            final(self)@.last().completed_at.is_none(),
            final(self)@.last().content_type.is_none(),
    {
        let request = NetworkRequest {
            url,
            method,
            status: None,
            size: None,
            duration_ms: None,
            started_at: now(),
            completed_at: None,
            content_type: None,
            request_type,
        };
        self.requests.push(request);
        if self.requests.len() > self.max_requests {
            let ghost full = self.requests@;
            self.requests.remove(0);
            assert(self.requests@ =~= full.subrange(1, full.len() as int));
            return self.requests.len() - 1;
        }
        self.requests.len() - 1
    }

    /// Complete a request with response data. The request at `idx` gets the
    /// status, the size and the content type, and the time of the call as
    /// its end; its duration is set where the clock allows one. No other
    /// request changes, and none where `idx` names no request.
    pub fn complete_request(
        &mut self,
        idx: usize,
        status: u16,
        size: usize,
        content_type: Option<String>,
    )
        ensures
            final(self)@.len() == old(self)@.len(),
            old(self).wf() ==> final(self).wf(),
            forall|i: int|
                0 <= i < old(self)@.len() && i != idx ==> final(self)@[i] == old(self)@[i],
            idx < old(self)@.len() ==> {
                let before = old(self)@[idx as int];
                let after = final(self)@[idx as int];
                &&& after.status == Some(status)
                &&& after.size == Some(size)
                &&& after.content_type == content_type
                &&& after.completed_at.is_some()
                &&& after.url == before.url
                &&& after.method == before.method
                &&& after.started_at == before.started_at
                &&& after.request_type == before.request_type
                &&& (after.duration_ms.is_none() ==> before.duration_ms.is_none())
            },
    {
        if idx < self.requests.len() {
            let mut request = self.requests.remove(idx);
            request.status = Some(status);
            request.size = Some(size);
            request.content_type = content_type;
            let completed_at = now();
            if let Some(duration) = duration_between(&completed_at, &request.started_at) {
                let millis = whole_millis(&duration);
                request.duration_ms = Some(low_bits(millis));
            }
            request.completed_at = Some(completed_at);
            self.requests.insert(idx, request);
        }
    }

    /// Get all requests
    pub fn requests(&self) -> (all: &[NetworkRequest])
        ensures
            all@ == self@,
    {
        self.requests.as_slice()
    }

    /// Get requests by type, in the order in which they came.
    pub fn requests_by_type(&self, request_type: NetworkRequestType) -> (found: Vec<&NetworkRequest>)
        ensures
            found@.len() == requests_of_type(self@, request_type, self@.len() as int).len(),
            forall|i: int|
                0 <= i < found@.len() ==> *(#[trigger] found@[i]) == requests_of_type(
                    self@,
                    request_type,
                    self@.len() as int,
                )[i],
    {
        let mut found: Vec<&NetworkRequest> = Vec::new();
        let mut i: usize = 0;
        while i < self.requests.len()
            invariant
                i <= self.requests.len(),
                found@.len() == requests_of_type(self@, request_type, i as int).len(),
                forall|j: int|
                    0 <= j < found@.len() ==> *(#[trigger] found@[j]) == requests_of_type(
                        self@,
                        request_type,
                        i as int,
                    )[j],
            decreases self.requests.len() - i,
        {
            if self.requests[i].request_type == request_type {
                found.push(&self.requests[i]);
            }
            i = i + 1;
        }
        found
    }

    /// Get total requests count
    pub fn count(&self) -> (n: usize)
        ensures
            n == self@.len(),
    {
        self.requests.len()
    }

    /// Get total transferred bytes: the sizes of the requests that have one,
    /// added up.
    pub fn total_size(&self) -> (total: usize)
        requires
            transferred(self@, self@.len() as int) <= usize::MAX,
        ensures
            total == transferred(self@, self@.len() as int),
    {
        let mut total: usize = 0;
        let mut i: usize = 0;
        while i < self.requests.len()
            invariant
                i <= self.requests.len(),
                total == transferred(self@, i as int),
                transferred(self@, self@.len() as int) <= usize::MAX,
            decreases self.requests.len() - i,
        {
            proof {
                lemma_transferred_grows(self@, i as int + 1, self@.len() as int);
            }
            if let Some(size) = self.requests[i].size {
                total = total + size;
            }
            i = i + 1;
        }
        total
    }

    /// Get failed requests count (status >= 400 or no status)
    pub fn failed_count(&self) -> (n: usize)
        ensures
            n == failures(self@, self@.len() as int),
    {
        let mut n: usize = 0;
        let mut i: usize = 0;
        while i < self.requests.len()
            invariant
                i <= self.requests.len(),
                n <= i,
                n == failures(self@, i as int),
            decreases self.requests.len() - i,
        {
            let failed = match self.requests[i].status {
                Some(status) => status >= 400,
                None => self.requests[i].completed_at.is_some(),
            };
            if failed {
                n = n + 1;
            }
            i = i + 1;
        }
        n
    }

    /// Clear all requests
    pub fn clear(&mut self)
        ensures
            final(self)@ == Seq::<NetworkRequest>::empty(),
            old(self).wf() ==> final(self).wf(),
    {
        self.requests.clear();
    }
}

/// The low 64 bits of a number.
fn low_bits(n: u128) -> (low: u64)
    ensures
        low == n % 0x1_0000_0000_0000_0000,
{
    (n % 0x1_0000_0000_0000_0000) as u64
}

/// What the first requests transferred is no more than what more of them
/// transferred.
pub proof fn lemma_transferred_grows(requests: Seq<NetworkRequest>, a: int, b: int)
    requires
        0 <= a <= b <= requests.len(),
    ensures
        0 <= transferred(requests, a) <= transferred(requests, b),
    decreases b - a,
{
    if a < b {
        lemma_transferred_grows(requests, a, b - 1);
    } else {
        lemma_transferred_nonneg(requests, a);
    }
}

/// What requests transferred is not negative.
pub proof fn lemma_transferred_nonneg(requests: Seq<NetworkRequest>, k: int)
    requires
        0 <= k <= requests.len(),
    ensures
        0 <= transferred(requests, k),
    decreases k,
{
    if k > 0 {
        lemma_transferred_nonneg(requests, k - 1);
    }
}

impl Default for NetworkTab {
    fn default() -> (tab: Self)
        ensures
            tab.wf(),
            tab@ == Seq::<NetworkRequest>::empty(),
    {
        NetworkTab::new()
    }
}

} // verus!
