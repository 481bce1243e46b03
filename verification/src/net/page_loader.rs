//! What a page asks to be loaded: the style sheets that its document
//! holds or links to, in the order of the document.

use vstd::prelude::*;
use crate::css::{Rule, Stylesheet};
use crate::dom::{Node, NodeType};
use crate::net::resource_loader::ResourceLoader;
use crate::text::{lowercase, str_eq, to_lowercase};
use url::Url;

verus! {

/// Where a style sheet of a page comes from.
#[derive(Debug)]
pub enum StyleSource {
    /// The text of a `style` element
    Inline(String),
    /// The address that a `link` element gives, as it is written there
    Linked(String),
}

/// A source of styles as a mathematical value.
pub enum SourceView {
    Inline(Seq<char>),
    Linked(Seq<char>),
}

impl View for StyleSource {
    type V = SourceView;

    open spec fn view(&self) -> SourceView {
        match self {
            StyleSource::Inline(text) => SourceView::Inline(text@),
            StyleSource::Linked(href) => SourceView::Linked(href@),
        }
    }
}

/// The sources as mathematical values.
pub open spec fn source_views(sources: Seq<StyleSource>) -> Seq<SourceView> {
    Seq::new(sources.len(), |i: int| sources[i]@)
}

/// The text of a node: of a text node its text, of any other node the
/// texts of its children, one after the other.
pub open spec fn text_of(node: Node) -> Seq<char>
    decreases node, 0nat,
{
    match node.node_type {
        NodeType::Text(t) => t@,
        _ => texts_of(node.children@, node.children@.len() as int),
    }
}

/// The texts of the first `k` nodes, one after the other.
pub open spec fn texts_of(nodes: Seq<Node>, k: int) -> Seq<char>
    decreases nodes, k,
{
    if k <= 0 || k > nodes.len() {
        Seq::empty()
    } else {
        texts_of(nodes, k - 1) + text_of(nodes[k - 1])
    }
}

/// The source of styles that a node is by itself: a `style` element with
/// text is that text; a `link` element whose `rel` is `stylesheet` and
/// which has an `href` is that address. Tag names and `rel` are read
/// whatever the case of their letters. Any other node is none.
pub open spec fn own_sources(node: Node) -> Seq<SourceView> {
    match node.node_type {
        NodeType::Element(e) => {
            let tag = lowercase(e.tag_name@);
            if tag == "style"@ {
                if text_of(node).len() > 0 {
                    seq![SourceView::Inline(text_of(node))]
                } else {
                    Seq::empty()
                }
            } else if tag == "link"@ {
                match (e.attribute("rel"@), e.attribute("href"@)) {
                    (Some(rel), Some(href)) => if lowercase(rel) == "stylesheet"@ {
                        seq![SourceView::Linked(href)]
                    } else {
                        Seq::empty()
                    },
                    _ => Seq::empty(),
                }
            } else {
                Seq::empty()
            }
        },
        _ => Seq::empty(),
    }
}

/// The sources of styles in the tree of a node, in the order of the
/// document: the node's own, then those of its children.
pub open spec fn sources_of(node: Node) -> Seq<SourceView>
    decreases node, 0nat,
{
    own_sources(node) + sources_in(node.children@, node.children@.len() as int)
}

/// The sources of styles in the trees of the first `k` nodes.
pub open spec fn sources_in(nodes: Seq<Node>, k: int) -> Seq<SourceView>
    decreases nodes, k,
{
    if k <= 0 || k > nodes.len() {
        Seq::empty()
    } else {
        sources_in(nodes, k - 1) + sources_of(nodes[k - 1])
    }
}

/// The rules of all the sheets, in their order.
pub open spec fn all_rules(sheets: Seq<Stylesheet>) -> Seq<Rule>
    decreases sheets.len(),
{
    if sheets.len() == 0 {
        Seq::empty()
    } else {
        sheets[0].rules@ + all_rules(sheets.drop_first())
    }
}

/// Page loader that keeps what was fetched and finds what a page needs
pub struct PageLoader {
    pub resource_loader: ResourceLoader,
}

impl PageLoader {
    /// Create a new page loader with default cache
    pub fn new() -> (loader: Self)
        ensures
            loader.resource_loader.wf(),
            loader.resource_loader.cache.max_size
                == crate::net::resource_loader::DEFAULT_CACHE_SIZE,
            loader.resource_loader.cache.entries@.len() == 0,
    {
        PageLoader { resource_loader: ResourceLoader::with_default_cache() }
    }

    /// Create a page loader with specific cache size (in bytes)
    pub fn with_cache_size(size: usize) -> (loader: Self)
        ensures
            loader.resource_loader.wf(),
            loader.resource_loader.cache.max_size == size,
            loader.resource_loader.cache.entries@.len() == 0,
    {
        PageLoader { resource_loader: ResourceLoader::new(size) }
    }

    /// The sources of the style sheets of a document, in its order.
    pub fn extract_style_sources(&self, dom: &Node) -> (sources: Vec<StyleSource>)
        ensures
            source_views(sources@) == sources_of(*dom),
    {
        let mut sources: Vec<StyleSource> = Vec::new();
        self.collect_style_sources(dom, &mut sources);
        assert(source_views(sources@) =~= sources_of(*dom));
        sources
    }

    /// Recursively collect the sources of style sheets from DOM nodes:
    /// those of the node's tree are added behind what is there.
    pub fn collect_style_sources(&self, node: &Node, sources: &mut Vec<StyleSource>)
        ensures
            source_views(final(sources)@) == source_views(old(sources)@) + sources_of(*node),
        decreases *node,
    {
        let ghost before = source_views(sources@);
        match &node.node_type {
            NodeType::Element(elem) => {
                let tag = to_lowercase(elem.tag_name.as_str());
                if str_eq(tag.as_str(), "style") {
                    let css_text = self.extract_text_content(node);
                    if css_text.as_str().unicode_len() != 0 {
                        sources.push(StyleSource::Inline(css_text));
                    }
                } else if str_eq(tag.as_str(), "link") {
                    match elem.get_attribute("rel") {
                        Some(rel) => {
                            let lower = to_lowercase(rel);
                            if str_eq(lower.as_str(), "stylesheet") {
                                match elem.get_attribute("href") {
                                    Some(href) => {
                                        sources.push(StyleSource::Linked(String::from_str(href)));
                                    },
                                    None => {},
                                }
                            }
                        },
                        None => {},
                    }
                }
            },
            _ => {},
        }
        assert(source_views(sources@) =~= before + own_sources(*node));
        let mut i: usize = 0;
        while i < node.children.len()
            invariant
                i <= node.children@.len(),
                source_views(sources@) == before + own_sources(*node) + sources_in(
                    node.children@,
                    i as int,
                ),
            decreases node.children@.len() - i,
        {
            self.collect_style_sources(&node.children[i], sources);
            assert(source_views(sources@) =~= before + own_sources(*node) + sources_in(
                node.children@,
                i as int + 1,
            ));
            i = i + 1;
        }
        assert(source_views(sources@) =~= before + sources_of(*node));
    }

    /// Extract text content from a node and its children
    pub fn extract_text_content(&self, node: &Node) -> (content: String)
        ensures
            content@ == text_of(*node),
        decreases *node,
    {
        match node.text_content() {
            Some(text) => {
                return String::from_str(text);
            },
            None => {},
        }
        let mut result = String::new();
        let mut i: usize = 0;
        while i < node.children.len()
            invariant
                i <= node.children@.len(),
                result@ == texts_of(node.children@, i as int),
            decreases node.children@.len() - i,
        {
            let part = self.extract_text_content(&node.children[i]);
            result.append(part.as_str());
            i = i + 1;
        }
        result
    }

    /// Get access to the resource loader for manual resource loading
    pub fn resource_loader(&self) -> (loader: &ResourceLoader)
        ensures
            *loader == self.resource_loader,
    {
        &self.resource_loader
    }

    /// Clear the cache
    pub fn clear_cache(&mut self)
        ensures
            final(self).resource_loader.wf(),
            final(self).resource_loader.cache.max_size == old(self).resource_loader.cache.max_size,
            final(self).resource_loader.cache.entries@.len() == 0,
    {
        self.resource_loader.clear_cache();
    }
}

impl Default for PageLoader {
    fn default() -> (loader: Self)
        ensures
            loader.resource_loader.wf(),
            loader.resource_loader.cache.entries@.len() == 0,
    {
        PageLoader::new()
    }
}

/// A loaded page with DOM and stylesheets
pub struct LoadedPage {
    pub url: Url,
    pub dom: Node,
    pub stylesheets: Vec<Stylesheet>,
}

impl LoadedPage {
    /// Get a merged stylesheet from all loaded stylesheets: their rules,
    /// in the order of the sheets. The page gives its sheets away.
    pub fn merged_stylesheet(self) -> (merged: Stylesheet)
        ensures
            merged.rules@ == all_rules(self.stylesheets@),
    {
        let mut sheets = self.stylesheets;
        let mut all: Vec<Rule> = Vec::new();
        while sheets.len() > 0
            invariant
                all@ + all_rules(sheets@) == all_rules(self.stylesheets@),
            decreases sheets@.len(),
        {
            let ghost rest = sheets@;
            let mut sheet = sheets.remove(0);
            assert(sheets@ =~= rest.drop_first());
            let ghost held = all@;
            all.append(&mut sheet.rules);
            assert(all@ + all_rules(sheets@) =~= held + all_rules(rest));
        }
        assert(all@ + all_rules(sheets@) =~= all@);
        Stylesheet::new(all)
    }
}

} // verus!
