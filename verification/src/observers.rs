//! Observers of the document: who watches which nodes for changes, for
//! coming into view and for a change of size, and what each watcher is
//! told. Lengths are whole layout units, and the share of an element that
//! is in view is given in thousandths.

use vstd::prelude::*;
use crate::layout::sums::{max_int, min_int};
use crate::layout::Rect;
use std::collections::{HashMap, HashSet};

verus! {

broadcast use vstd::std_specs::hash::group_hash_axioms;

/// Observer ID type
pub type ObserverId = u64;

/// Mutation observer configuration
#[derive(Debug, Clone)]
pub struct MutationObserverInit {
    /// Watch child list changes
    pub child_list: bool,
    /// Watch attribute changes
    pub attributes: bool,
    /// Watch character data changes
    pub character_data: bool,
    /// Watch subtree
    pub subtree: bool,
    /// Record old attribute values
    pub attribute_old_value: bool,
    /// Record old character data
    pub character_data_old_value: bool,
    /// Attribute filter (None = all attributes)
    pub attribute_filter: Option<Vec<String>>,
}

impl Default for MutationObserverInit {
    /// The configuration that watches nothing.
    fn default() -> (config: Self)
        ensures
            !config.child_list,
            !config.attributes,
            !config.character_data,
            !config.subtree,
            !config.attribute_old_value,
            !config.character_data_old_value,
            config.attribute_filter.is_none(),
    {
        MutationObserverInit {
            child_list: false,
            attributes: false,
            character_data: false,
            subtree: false,
            attribute_old_value: false,
            character_data_old_value: false,
            attribute_filter: None,
        }
    }
}

/// Mutation type
#[derive(Debug, Clone, Copy, PartialEq, Eq, Structural)]
pub enum MutationType {
    ChildList,
    Attributes,
    CharacterData,
}

/// Mutation record describing a DOM change
#[derive(Debug)]
pub struct MutationRecord {
    /// Type of mutation
    pub mutation_type: MutationType,
    /// Target node ID
    pub target: u64,
    /// Added nodes (for childList)
    pub added_nodes: Vec<u64>,
    /// Removed nodes (for childList)
    pub removed_nodes: Vec<u64>,
    /// Previous sibling
    pub previous_sibling: Option<u64>,
    /// Next sibling
    pub next_sibling: Option<u64>,
    /// Attribute name (for attributes)
    pub attribute_name: Option<String>,
    /// Old value
    pub old_value: Option<String>,
}

/// A mutation record as a mathematical value.
pub struct RecordView {
    pub mutation_type: MutationType,
    pub target: u64,
    pub added_nodes: Seq<u64>,
    pub removed_nodes: Seq<u64>,
    pub previous_sibling: Option<u64>,
    pub next_sibling: Option<u64>,
    pub attribute_name: Option<Seq<char>>,
    pub old_value: Option<Seq<char>>,
}

/// What an optional text holds.
pub open spec fn text_view(text: Option<String>) -> Option<Seq<char>> {
    match text {
        Some(s) => Some(s@),
        None => None,
    }
}

impl View for MutationRecord {
    type V = RecordView;

    open spec fn view(&self) -> RecordView {
        RecordView {
            mutation_type: self.mutation_type,
            target: self.target,
            added_nodes: self.added_nodes@,
            removed_nodes: self.removed_nodes@,
            previous_sibling: self.previous_sibling,
            next_sibling: self.next_sibling,
            attribute_name: text_view(self.attribute_name),
            old_value: text_view(self.old_value),
        }
    }
}

/// A copy of node IDs.
fn copy_ids(ids: &Vec<u64>) -> (copy: Vec<u64>)
    ensures
        copy@ == ids@,
{
    let mut copy: Vec<u64> = Vec::new();
    let mut i: usize = 0;
    while i < ids.len()
        invariant
            i <= ids@.len(),
            copy@ == ids@.subrange(0, i as int),
        decreases ids@.len() - i,
    {
        copy.push(ids[i]);
        assert(copy@ =~= ids@.subrange(0, i as int + 1));
        i = i + 1;
    }
    assert(ids@.subrange(0, ids@.len() as int) =~= ids@);
    copy
}

/// A copy of an optional text.
fn copy_text(text: &Option<String>) -> (copy: Option<String>)
    ensures
        text_view(copy) == text_view(*text),
{
    match text {
        Some(s) => Some(s.clone()),
        None => None,
    }
}

impl Clone for MutationRecord {
    fn clone(&self) -> (copy: Self)
        ensures
            copy@ == self@,
    {
        MutationRecord {
            mutation_type: self.mutation_type,
            target: self.target,
            added_nodes: copy_ids(&self.added_nodes),
            removed_nodes: copy_ids(&self.removed_nodes),
            previous_sibling: self.previous_sibling,
            next_sibling: self.next_sibling,
            attribute_name: copy_text(&self.attribute_name),
            old_value: copy_text(&self.old_value),
        }
    }
}

/// The records as mathematical values.
pub open spec fn record_views(records: Seq<MutationRecord>) -> Seq<RecordView> {
    Seq::new(records.len(), |i: int| records[i]@)
}

/// Mutation Observer - watches DOM changes
pub struct MutationObserver<F> {
    /// Observer ID
    id: ObserverId,
    /// Callback function
    callback: F,
    /// Observed nodes
    observed_nodes: HashSet<u64>,
    /// Configuration
    config: MutationObserverInit,
}

impl<F: Fn(&[MutationRecord])> MutationObserver<F> {
    /// The nodes that the observer watches.
    pub closed spec fn observed(&self) -> Set<u64> {
        self.observed_nodes@
    }

    /// The observer's configuration.
    pub closed spec fn configuration(&self) -> MutationObserverInit {
        self.config
    }

    /// The observer's ID.
    pub closed spec fn identity(&self) -> ObserverId {
        self.id
    }

    /// What the observer tells of changes.
    pub closed spec fn listener(&self) -> F {
        self.callback
    }

    /// Whether the observer is as it is made: with this ID and callback,
    /// watching no node, with the configuration that watches nothing.
    pub open spec fn is_fresh(&self, id: ObserverId, callback: F) -> bool {
        &&& self.identity() == id
        &&& self.listener() == callback
        &&& self.observed() == Set::<u64>::empty()
        &&& !self.configuration().child_list
        &&& !self.configuration().attributes
        &&& !self.configuration().character_data
        &&& !self.configuration().subtree
        &&& !self.configuration().attribute_old_value
        &&& !self.configuration().character_data_old_value
        &&& self.configuration().attribute_filter.is_none()
    }

    /// Whether the callback can be called with whatever records there are.
    pub open spec fn accepts_all(&self) -> bool {
        forall|records: &[MutationRecord]| call_requires(self.listener(), (records,))
    }

    /// Whether the callback was told of exactly these records.
    pub open spec fn told(&self, records: Seq<RecordView>) -> bool {
        exists|told: &[MutationRecord]|
            record_views(told@) == records && #[trigger] call_ensures(self.listener(), (told,), ())
    }

    /// Create a new mutation observer: it watches no node, with the
    /// configuration that watches nothing.
    pub fn new(id: ObserverId, callback: F) -> (observer: Self)
        ensures
            observer.is_fresh(id, callback),
    {
        MutationObserver {
            id,
            callback,
            observed_nodes: HashSet::new(),
            config: MutationObserverInit::default(),
        }
    }

    /// Get observer ID
    pub fn id(&self) -> (id: ObserverId)
        ensures
            id == self.identity(),
    {
        self.id
    }

    /// Observe a node: it joins the watched nodes, and the configuration
    /// becomes the given one for all of them.
    pub fn observe(&mut self, node_id: u64, config: MutationObserverInit)
        ensures
            final(self).observed() == old(self).observed().insert(node_id),
            final(self).configuration() == config,
            final(self).identity() == old(self).identity(),
            final(self).listener() == old(self).listener(),
    {
        self.observed_nodes.insert(node_id);
        self.config = config;
    }

    /// Disconnect observer: it watches no node any more.
    pub fn disconnect(&mut self)
        ensures
            final(self).observed() == Set::<u64>::empty(),
            final(self).configuration() == old(self).configuration(),
            final(self).identity() == old(self).identity(),
            final(self).listener() == old(self).listener(),
    {
        self.observed_nodes.clear();
    }

    /// Check if observing a node
    pub fn is_observing(&self, node_id: u64) -> (watched: bool)
        ensures
            watched == self.observed().contains(node_id),
    {
        self.observed_nodes.contains(&node_id)
    }

    /// Notify observer of mutations: its callback is called once, with
    /// the records.
    pub fn notify(&self, records: &[MutationRecord])
        requires
            call_requires(self.listener(), (records,)),
        ensures
            call_ensures(self.listener(), (records,), ()),
    {
        (self.callback)(records)
    }

    /// Get configuration
    pub fn config(&self) -> (config: &MutationObserverInit)
        ensures
            *config == self.configuration(),
    {
        &self.config
    }
}

/// The part that two rectangles have in common, where it has a width and
/// a height.
pub open spec fn intersection_of(a: Rect, b: Rect) -> Option<Rect> {
    let x1 = max_int(a.x as int, b.x as int);
    let y1 = max_int(a.y as int, b.y as int);
    let x2 = min_int(a.x + a.width, b.x + b.width);
    let y2 = min_int(a.y + a.height, b.y + b.height);
    if x2 > x1 && y2 > y1 {
        Some(Rect { x: x1 as i64, y: y1 as i64, width: (x2 - x1) as i64, height: (y2 - y1) as i64 })
    } else {
        None
    }
}

/// The area of a rectangle.
pub open spec fn area_of(r: Rect) -> int {
    r.width * r.height
}

/// The share of the element that lies in the root, in thousandths,
/// rounded down; 0 where the two have nothing in common.
pub open spec fn shown_share(element: Rect, root: Rect) -> int {
    match intersection_of(element, root) {
        Some(common) => area_of(common) * 1000 / area_of(element),
        None => 0,
    }
}

/// What is in common lies within both rectangles, and is as large as one
/// of them at most.
pub proof fn lemma_intersection_within(a: Rect, b: Rect)
    requires
        intersection_of(a, b).is_some(),
    ensures
        ({
            let common = intersection_of(a, b).unwrap();
            &&& a.x <= common.x && b.x <= common.x
            &&& a.y <= common.y && b.y <= common.y
            &&& common.x + common.width <= a.x + a.width
            &&& common.x + common.width <= b.x + b.width
            &&& common.y + common.height <= a.y + a.height
            &&& common.y + common.height <= b.y + b.height
            &&& 0 < common.width <= a.width && common.width <= b.width
            &&& 0 < common.height <= a.height && common.height <= b.height
            &&& 0 < area_of(common) <= area_of(a)
            &&& area_of(common) <= area_of(b)
            &&& intersection_of(b, a) == Some(common)
        }),
{
    let common = intersection_of(a, b).unwrap();
    assert(0 < common.width * common.height <= a.width * a.height && common.width * common.height
        <= b.width * b.height) by (nonlinear_arith)
        requires
            0 < common.width <= a.width,
            common.width <= b.width,
            0 < common.height <= a.height,
            common.height <= b.height,
    ;
}

/// Calculate intersection with another rect
pub fn intersection(a: &Rect, b: &Rect) -> (common: Option<Rect>)
    ensures
        common == intersection_of(*a, *b),
{
    let x1: i64 = if a.x >= b.x { a.x } else { b.x };
    let y1: i64 = if a.y >= b.y { a.y } else { b.y };
    let right_a: i128 = a.x as i128 + a.width as i128;
    let right_b: i128 = b.x as i128 + b.width as i128;
    let bottom_a: i128 = a.y as i128 + a.height as i128;
    let bottom_b: i128 = b.y as i128 + b.height as i128;
    let x2: i128 = if right_a <= right_b { right_a } else { right_b };
    let y2: i128 = if bottom_a <= bottom_b { bottom_a } else { bottom_b };
    if x2 > x1 as i128 && y2 > y1 as i128 {
        Some(Rect { x: x1, y: y1, width: (x2 - x1 as i128) as i64, height: (y2 - y1 as i128) as i64 })
    } else {
        None
    }
}

/// Calculate area
pub fn area(r: &Rect) -> (a: i128)
    ensures
        a == area_of(*r),
{
    assert(-0x4000_0000_0000_0000_0000_0000_0000_0000 <= r.width * r.height
        <= 0x4000_0000_0000_0000_0000_0000_0000_0000) by (nonlinear_arith)
        requires
            -0x8000_0000_0000_0000 <= r.width <= 0x8000_0000_0000_0000,
            -0x8000_0000_0000_0000 <= r.height <= 0x8000_0000_0000_0000,
    ;
    r.width as i128 * r.height as i128
}

/// Intersection observer entry
#[derive(Debug, Clone, Copy, PartialEq, Eq, Structural)]
pub struct IntersectionObserverEntry {
    /// Target element ID
    pub target: u64,
    /// Bounding client rect
    pub bounding_client_rect: Rect,
    /// Root bounds
    pub root_bounds: Option<Rect>,
    /// Intersection rect
    pub intersection_rect: Rect,
    /// Intersection ratio, in thousandths (0 to 1000)
    pub intersection_ratio: i64,
    /// Is intersecting
    pub is_intersecting: bool,
    /// Timestamp
    pub time: i64,
}

/// The entry for an element and a root: what they have in common, the
/// share of the element that this is, and whether there is any. Target
/// and time are left at 0 for the caller to set.
pub open spec fn entry_of(element: Rect, root: Rect) -> IntersectionObserverEntry {
    IntersectionObserverEntry {
        target: 0,
        bounding_client_rect: element,
        root_bounds: Some(root),
        intersection_rect: match intersection_of(element, root) {
            Some(common) => common,
            None => Rect::zero(),
        },
        intersection_ratio: shown_share(element, root) as i64,
        is_intersecting: intersection_of(element, root).is_some(),
        time: 0,
    }
}

/// Intersection Observer - watches element visibility
pub struct IntersectionObserver<F> {
    /// Observer ID
    id: ObserverId,
    /// Callback
    callback: F,
    /// Observed elements
    observed_elements: HashSet<u64>,
    /// Root element (None = viewport)
    root: Option<u64>,
    /// Root margin: top, right, bottom, left
    root_margin: (i64, i64, i64, i64),
    /// Thresholds, in thousandths
    thresholds: Vec<i64>,
}

impl<F: Fn(&[IntersectionObserverEntry])> IntersectionObserver<F> {
    /// The elements that the observer watches.
    pub closed spec fn observed(&self) -> Set<u64> {
        self.observed_elements@
    }

    /// The observer's ID.
    pub closed spec fn identity(&self) -> ObserverId {
        self.id
    }

    /// What the observer tells of changes.
    pub closed spec fn listener(&self) -> F {
        self.callback
    }

    /// The root element, where it is not the viewport.
    pub closed spec fn root(&self) -> Option<u64> {
        self.root
    }

    /// The margin round the root: top, right, bottom, left.
    pub closed spec fn root_margin(&self) -> (i64, i64, i64, i64) {
        self.root_margin
    }

    /// The shares, in thousandths, at which the observer is told.
    pub closed spec fn thresholds(&self) -> Seq<i64> {
        self.thresholds@
    }

    /// Whether the rest of the observer is the same as that of another.
    pub open spec fn same_settings(&self, other: &Self) -> bool {
        &&& self.identity() == other.identity()
        &&& self.listener() == other.listener()
        &&& self.root() == other.root()
        &&& self.root_margin() == other.root_margin()
        &&& self.thresholds() == other.thresholds()
    }

    /// Whether the observer is as it is made: with this ID and callback,
    /// watching no element, its root the viewport without a margin, and
    /// its one threshold 0.
    pub open spec fn is_fresh(&self, id: ObserverId, callback: F) -> bool {
        &&& self.identity() == id
        &&& self.listener() == callback
        &&& self.observed() == Set::<u64>::empty()
        &&& self.root().is_none()
        &&& self.root_margin() == (0i64, 0i64, 0i64, 0i64)
        &&& self.thresholds() == seq![0i64]
    }

    /// Create a new intersection observer: it watches no element, its
    /// root is the viewport without a margin, and its one threshold is 0.
    pub fn new(id: ObserverId, callback: F) -> (observer: Self)
        ensures
            observer.is_fresh(id, callback),
    {
        let mut thresholds: Vec<i64> = Vec::new();
        thresholds.push(0);
        assert(thresholds@ =~= seq![0i64]);
        IntersectionObserver {
            id,
            callback,
            observed_elements: HashSet::new(),
            root: None,
            root_margin: (0, 0, 0, 0),
            thresholds,
        }
    }

    /// Get observer ID
    pub fn id(&self) -> (id: ObserverId)
        ensures
            id == self.identity(),
    {
        self.id
    }

    /// Set root element
    pub fn set_root(&mut self, root: Option<u64>)
        ensures
            final(self).root() == root,
            final(self).observed() == old(self).observed(),
            final(self).identity() == old(self).identity(),
            final(self).listener() == old(self).listener(),
            final(self).root_margin() == old(self).root_margin(),
            final(self).thresholds() == old(self).thresholds(),
    {
        self.root = root;
    }

    /// Set root margin
    pub fn set_root_margin(&mut self, top: i64, right: i64, bottom: i64, left: i64)
        ensures
            final(self).root_margin() == (top, right, bottom, left),
            final(self).observed() == old(self).observed(),
            final(self).identity() == old(self).identity(),
            final(self).listener() == old(self).listener(),
            final(self).root() == old(self).root(),
            final(self).thresholds() == old(self).thresholds(),
    {
        self.root_margin = (top, right, bottom, left);
    }

    /// Set thresholds
    pub fn set_thresholds(&mut self, thresholds: Vec<i64>)
        ensures
            final(self).thresholds() == thresholds@,
            final(self).observed() == old(self).observed(),
            final(self).identity() == old(self).identity(),
            final(self).listener() == old(self).listener(),
            final(self).root() == old(self).root(),
            final(self).root_margin() == old(self).root_margin(),
    {
        self.thresholds = thresholds;
    }

    /// Observe an element
    pub fn observe(&mut self, element_id: u64)
        ensures
            final(self).observed() == old(self).observed().insert(element_id),
            final(self).same_settings(old(self)),
    {
        self.observed_elements.insert(element_id);
    }

    /// Unobserve an element
    pub fn unobserve(&mut self, element_id: u64)
        ensures
            final(self).observed() == old(self).observed().remove(element_id),
            final(self).same_settings(old(self)),
    {
        self.observed_elements.remove(&element_id);
    }

    /// Disconnect observer: it watches no element any more.
    pub fn disconnect(&mut self)
        ensures
            final(self).observed() == Set::<u64>::empty(),
            final(self).same_settings(old(self)),
    {
        self.observed_elements.clear();
    }

    /// Check if observing an element
    pub fn is_observing(&self, element_id: u64) -> (watched: bool)
        ensures
            watched == self.observed().contains(element_id),
    {
        self.observed_elements.contains(&element_id)
    }

    /// Notify observer of intersection changes: its callback is called
    /// once, with the entries.
    pub fn notify(&self, entries: &[IntersectionObserverEntry])
        requires
            call_requires(self.listener(), (entries,)),
        ensures
            call_ensures(self.listener(), (entries,), ()),
    {
        (self.callback)(entries)
    }

    /// Calculate intersection for an element
    pub fn calculate_intersection(&self, element_rect: Rect, root_rect: Rect) -> (entry:
        IntersectionObserverEntry)
        requires
            element_rect.bounded(),
        ensures
            entry == entry_of(element_rect, root_rect),
            0 <= entry.intersection_ratio <= 1000,
            entry.is_intersecting == (entry.intersection_rect.width > 0),
    {
        match intersection(&element_rect, &root_rect) {
            Some(common) => {
                proof {
                    lemma_intersection_within(element_rect, root_rect);
                    assert(area_of(common) <= 0x100_0000_0000_0000_0000) by (nonlinear_arith)
                        requires
                            area_of(common) == common.width * common.height,
                            0 < common.width <= 0x10_0000_0000,
                            0 < common.height <= 0x10_0000_0000,
                    ;
                    assert(0 <= area_of(common) * 1000 / area_of(element_rect) <= 1000)
                        by (nonlinear_arith)
                        requires
                            0 < area_of(common) <= area_of(element_rect),
                    ;
                }
                let ratio = area(&common) * 1000 / area(&element_rect);
                IntersectionObserverEntry {
                    target: 0,
                    bounding_client_rect: element_rect,
                    root_bounds: Some(root_rect),
                    intersection_rect: common,
                    intersection_ratio: ratio as i64,
                    is_intersecting: true,
                    time: 0,
                }
            },
            None => IntersectionObserverEntry {
                target: 0,
                bounding_client_rect: element_rect,
                root_bounds: Some(root_rect),
                intersection_rect: Rect { x: 0, y: 0, width: 0, height: 0 },
                intersection_ratio: 0,
                is_intersecting: false,
                time: 0,
            },
        }
    }
}

/// Resize observer size
#[derive(Debug, Clone, Copy, PartialEq, Eq, Structural)]
pub struct ResizeObserverSize {
    pub inline_size: i64,
    pub block_size: i64,
}

/// Resize observer entry
#[derive(Debug, Clone, Copy, PartialEq, Eq, Structural)]
pub struct ResizeObserverEntry {
    /// Target element ID
    pub target: u64,
    /// Content rect
    pub content_rect: Rect,
    /// Border box size
    pub border_box_size: ResizeObserverSize,
    /// Content box size
    pub content_box_size: ResizeObserverSize,
}

/// What is told when an element has taken a new size: a content
/// rectangle of that size at the origin, and the size for both boxes.
pub open spec fn resize_entry(element_id: u64, size: ResizeObserverSize) -> ResizeObserverEntry {
    ResizeObserverEntry {
        target: element_id,
        content_rect: Rect { x: 0, y: 0, width: size.inline_size, height: size.block_size },
        border_box_size: size,
        content_box_size: size,
    }
}

/// Resize Observer - watches element size changes
pub struct ResizeObserver<F> {
    /// Observer ID
    id: ObserverId,
    /// Callback
    callback: F,
    /// Observed elements with last known sizes
    observed_elements: HashMap<u64, ResizeObserverSize>,
}

impl<F: Fn(&[ResizeObserverEntry])> ResizeObserver<F> {
    /// The elements that the observer watches, each with the size last
    /// known of it.
    pub closed spec fn sizes(&self) -> Map<u64, ResizeObserverSize> {
        self.observed_elements@
    }

    /// The observer's ID.
    pub closed spec fn identity(&self) -> ObserverId {
        self.id
    }

    /// What the observer tells of changes.
    pub closed spec fn listener(&self) -> F {
        self.callback
    }

    /// Whether the callback can be called with whatever entries there
    /// are.
    pub open spec fn accepts_all(&self) -> bool {
        forall|entries: &[ResizeObserverEntry]| call_requires(self.listener(), (entries,))
    }

    /// Whether the callback was told of exactly this entry.
    pub open spec fn told(&self, entry: ResizeObserverEntry) -> bool {
        exists|told: &[ResizeObserverEntry]|
            told@ == seq![entry] && #[trigger] call_ensures(self.listener(), (told,), ())
    }

    /// Whether an element is watched and its size differs from the one
    /// last known.
    pub open spec fn resized(&self, element_id: u64, new_size: ResizeObserverSize) -> bool {
        self.sizes().contains_key(element_id) && self.sizes()[element_id] != new_size
    }

    /// Whether the observer is as it is made: with this ID and callback,
    /// watching no element.
    pub open spec fn is_fresh(&self, id: ObserverId, callback: F) -> bool {
        &&& self.identity() == id
        &&& self.listener() == callback
        &&& self.sizes() == Map::<u64, ResizeObserverSize>::empty()
    }

    /// Create a new resize observer, which watches no element.
    pub fn new(id: ObserverId, callback: F) -> (observer: Self)
        ensures
            observer.is_fresh(id, callback),
    {
        ResizeObserver { id, callback, observed_elements: HashMap::new() }
    }

    /// Get observer ID
    pub fn id(&self) -> (id: ObserverId)
        ensures
            id == self.identity(),
    {
        self.id
    }

    /// Observe an element, whose size is taken to be `initial_size`.
    pub fn observe(&mut self, element_id: u64, initial_size: ResizeObserverSize)
        ensures
            final(self).sizes() == old(self).sizes().insert(element_id, initial_size),
            final(self).identity() == old(self).identity(),
            final(self).listener() == old(self).listener(),
    {
        self.observed_elements.insert(element_id, initial_size);
    }

    /// Unobserve an element
    pub fn unobserve(&mut self, element_id: u64)
        ensures
            final(self).sizes() == old(self).sizes().remove(element_id),
            final(self).identity() == old(self).identity(),
            final(self).listener() == old(self).listener(),
    {
        self.observed_elements.remove(&element_id);
    }

    /// Disconnect observer: it watches no element any more.
    pub fn disconnect(&mut self)
        ensures
            final(self).sizes() == Map::<u64, ResizeObserverSize>::empty(),
            final(self).identity() == old(self).identity(),
            final(self).listener() == old(self).listener(),
    {
        self.observed_elements.clear();
    }

    /// Check if observing an element
    pub fn is_observing(&self, element_id: u64) -> (watched: bool)
        ensures
            watched == self.sizes().contains_key(element_id),
    {
        self.observed_elements.contains_key(&element_id)
    }

    /// Check for size changes and notify if needed: where the element is
    /// watched and its size is not the one last known, the new size is
    /// kept and the callback is told of it.
    pub fn check_resize(&mut self, element_id: u64, new_size: ResizeObserverSize) -> (changed: bool)
        requires
            old(self).accepts_all(),
        ensures
            changed == old(self).resized(element_id, new_size),
            final(self).sizes() == if changed {
                old(self).sizes().insert(element_id, new_size)
            } else {
                old(self).sizes()
            },
            changed ==> final(self).told(resize_entry(element_id, new_size)),
            final(self).identity() == old(self).identity(),
            final(self).listener() == old(self).listener(),
    {
        let differs = match self.observed_elements.get(&element_id) {
            Some(old_size) => old_size.inline_size != new_size.inline_size || old_size.block_size
                != new_size.block_size,
            None => false,
        };
        if differs {
            self.observed_elements.insert(element_id, new_size);
            let entry = ResizeObserverEntry {
                target: element_id,
                content_rect: Rect {
                    x: 0,
                    y: 0,
                    width: new_size.inline_size,
                    height: new_size.block_size,
                },
                border_box_size: new_size,
                content_box_size: new_size,
            };
            let mut entries: Vec<ResizeObserverEntry> = Vec::new();
            entries.push(entry);
            let told = entries.as_slice();
            assert(call_requires(old(self).listener(), (told,)));
            (self.callback)(told);
            assert(call_ensures(self.listener(), (told,), ()));
            assert(told@ =~= seq![resize_entry(element_id, new_size)]);
            return true;
        }
        false
    }
}

/// The pairs that are recorded when a node changes: for each of the first
/// `k` observers that watches the node, in their order, its ID with the
/// record.
pub open spec fn recorded<M: Fn(&[MutationRecord])>(
    observers: Seq<MutationObserver<M>>,
    node_id: u64,
    record: RecordView,
    k: int,
) -> Seq<(ObserverId, RecordView)>
    decreases k,
{
    if k <= 0 || k > observers.len() {
        Seq::empty()
    } else if observers[k - 1].observed().contains(node_id) {
        recorded(observers, node_id, record, k - 1).push((observers[k - 1].identity(), record))
    } else {
        recorded(observers, node_id, record, k - 1)
    }
}

/// The records among the first `k` pending pairs that are meant for an
/// observer, in their order.
pub open spec fn records_for(pending: Seq<(ObserverId, RecordView)>, id: ObserverId, k: int) -> Seq<
    RecordView,
>
    decreases k,
{
    if k <= 0 || k > pending.len() {
        Seq::empty()
    } else if pending[k - 1].0 == id {
        records_for(pending, id, k - 1).push(pending[k - 1].1)
    } else {
        records_for(pending, id, k - 1)
    }
}

/// Whether the IDs rise and all lie below `next`.
pub open spec fn ids_in_order(ids: Seq<ObserverId>, next: ObserverId) -> bool {
    &&& forall|i: int| 0 <= i < ids.len() ==> #[trigger] ids[i] < next
    &&& forall|i: int, j: int| 0 <= i < j < ids.len() ==> #[trigger] ids[i] < #[trigger] ids[j]
}

/// Disconnects each of the observers.
fn disconnect_mutation_observers<M: Fn(&[MutationRecord])>(observers: &mut Vec<MutationObserver<M>>)
    ensures
        final(observers)@.len() == old(observers)@.len(),
        forall|j: int|
            0 <= j < final(observers)@.len() ==> {
                let after = #[trigger] final(observers)@[j];
                let before = old(observers)@[j];
                &&& after.observed() == Set::<u64>::empty()
                &&& after.identity() == before.identity()
                &&& after.listener() == before.listener()
                &&& after.configuration() == before.configuration()
            },
{
    let mut i: usize = 0;
    while i < observers.len()
        invariant
            i <= observers@.len(),
            observers@.len() == old(observers)@.len(),
            forall|j: int|
                0 <= j < observers@.len() ==> {
                    let after = #[trigger] observers@[j];
                    let before = old(observers)@[j];
                    &&& j < i ==> after.observed() == Set::<u64>::empty()
                    &&& after.identity() == before.identity()
                    &&& after.listener() == before.listener()
                    &&& after.configuration() == before.configuration()
                },
        decreases observers@.len() - i,
    {
        observers[i].disconnect();
        i = i + 1;
    }
}

/// Disconnects each of the observers.
fn disconnect_intersection_observers<I: Fn(&[IntersectionObserverEntry])>(
    observers: &mut Vec<IntersectionObserver<I>>,
)
    ensures
        final(observers)@.len() == old(observers)@.len(),
        forall|j: int|
            0 <= j < final(observers)@.len() ==> {
                let after = #[trigger] final(observers)@[j];
                let before = old(observers)@[j];
                after.observed() == Set::<u64>::empty() && after.same_settings(&before)
            },
{
    let mut i: usize = 0;
    while i < observers.len()
        invariant
            i <= observers@.len(),
            observers@.len() == old(observers)@.len(),
            forall|j: int|
                0 <= j < observers@.len() ==> {
                    let after = #[trigger] observers@[j];
                    let before = old(observers)@[j];
                    &&& j < i ==> after.observed() == Set::<u64>::empty()
                    &&& after.same_settings(&before)
                },
        decreases observers@.len() - i,
    {
        observers[i].disconnect();
        i = i + 1;
    }
}

/// Disconnects each of the observers.
fn disconnect_resize_observers<R: Fn(&[ResizeObserverEntry])>(observers: &mut Vec<ResizeObserver<R>>)
    ensures
        final(observers)@.len() == old(observers)@.len(),
        forall|j: int|
            0 <= j < final(observers)@.len() ==> {
                let after = #[trigger] final(observers)@[j];
                let before = old(observers)@[j];
                &&& after.sizes() == Map::<u64, ResizeObserverSize>::empty()
                &&& after.identity() == before.identity()
                &&& after.listener() == before.listener()
            },
{
    let mut i: usize = 0;
    while i < observers.len()
        invariant
            i <= observers@.len(),
            observers@.len() == old(observers)@.len(),
            forall|j: int|
                0 <= j < observers@.len() ==> {
                    let after = #[trigger] observers@[j];
                    let before = old(observers)@[j];
                    &&& j < i ==> after.sizes() == Map::<u64, ResizeObserverSize>::empty()
                    &&& after.identity() == before.identity()
                    &&& after.listener() == before.listener()
                },
        decreases observers@.len() - i,
    {
        observers[i].disconnect();
        i = i + 1;
    }
}

/// Observer manager
pub struct ObserverManager<M, I, R> {
    /// Next observer ID
    next_id: ObserverId,
    /// Mutation observers, in the order of their IDs
    mutation_observers: Vec<MutationObserver<M>>,
    /// Intersection observers, in the order of their IDs
    intersection_observers: Vec<IntersectionObserver<I>>,
    /// Resize observers, in the order of their IDs
    resize_observers: Vec<ResizeObserver<R>>,
    /// Pending mutation records
    pending_mutations: Vec<(ObserverId, MutationRecord)>,
}

impl<
    M: Fn(&[MutationRecord]),
    I: Fn(&[IntersectionObserverEntry]),
    R: Fn(&[ResizeObserverEntry]),
> ObserverManager<M, I, R> {
    /// The ID that the next observer gets.
    pub closed spec fn next_id(&self) -> ObserverId {
        self.next_id
    }

    /// The mutation observers, in the order in which they were created.
    pub closed spec fn mutation_observers(&self) -> Seq<MutationObserver<M>> {
        self.mutation_observers@
    }

    /// The intersection observers, in the order in which they were
    /// created.
    pub closed spec fn intersection_observers(&self) -> Seq<IntersectionObserver<I>> {
        self.intersection_observers@
    }

    /// The resize observers, in the order in which they were created.
    pub closed spec fn resize_observers(&self) -> Seq<ResizeObserver<R>> {
        self.resize_observers@
    }

    /// The records that wait to be told, each with the ID of the observer
    /// that it is meant for.
    pub closed spec fn pending(&self) -> Seq<(ObserverId, RecordView)> {
        Seq::new(
            self.pending_mutations@.len(),
            |i: int| (self.pending_mutations@[i].0, self.pending_mutations@[i].1@),
        )
    }

    /// The IDs of the mutation observers.
    pub open spec fn mutation_ids(&self) -> Seq<ObserverId> {
        Seq::new(
            self.mutation_observers().len(),
            |i: int| self.mutation_observers()[i].identity(),
        )
    }

    /// The IDs of the intersection observers.
    pub open spec fn intersection_ids(&self) -> Seq<ObserverId> {
        Seq::new(
            self.intersection_observers().len(),
            |i: int| self.intersection_observers()[i].identity(),
        )
    }

    /// The IDs of the resize observers.
    pub open spec fn resize_ids(&self) -> Seq<ObserverId> {
        Seq::new(self.resize_observers().len(), |i: int| self.resize_observers()[i].identity())
    }

    /// Whether the manager is in order: the IDs of each kind of observer
    /// rise, and the next ID lies above them all.
    pub open spec fn wf(&self) -> bool {
        &&& ids_in_order(self.mutation_ids(), self.next_id())
        &&& ids_in_order(self.intersection_ids(), self.next_id())
        &&& ids_in_order(self.resize_ids(), self.next_id())
    }

    /// Whether every mutation observer can be told of whatever records
    /// there are.
    pub open spec fn listeners_accept_all(&self) -> bool {
        forall|i: int|
            0 <= i < self.mutation_observers().len() ==> (
            #[trigger] self.mutation_observers()[i]).accepts_all()
    }

    /// Create a new observer manager: no observers, nothing pending, and
    /// the first ID is 1.
    pub fn new() -> (manager: Self)
        ensures
            manager.wf(),
            manager.next_id() == 1,
            manager.mutation_observers().len() == 0,
            manager.intersection_observers().len() == 0,
            manager.resize_observers().len() == 0,
            manager.pending().len() == 0,
    {
        ObserverManager {
            next_id: 1,
            mutation_observers: Vec::new(),
            intersection_observers: Vec::new(),
            resize_observers: Vec::new(),
            pending_mutations: Vec::new(),
        }
    }

    /// Whether an ID is left for one more observer.
    pub fn can_create(&self) -> (can: bool)
        ensures
            can == (self.next_id() < u64::MAX),
    {
        self.next_id < u64::MAX
    }

    /// Create a mutation observer, which gets the next ID.
    pub fn create_mutation_observer(&mut self, callback: M) -> (id: ObserverId)
        requires
            old(self).wf(),
            old(self).next_id() < u64::MAX,
        ensures
            final(self).wf(),
            id == old(self).next_id(),
            final(self).next_id() == id + 1,
            final(self).mutation_observers().len() == old(self).mutation_observers().len() + 1,
            final(self).mutation_observers().drop_last() == old(self).mutation_observers(),
            final(self).mutation_observers().last().is_fresh(id, callback),
            final(self).intersection_observers() == old(self).intersection_observers(),
            final(self).resize_observers() == old(self).resize_observers(),
            final(self).pending() == old(self).pending(),
    {
        let id = self.next_id;
        self.next_id = self.next_id + 1;
        let observer = MutationObserver::new(id, callback);
        self.mutation_observers.push(observer);
        assert(self.mutation_observers().drop_last() =~= old(self).mutation_observers());
        assert(self.pending() =~= old(self).pending());
        assert(self.mutation_ids().drop_last() =~= old(self).mutation_ids());
        assert forall|i: int, j: int| 0 <= i < j < self.mutation_ids().len() implies (
        #[trigger] self.mutation_ids()[i]) < (#[trigger] self.mutation_ids()[j]) by {
            assert(self.mutation_ids()[i] == old(self).mutation_ids()[i]);
            if j < self.mutation_ids().len() - 1 {
                assert(self.mutation_ids()[j] == old(self).mutation_ids()[j]);
            }
        }
        assert forall|i: int| 0 <= i < self.mutation_ids().len() implies (
        #[trigger] self.mutation_ids()[i]) < self.next_id() by {
            if i < self.mutation_ids().len() - 1 {
                assert(self.mutation_ids()[i] == old(self).mutation_ids()[i]);
            }
        }
        assert(self.intersection_ids() =~= old(self).intersection_ids());
        assert(self.resize_ids() =~= old(self).resize_ids());
        id
    }

    /// Create an intersection observer, which gets the next ID.
    pub fn create_intersection_observer(&mut self, callback: I) -> (id: ObserverId)
        requires
            old(self).wf(),
            old(self).next_id() < u64::MAX,
        ensures
            final(self).wf(),
            id == old(self).next_id(),
            final(self).next_id() == id + 1,
            final(self).intersection_observers().len() == old(self).intersection_observers().len()
                + 1,
            final(self).intersection_observers().drop_last() == old(self).intersection_observers(),
            final(self).intersection_observers().last().is_fresh(id, callback),
            final(self).mutation_observers() == old(self).mutation_observers(),
            final(self).resize_observers() == old(self).resize_observers(),
            final(self).pending() == old(self).pending(),
    {
        let id = self.next_id;
        self.next_id = self.next_id + 1;
        let observer = IntersectionObserver::new(id, callback);
        self.intersection_observers.push(observer);
        assert(self.intersection_observers().drop_last() =~= old(self).intersection_observers());
        assert(self.pending() =~= old(self).pending());
        assert forall|i: int, j: int| 0 <= i < j < self.intersection_ids().len() implies (
        #[trigger] self.intersection_ids()[i]) < (#[trigger] self.intersection_ids()[j]) by {
            assert(self.intersection_ids()[i] == old(self).intersection_ids()[i]);
            if j < self.intersection_ids().len() - 1 {
                assert(self.intersection_ids()[j] == old(self).intersection_ids()[j]);
            }
        }
        assert forall|i: int| 0 <= i < self.intersection_ids().len() implies (
        #[trigger] self.intersection_ids()[i]) < self.next_id() by {
            if i < self.intersection_ids().len() - 1 {
                assert(self.intersection_ids()[i] == old(self).intersection_ids()[i]);
            }
        }
        assert(self.mutation_ids() =~= old(self).mutation_ids());
        assert(self.resize_ids() =~= old(self).resize_ids());
        id
    }

    /// Create a resize observer, which gets the next ID.
    pub fn create_resize_observer(&mut self, callback: R) -> (id: ObserverId)
        requires
            old(self).wf(),
            old(self).next_id() < u64::MAX,
        ensures
            final(self).wf(),
            id == old(self).next_id(),
            final(self).next_id() == id + 1,
            final(self).resize_observers().len() == old(self).resize_observers().len() + 1,
            final(self).resize_observers().drop_last() == old(self).resize_observers(),
            final(self).resize_observers().last().is_fresh(id, callback),
            final(self).mutation_observers() == old(self).mutation_observers(),
            final(self).intersection_observers() == old(self).intersection_observers(),
            final(self).pending() == old(self).pending(),
    {
        let id = self.next_id;
        self.next_id = self.next_id + 1;
        let observer = ResizeObserver::new(id, callback);
        self.resize_observers.push(observer);
        assert(self.resize_observers().drop_last() =~= old(self).resize_observers());
        assert(self.pending() =~= old(self).pending());
        assert forall|i: int, j: int| 0 <= i < j < self.resize_ids().len() implies (
        #[trigger] self.resize_ids()[i]) < (#[trigger] self.resize_ids()[j]) by {
            assert(self.resize_ids()[i] == old(self).resize_ids()[i]);
            if j < self.resize_ids().len() - 1 {
                assert(self.resize_ids()[j] == old(self).resize_ids()[j]);
            }
        }
        assert forall|i: int| 0 <= i < self.resize_ids().len() implies (
        #[trigger] self.resize_ids()[i]) < self.next_id() by {
            if i < self.resize_ids().len() - 1 {
                assert(self.resize_ids()[i] == old(self).resize_ids()[i]);
            }
        }
        assert(self.mutation_ids() =~= old(self).mutation_ids());
        assert(self.intersection_ids() =~= old(self).intersection_ids());
        id
    }

    /// Get mutation observer: the one with this ID, to be changed in
    /// place.
    pub fn get_mutation_observer(&mut self, id: ObserverId) -> (found: Option<
        &mut MutationObserver<M>,
    >)
        requires
            old(self).wf(),
        ensures
            match found {
                Some(observer) => {
                    let i = old(self).mutation_ids().index_of(id);
                    &&& old(self).mutation_ids().contains(id)
                    &&& *observer == old(self).mutation_observers()[i]
                    &&& final(self).mutation_observers() == old(self).mutation_observers().update(
                        i,
                        *final(observer),
                    )
                },
                None => !old(self).mutation_ids().contains(id) && final(self).mutation_observers()
                    == old(self).mutation_observers(),
            },
            final(self).next_id() == old(self).next_id(),
            final(self).intersection_observers() == old(self).intersection_observers(),
            final(self).resize_observers() == old(self).resize_observers(),
            final(self).pending() == old(self).pending(),
    {
        let mut i: usize = 0;
        while i < self.mutation_observers.len() && self.mutation_observers[i].id() != id
            invariant
                i <= self.mutation_observers@.len(),
                *self == *old(self),
                forall|j: int| 0 <= j < i ==> self.mutation_ids()[j] != id,
            decreases self.mutation_observers@.len() - i,
        {
            i = i + 1;
        }
        if i < self.mutation_observers.len() {
            proof {
                let ids = self.mutation_ids();
                assert(ids[i as int] == id);
                let k = ids.index_of(id);
                if k < i {
                    assert(ids[k] < ids[i as int]);
                } else if k > i {
                    assert(ids[i as int] < ids[k]);
                }
            }
            Some(&mut self.mutation_observers[i])
        } else {
            None
        }
    }

    /// Get intersection observer: the one with this ID, to be changed in
    /// place.
    pub fn get_intersection_observer(&mut self, id: ObserverId) -> (found: Option<
        &mut IntersectionObserver<I>,
    >)
        requires
            old(self).wf(),
        ensures
            match found {
                Some(observer) => {
                    let i = old(self).intersection_ids().index_of(id);
                    &&& old(self).intersection_ids().contains(id)
                    &&& *observer == old(self).intersection_observers()[i]
                    &&& final(self).intersection_observers() == old(self).intersection_observers().update(i, *final(observer))
                },
                None => !old(self).intersection_ids().contains(id) && final(self).intersection_observers() == old(self).intersection_observers(),
            },
            final(self).next_id() == old(self).next_id(),
            final(self).mutation_observers() == old(self).mutation_observers(),
            final(self).resize_observers() == old(self).resize_observers(),
            final(self).pending() == old(self).pending(),
    {
        let mut i: usize = 0;
        while i < self.intersection_observers.len() && self.intersection_observers[i].id() != id
            invariant
                i <= self.intersection_observers@.len(),
                *self == *old(self),
                forall|j: int| 0 <= j < i ==> self.intersection_ids()[j] != id,
            decreases self.intersection_observers@.len() - i,
        {
            i = i + 1;
        }
        if i < self.intersection_observers.len() {
            proof {
                let ids = self.intersection_ids();
                assert(ids[i as int] == id);
                let k = ids.index_of(id);
                if k < i {
                    assert(ids[k] < ids[i as int]);
                } else if k > i {
                    assert(ids[i as int] < ids[k]);
                }
            }
            Some(&mut self.intersection_observers[i])
        } else {
            None
        }
    }

    /// Get resize observer: the one with this ID, to be changed in place.
    pub fn get_resize_observer(&mut self, id: ObserverId) -> (found: Option<&mut ResizeObserver<R>>)
        requires
            old(self).wf(),
        ensures
            match found {
                Some(observer) => {
                    let i = old(self).resize_ids().index_of(id);
                    &&& old(self).resize_ids().contains(id)
                    &&& *observer == old(self).resize_observers()[i]
                    &&& final(self).resize_observers() == old(self).resize_observers().update(
                        i,
                        *final(observer),
                    )
                },
                None => !old(self).resize_ids().contains(id) && final(self).resize_observers()
                    == old(self).resize_observers(),
            },
            final(self).next_id() == old(self).next_id(),
            final(self).mutation_observers() == old(self).mutation_observers(),
            final(self).intersection_observers() == old(self).intersection_observers(),
            final(self).pending() == old(self).pending(),
    {
        let mut i: usize = 0;
        while i < self.resize_observers.len() && self.resize_observers[i].id() != id
            invariant
                i <= self.resize_observers@.len(),
                *self == *old(self),
                forall|j: int| 0 <= j < i ==> self.resize_ids()[j] != id,
            decreases self.resize_observers@.len() - i,
        {
            i = i + 1;
        }
        if i < self.resize_observers.len() {
            proof {
                let ids = self.resize_ids();
                assert(ids[i as int] == id);
                let k = ids.index_of(id);
                if k < i {
                    assert(ids[k] < ids[i as int]);
                } else if k > i {
                    assert(ids[i as int] < ids[k]);
                }
            }
            Some(&mut self.resize_observers[i])
        } else {
            None
        }
    }

    /// Record a mutation: the record is put by, once for each mutation
    /// observer that watches the node.
    pub fn record_mutation(&mut self, node_id: u64, record: MutationRecord)
        ensures
            final(self).pending() == old(self).pending() + recorded(
                old(self).mutation_observers(),
                node_id,
                record@,
                old(self).mutation_observers().len() as int,
            ),
            final(self).next_id() == old(self).next_id(),
            final(self).mutation_observers() == old(self).mutation_observers(),
            final(self).intersection_observers() == old(self).intersection_observers(),
            final(self).resize_observers() == old(self).resize_observers(),
    {
        let mut i: usize = 0;
        while i < self.mutation_observers.len()
            invariant
                i <= self.mutation_observers@.len(),
                self.next_id() == old(self).next_id(),
                self.mutation_observers() == old(self).mutation_observers(),
                self.intersection_observers() == old(self).intersection_observers(),
                self.resize_observers() == old(self).resize_observers(),
                self.pending() == old(self).pending() + recorded(
                    self.mutation_observers(),
                    node_id,
                    record@,
                    i as int,
                ),
            decreases self.mutation_observers@.len() - i,
        {
            let ghost before = self.pending();
            if self.mutation_observers[i].is_observing(node_id) {
                let observer_id = self.mutation_observers[i].id();
                self.pending_mutations.push((observer_id, record.clone()));
                assert(self.pending() =~= before.push((observer_id, record@)));
            }
            assert(self.pending() =~= old(self).pending() + recorded(
                self.mutation_observers(),
                node_id,
                record@,
                i as int + 1,
            ));
            i = i + 1;
        }
    }

    /// The pending records that are meant for an observer, in their
    /// order.
    pub fn pending_records_for(&self, id: ObserverId) -> (records: Vec<MutationRecord>)
        ensures
            record_views(records@) == records_for(self.pending(), id, self.pending().len() as int),
    {
        let mut records: Vec<MutationRecord> = Vec::new();
        let mut i: usize = 0;
        while i < self.pending_mutations.len()
            invariant
                i <= self.pending_mutations@.len(),
                self.pending().len() == self.pending_mutations@.len(),
                record_views(records@) == records_for(self.pending(), id, i as int),
            decreases self.pending_mutations@.len() - i,
        {
            let ghost before = record_views(records@);
            if self.pending_mutations[i].0 == id {
                records.push(self.pending_mutations[i].1.clone());
                assert(record_views(records@) =~= before.push(self.pending()[i as int].1));
            }
            i = i + 1;
        }
        records
    }

    /// Flush pending mutations: each mutation observer for which records
    /// wait is told of them, in their order and in one call, and nothing
    /// is pending any more.
    pub fn flush_mutations(&mut self)
        requires
            old(self).listeners_accept_all(),
        ensures
            final(self).pending().len() == 0,
            final(self).next_id() == old(self).next_id(),
            final(self).mutation_observers() == old(self).mutation_observers(),
            final(self).intersection_observers() == old(self).intersection_observers(),
            final(self).resize_observers() == old(self).resize_observers(),
            forall|i: int|
                #![trigger final(self).mutation_observers()[i]]
                0 <= i < old(self).mutation_observers().len() ==> {
                    let observer = old(self).mutation_observers()[i];
                    let records = records_for(
                        old(self).pending(),
                        observer.identity(),
                        old(self).pending().len() as int,
                    );
                    records.len() > 0 ==> observer.told(records)
                },
    {
        let mut i: usize = 0;
        while i < self.mutation_observers.len()
            invariant
                i <= self.mutation_observers@.len(),
                *self == *old(self),
                self.listeners_accept_all(),
                forall|j: int|
                    #![trigger self.mutation_observers()[j]]
                    0 <= j < i ==> {
                        let observer = self.mutation_observers()[j];
                        let records = records_for(
                            self.pending(),
                            observer.identity(),
                            self.pending().len() as int,
                        );
                        records.len() > 0 ==> observer.told(records)
                    },
            decreases self.mutation_observers@.len() - i,
        {
            let id = self.mutation_observers[i].id();
            let records = self.pending_records_for(id);
            if records.len() > 0 {
                let told = records.as_slice();
                assert(self.mutation_observers()[i as int].accepts_all());
                assert(call_requires(self.mutation_observers()[i as int].listener(), (told,)));
                self.mutation_observers[i].notify(told);
                assert(record_views(told@) == record_views(records@));
            }
            i = i + 1;
        }
        self.pending_mutations.clear();
    }

    /// Disconnect all observers: none watches anything any more, and
    /// nothing is pending.
    pub fn disconnect_all(&mut self)
        ensures
            final(self).pending().len() == 0,
            final(self).next_id() == old(self).next_id(),
            final(self).mutation_observers().len() == old(self).mutation_observers().len(),
            final(self).intersection_observers().len() == old(self).intersection_observers().len(),
            final(self).resize_observers().len() == old(self).resize_observers().len(),
            final(self).mutation_ids() == old(self).mutation_ids(),
            final(self).intersection_ids() == old(self).intersection_ids(),
            final(self).resize_ids() == old(self).resize_ids(),
            forall|i: int|
                0 <= i < final(self).mutation_observers().len() ==> {
                    let after = #[trigger] final(self).mutation_observers()[i];
                    let before = old(self).mutation_observers()[i];
                    &&& after.observed() == Set::<u64>::empty()
                    &&& after.listener() == before.listener()
                    &&& after.configuration() == before.configuration()
                },
            forall|i: int|
                0 <= i < final(self).intersection_observers().len() ==> {
                    let after = #[trigger] final(self).intersection_observers()[i];
                    let before = old(self).intersection_observers()[i];
                    after.observed() == Set::<u64>::empty() && after.same_settings(&before)
                },
            forall|i: int|
                0 <= i < final(self).resize_observers().len() ==> {
                    let after = #[trigger] final(self).resize_observers()[i];
                    let before = old(self).resize_observers()[i];
                    &&& after.sizes() == Map::<u64, ResizeObserverSize>::empty()
                    &&& after.listener() == before.listener()
                },
    {
        disconnect_mutation_observers(&mut self.mutation_observers);
        disconnect_intersection_observers(&mut self.intersection_observers);
        disconnect_resize_observers(&mut self.resize_observers);
        self.pending_mutations.clear();
        assert(self.mutation_ids() =~= old(self).mutation_ids());
        assert(self.intersection_ids() =~= old(self).intersection_ids());
        assert(self.resize_ids() =~= old(self).resize_ids());
    }
}

impl<
    M: Fn(&[MutationRecord]),
    I: Fn(&[IntersectionObserverEntry]),
    R: Fn(&[ResizeObserverEntry]),
> Default for ObserverManager<M, I, R> {
    fn default() -> (manager: Self)
        ensures
            manager.wf(),
            manager.next_id() == 1,
            manager.mutation_observers().len() == 0,
            manager.intersection_observers().len() == 0,
            manager.resize_observers().len() == 0,
            manager.pending().len() == 0,
    {
        ObserverManager::new()
    }
}

} // verus!
