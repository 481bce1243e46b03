//! Box model geometry.

use vstd::prelude::*;
use crate::css::{Unit, Value};
use crate::layout::sums::max_int;
use crate::style::{Display, StyledNode};

pub mod containers;
pub mod flexbox;
pub mod grid;
pub mod positioning;
pub mod sums;

verus! {

/// Largest magnitude of a coordinate, a length or a weight that the layout
/// functions accept. Sums over a bounded number of such values stay inside
/// `i64`.
pub const MAX_LENGTH: i64 = 68_719_476_736;

/// Largest number of items, tracks or boxes that one layout call accepts.
pub const MAX_COUNT: usize = 1_048_576;

/// Whether `v` lies in `[-MAX_LENGTH, MAX_LENGTH]`.
pub open spec fn in_range(v: i64) -> bool {
    -MAX_LENGTH <= v <= MAX_LENGTH
}

/// Rectangle dimensions
#[derive(Debug, Clone, Copy, PartialEq, Eq, Structural)]
pub struct Rect {
    pub x: i64,
    pub y: i64,
    pub width: i64,
    pub height: i64,
}

/// Edge sizes (margin, border, padding)
#[derive(Debug, Clone, Copy, PartialEq, Eq, Structural)]
pub struct EdgeSizes {
    pub left: i64,
    pub right: i64,
    pub top: i64,
    pub bottom: i64,
}

/// CSS box model dimensions
#[derive(Debug, Clone, Copy, PartialEq, Eq, Structural)]
pub struct Dimensions {
    pub content: Rect,
    pub padding: EdgeSizes,
    pub border: EdgeSizes,
    pub margin: EdgeSizes,
}

impl Rect {
    /// The rectangle whose four fields are zero.
    pub open spec fn zero() -> Rect {
        Rect { x: 0, y: 0, width: 0, height: 0 }
    }

    /// Every field lies in `[-MAX_LENGTH, MAX_LENGTH]`.
    pub open spec fn bounded(self) -> bool {
        in_range(self.x) && in_range(self.y) && in_range(self.width) && in_range(self.height)
    }

    /// Width and height are not negative.
    pub open spec fn non_negative(self) -> bool {
        self.width >= 0 && self.height >= 0
    }

    /// The coordinate just past the right edge.
    pub open spec fn right(self) -> int {
        self.x + self.width
    }

    /// The coordinate just past the bottom edge.
    pub open spec fn bottom(self) -> int {
        self.y + self.height
    }

    /// Width times height.
    pub open spec fn area(self) -> int {
        self.width * self.height
    }

    /// `inner` lies inside `self`, edges included.
    pub open spec fn encloses(self, inner: Rect) -> bool {
        self.x <= inner.x && self.y <= inner.y && inner.right() <= self.right() && inner.bottom()
            <= self.bottom()
    }

    /// The four sums of an expansion all fit in `i64`.
    pub open spec fn can_expand(self, edge: EdgeSizes) -> bool {
        &&& i64::MIN <= self.x - edge.left <= i64::MAX
        &&& i64::MIN <= self.y - edge.top <= i64::MAX
        &&& i64::MIN <= self.width + edge.left + edge.right <= i64::MAX
        &&& i64::MIN <= self.width + edge.left <= i64::MAX
        &&& i64::MIN <= self.height + edge.top + edge.bottom <= i64::MAX
        &&& i64::MIN <= self.height + edge.top <= i64::MAX
    }

    /// The rectangle grown by `edge` on each side: the origin moves up and
    /// left, the size takes both edges of each axis.
    pub open spec fn expand(self, edge: EdgeSizes) -> Rect {
        Rect {
            x: (self.x - edge.left) as i64,
            y: (self.y - edge.top) as i64,
            width: (self.width + edge.left + edge.right) as i64,
            height: (self.height + edge.top + edge.bottom) as i64,
        }
    }

    pub fn expanded_by(self, edge: EdgeSizes) -> (r: Rect)
        requires
            self.can_expand(edge),
        ensures
            r == self.expand(edge),
            r.x == self.x - edge.left,
            r.y == self.y - edge.top,
            r.width == self.width + edge.left + edge.right,
            r.height == self.height + edge.top + edge.bottom,
    {
        Rect {
            x: self.x - edge.left,
            y: self.y - edge.top,
            width: self.width + edge.left + edge.right,
            height: self.height + edge.top + edge.bottom,
        }
    }
}

impl Default for Rect {
    fn default() -> (r: Rect)
        ensures
            r == Rect::zero(),
    {
        Rect { x: 0, y: 0, width: 0, height: 0 }
    }
}

impl EdgeSizes {
    /// The edges whose four sizes are zero.
    pub open spec fn zero() -> EdgeSizes {
        EdgeSizes { left: 0, right: 0, top: 0, bottom: 0 }
    }

    /// Every size lies in `[-MAX_LENGTH, MAX_LENGTH]`.
    pub open spec fn bounded(self) -> bool {
        in_range(self.left) && in_range(self.right) && in_range(self.top) && in_range(self.bottom)
    }

    /// No size is negative.
    pub open spec fn non_negative(self) -> bool {
        self.left >= 0 && self.right >= 0 && self.top >= 0 && self.bottom >= 0
    }
}

impl Default for EdgeSizes {
    fn default() -> (e: EdgeSizes)
        ensures
            e == EdgeSizes::zero(),
    {
        EdgeSizes { left: 0, right: 0, top: 0, bottom: 0 }
    }
}

impl Dimensions {
    /// The dimensions whose every field is zero.
    pub open spec fn zero() -> Dimensions {
        Dimensions {
            content: Rect::zero(),
            padding: EdgeSizes::zero(),
            border: EdgeSizes::zero(),
            margin: EdgeSizes::zero(),
        }
    }

    /// Every field lies in `[-MAX_LENGTH, MAX_LENGTH]`.
    pub open spec fn bounded(self) -> bool {
        self.content.bounded() && self.padding.bounded() && self.border.bounded()
            && self.margin.bounded()
    }

    /// No edge is negative.
    pub open spec fn edges_non_negative(self) -> bool {
        self.padding.non_negative() && self.border.non_negative() && self.margin.non_negative()
    }

    /// The content rectangle grown by the padding.
    pub open spec fn spec_padding_box(self) -> Rect {
        self.content.expand(self.padding)
    }

    /// The padding box grown by the border.
    pub open spec fn spec_border_box(self) -> Rect {
        self.spec_padding_box().expand(self.border)
    }

    /// The border box grown by the margin.
    pub open spec fn spec_margin_box(self) -> Rect {
        self.spec_border_box().expand(self.margin)
    }

    /// Every sum that the three boxes take fits in `i64`. Bounded
    /// dimensions have that.
    pub open spec fn boxes_fit(self) -> bool {
        &&& self.content.can_expand(self.padding)
        &&& self.spec_padding_box().can_expand(self.border)
        &&& self.spec_border_box().can_expand(self.margin)
    }

    /// Area covered by the content plus its padding
    pub fn padding_box(&self) -> (r: Rect)
        requires
            self.boxes_fit(),
        ensures
            r == self.spec_padding_box(),
            r.x == self.content.x - self.padding.left,
            r.y == self.content.y - self.padding.top,
            r.width == self.content.width + self.padding.left + self.padding.right,
            r.height == self.content.height + self.padding.top + self.padding.bottom,
    {
        self.content.expanded_by(self.padding)
    }

    /// Area covered by the content plus padding and borders
    pub fn border_box(&self) -> (r: Rect)
        requires
            self.boxes_fit(),
        ensures
            r == self.spec_border_box(),
            r.x == self.content.x - self.padding.left - self.border.left,
            r.y == self.content.y - self.padding.top - self.border.top,
            r.width == self.content.width + self.padding.left + self.padding.right
                + self.border.left + self.border.right,
            r.height == self.content.height + self.padding.top + self.padding.bottom
                + self.border.top + self.border.bottom,
    {
        self.padding_box().expanded_by(self.border)
    }

    /// Area covered by the content plus padding, borders, and margin
    pub fn margin_box(&self) -> (r: Rect)
        requires
            self.boxes_fit(),
        ensures
            r == self.spec_margin_box(),
            r.x == self.content.x - self.padding.left - self.border.left - self.margin.left,
            r.y == self.content.y - self.padding.top - self.border.top - self.margin.top,
            r.width == self.content.width + self.padding.left + self.padding.right
                + self.border.left + self.border.right + self.margin.left + self.margin.right,
            r.height == self.content.height + self.padding.top + self.padding.bottom
                + self.border.top + self.border.bottom + self.margin.top + self.margin.bottom,
    {
        self.border_box().expanded_by(self.margin)
    }

    /// Bounded dimensions can take their three boxes.
    pub proof fn lemma_bounded_fits(self)
        requires
            self.bounded(),
        ensures
            self.boxes_fit(),
    {
    }

    /// With no negative edge, each box of the model encloses the one before
    /// it: the margin box the border box, the border box the padding box, the
    /// padding box the content.
    pub proof fn lemma_boxes_nested(self)
        requires
            self.bounded(),
            self.edges_non_negative(),
        ensures
            self.spec_padding_box().encloses(self.content),
            self.spec_border_box().encloses(self.spec_padding_box()),
            self.spec_margin_box().encloses(self.spec_border_box()),
    {
    }

    /// With no negative edge and a content rectangle of non-negative size,
    /// the areas of the four boxes grow from the content outwards.
    pub proof fn lemma_box_areas_grow(self)
        requires
            self.bounded(),
            self.edges_non_negative(),
            self.content.non_negative(),
        ensures
            self.content.area() <= self.spec_padding_box().area(),
            self.spec_padding_box().area() <= self.spec_border_box().area(),
            self.spec_border_box().area() <= self.spec_margin_box().area(),
    {
        let c = self.content;
        let p = self.spec_padding_box();
        let b = self.spec_border_box();
        let m = self.spec_margin_box();
        lemma_area_monotone(c.width as int, c.height as int, p.width as int, p.height as int);
        lemma_area_monotone(p.width as int, p.height as int, b.width as int, b.height as int);
        lemma_area_monotone(b.width as int, b.height as int, m.width as int, m.height as int);
    }
}

impl Default for Dimensions {
    fn default() -> (d: Dimensions)
        ensures
            d == Dimensions::zero(),
    {
        Dimensions {
            content: Rect { x: 0, y: 0, width: 0, height: 0 },
            padding: EdgeSizes { left: 0, right: 0, top: 0, bottom: 0 },
            border: EdgeSizes { left: 0, right: 0, top: 0, bottom: 0 },
            margin: EdgeSizes { left: 0, right: 0, top: 0, bottom: 0 },
        }
    }
}

/// A rectangle that is no smaller on either axis has no smaller area.
pub proof fn lemma_area_monotone(w1: int, h1: int, w2: int, h2: int)
    requires
        0 <= w1 <= w2,
        0 <= h1 <= h2,
    ensures
        w1 * h1 <= w2 * h2,
{
    assert(w1 * h1 <= w2 * h1) by (nonlinear_arith)
        requires
            0 <= w1 <= w2,
            0 <= h1,
    ;
    assert(w2 * h1 <= w2 * h2) by (nonlinear_arith)
        requires
            0 <= w2,
            0 <= h1 <= h2,
    ;
}

/// Largest reach of a containing block that the box tree accepts, with the
/// reach budget of the boxes of the tree added.
pub const REACH_LIMIT: i64 = 0x1000_0000_0000_0000;

/// What `boxes` boxes can add to the reach of their containing block: ten
/// times `MAX_LENGTH` for each.
pub open spec fn reach_budget(boxes: nat) -> int {
    687_194_767_360 * (boxes as int)
}

/// What `boxes` boxes can add to the height of their parent: seven times
/// `MAX_LENGTH` for each.
pub open spec fn height_budget(boxes: nat) -> int {
    481_036_337_152 * (boxes as int)
}

/// The numbers that block layout reads from the style of a node.
#[derive(Debug, Clone, Copy)]
pub struct BoxStyle {
    /// The width; `None` for `auto`
    pub width: Option<i64>,
    /// The height, where it is set in pixels
    pub height: Option<i64>,
    pub margin: EdgeSizes,
    pub border: EdgeSizes,
    pub padding: EdgeSizes,
}

/// Whether a box stands for a block node, an inline node or no node.
#[derive(Debug, Clone, Copy, PartialEq, Eq, Structural)]
pub enum BoxKind {
    Block,
    Inline,
    Anonymous,
}

/// A box of the tree as a mathematical value: its dimensions, what it
/// stands for, the style numbers of its node, and its children in order.
pub struct BoxModel {
    pub dimensions: Dimensions,
    pub kind: BoxKind,
    pub style: Option<BoxStyle>,
    pub children: Seq<BoxModel>,
}

impl BoxStyle {
    /// Every number lies in `[-MAX_LENGTH, MAX_LENGTH]`.
    pub open spec fn bounded(self) -> bool {
        &&& match self.width {
            Some(w) => in_range(w),
            None => true,
        }
        &&& match self.height {
            Some(h) => in_range(h),
            None => true,
        }
        &&& self.margin.bounded()
        &&& self.border.bounded()
        &&& self.padding.bounded()
    }

    /// The six horizontal edges together.
    pub open spec fn horizontal_edges(self) -> int {
        self.margin.left + self.margin.right + self.border.left + self.border.right
            + self.padding.left + self.padding.right
    }

    /// The content width in a containing block: the width that is set, or
    /// for `auto` what the horizontal edges leave of the width of the
    /// containing block; never less than zero.
    pub open spec fn content_width(self, containing: Dimensions) -> int {
        match self.width {
            Some(w) => max_int(w as int, 0),
            None => max_int(containing.content.width - self.horizontal_edges(), 0),
        }
    }

    /// The x coordinate of the content box: behind the left margin, border
    /// and padding, from the left edge of the containing block.
    pub open spec fn content_x(self, containing: Dimensions) -> int {
        containing.content.x + self.margin.left + self.border.left + self.padding.left
    }

    /// The y coordinate of the content box: below the content that the
    /// containing block holds already, and the top margin, border and
    /// padding.
    pub open spec fn content_y(self, containing: Dimensions) -> int {
        containing.content.y + containing.content.height + self.margin.top + self.border.top
            + self.padding.top
    }

    /// The content height: the height that is set, else the height of the
    /// stacked children; never less than zero.
    pub open spec fn content_height(self, stacked: int) -> int {
        match self.height {
            Some(h) => max_int(h as int, 0),
            None => max_int(stacked, 0),
        }
    }
}

/// The height of the margin box.
pub open spec fn outer_height(d: Dimensions) -> int {
    d.content.height + d.padding.top + d.padding.bottom + d.border.top + d.border.bottom
        + d.margin.top + d.margin.bottom
}

/// The dimensions with another content height.
pub open spec fn with_height(d: Dimensions, height: i64) -> Dimensions {
    Dimensions {
        content: Rect { x: d.content.x, y: d.content.y, width: d.content.width, height },
        padding: d.padding,
        border: d.border,
        margin: d.margin,
    }
}

/// The absolute value.
pub open spec fn magnitude(v: int) -> int {
    max_int(v, -v)
}

/// How far the content box of a containing block reaches on either axis:
/// the larger of `|x| + |width|` and `|y| + |height|`.
pub open spec fn reach(d: Dimensions) -> int {
    max_int(
        magnitude(d.content.x as int) + magnitude(d.content.width as int),
        magnitude(d.content.y as int) + magnitude(d.content.height as int),
    )
}

/// The number of boxes in a tree.
pub open spec fn weight(m: BoxModel) -> nat
    decreases m, 0nat,
{
    1 + weights(m.children, m.children.len() as int)
}

/// The number of boxes in the trees of the first `k` boxes.
pub open spec fn weights(boxes: Seq<BoxModel>, k: int) -> nat
    decreases boxes, k,
{
    if k <= 0 || k > boxes.len() {
        0
    } else {
        weights(boxes, k - 1) + weight(boxes[k - 1])
    }
}

/// Every styled box of the tree has bounded style numbers, and every box
/// without a style has bounded dimensions.
pub open spec fn within_limits(m: BoxModel) -> bool
    decreases m,
{
    &&& match m.style {
        Some(s) => s.bounded(),
        None => m.dimensions.bounded(),
    }
    &&& forall|i: int| 0 <= i < m.children.len() ==> within_limits(#[trigger] m.children[i])
}

/// Every box of the tree has coordinates and sizes of at most
/// `REACH_LIMIT` in magnitude and bounded edges, so that its padding,
/// border and margin boxes can be taken.
pub open spec fn within_reach(m: BoxModel) -> bool
    decreases m,
{
    &&& magnitude(m.dimensions.content.x as int) <= REACH_LIMIT
    &&& magnitude(m.dimensions.content.y as int) <= REACH_LIMIT
    &&& magnitude(m.dimensions.content.width as int) <= REACH_LIMIT
    &&& magnitude(m.dimensions.content.height as int) <= REACH_LIMIT
    &&& m.dimensions.padding.bounded()
    &&& m.dimensions.border.bounded()
    &&& m.dimensions.margin.bounded()
    &&& forall|i: int| 0 <= i < m.children.len() ==> within_reach(#[trigger] m.children[i])
}

/// A box within reach can take its padding, border and margin boxes.
pub proof fn lemma_within_reach_fits(m: BoxModel)
    requires
        within_reach(m),
    ensures
        m.dimensions.boxes_fit(),
{
}

/// The heights of the margin boxes of `boxes`, added up.
pub open spec fn stacked_height(boxes: Seq<BoxModel>) -> int
    decreases boxes.len(),
{
    if boxes.len() == 0 {
        0
    } else {
        stacked_height(boxes.drop_last()) + outer_height(boxes.last().dimensions)
    }
}

/// The dimensions of a box once its width and position are settled, with
/// no content height yet. A box without a style keeps its width, position
/// and edges.
pub open spec fn placed(m: BoxModel, containing: Dimensions) -> Dimensions {
    match m.style {
        Some(s) => Dimensions {
            content: Rect {
                x: s.content_x(containing) as i64,
                y: s.content_y(containing) as i64,
                width: s.content_width(containing) as i64,
                height: 0,
            },
            padding: s.padding,
            border: s.border,
            margin: s.margin,
        },
        None => with_height(m.dimensions, 0),
    }
}

/// The content height of a box whose children stack to `stacked`.
pub open spec fn settled_height(style: Option<BoxStyle>, stacked: int) -> int {
    match style {
        Some(s) => s.content_height(stacked),
        None => max_int(stacked, 0),
    }
}

/// The box tree after layout in a containing block.
///
/// The width and the position of a box come from its style and the
/// containing block. Its children are laid out in order, each in the
/// content box of this box, below the children before it. The content
/// height is the height that is set, else what the children stack to.
pub open spec fn laid_out(m: BoxModel, containing: Dimensions) -> BoxModel
    decreases m, 0nat,
{
    let d = placed(m, containing);
    let children = laid_out_children(m.children, d, m.children.len() as int);
    BoxModel {
        dimensions: with_height(d, settled_height(m.style, stacked_height(children)) as i64),
        kind: m.kind,
        style: m.style,
        children,
    }
}

/// The first `k` of `boxes` after layout, each in `d` with the content
/// height that the boxes before it stack to.
pub open spec fn laid_out_children(boxes: Seq<BoxModel>, d: Dimensions, k: int) -> Seq<BoxModel>
    decreases boxes, k,
{
    if k <= 0 || k > boxes.len() {
        Seq::empty()
    } else {
        let before = laid_out_children(boxes, d, k - 1);
        before.push(laid_out(boxes[k - 1], with_height(d, stacked_height(before) as i64)))
    }
}

/// Type of box (block, inline, or anonymous)
#[derive(Debug, Clone, Copy)]
pub enum BoxType<'a> {
    BlockNode(&'a StyledNode<'a>),
    InlineNode(&'a StyledNode<'a>),
    AnonymousBlock,
}

/// A box in the layout tree
#[derive(Debug)]
pub struct LayoutBox<'a> {
    pub dimensions: Dimensions,
    pub box_type: BoxType<'a>,
    pub children: Vec<LayoutBox<'a>>,
}

impl<'a> BoxType<'a> {
    /// What the box stands for.
    pub open spec fn kind(self) -> BoxKind {
        match self {
            BoxType::BlockNode(_) => BoxKind::Block,
            BoxType::InlineNode(_) => BoxKind::Inline,
            BoxType::AnonymousBlock => BoxKind::Anonymous,
        }
    }

    /// The style numbers of the node that the box stands for.
    pub open spec fn style(self) -> Option<BoxStyle> {
        match self {
            BoxType::BlockNode(node) => Some(node.box_style()),
            BoxType::InlineNode(node) => Some(node.box_style()),
            BoxType::AnonymousBlock => None,
        }
    }
}

/// The box tree as a mathematical value.
pub open spec fn model_of(b: LayoutBox) -> BoxModel
    decreases b, 0nat,
{
    BoxModel {
        dimensions: b.dimensions,
        kind: b.box_type.kind(),
        style: b.box_type.style(),
        children: models(b.children@, b.children@.len() as int),
    }
}

/// The first `k` box trees as mathematical values.
pub open spec fn models(boxes: Seq<LayoutBox>, k: int) -> Seq<BoxModel>
    decreases boxes, k,
{
    if k <= 0 || k > boxes.len() {
        Seq::empty()
    } else {
        models(boxes, k - 1).push(model_of(boxes[k - 1]))
    }
}

impl<'a> View for LayoutBox<'a> {
    type V = BoxModel;

    open spec fn view(&self) -> BoxModel {
        model_of(*self)
    }
}

/// The models of the first `k` boxes are `k` models, one for each box.
pub proof fn lemma_models(boxes: Seq<LayoutBox>, k: int)
    requires
        0 <= k <= boxes.len(),
    ensures
        models(boxes, k).len() == k,
        forall|j: int| 0 <= j < k ==> #[trigger] models(boxes, k)[j] == model_of(boxes[j]),
    decreases k,
{
    if k > 0 {
        lemma_models(boxes, k - 1);
    }
}

/// Two lists of boxes that agree on their first `k` boxes have the same
/// first `k` models.
pub proof fn lemma_models_agree(a: Seq<LayoutBox>, b: Seq<LayoutBox>, k: int)
    requires
        0 <= k <= a.len(),
        0 <= k <= b.len(),
        forall|j: int| 0 <= j < k ==> model_of(#[trigger] a[j]) == model_of(b[j]),
    ensures
        models(a, k) == models(b, k),
    decreases k,
{
    if k > 0 {
        lemma_models_agree(a, b, k - 1);
    }
}

/// The first boxes of a list hold no more boxes than more of them do, and
/// each box holds no more than the list up to it.
pub proof fn lemma_weights_grow(boxes: Seq<BoxModel>, a: int, b: int)
    requires
        0 <= a <= b <= boxes.len(),
    ensures
        weights(boxes, a) <= weights(boxes, b),
        a < b ==> weights(boxes, a) + weight(boxes[a]) <= weights(boxes, b),
    decreases b - a,
{
    if a < b {
        lemma_weights_grow(boxes, a, b - 1);
    }
}

/// The layouts of the first `k` children are `k` boxes, and those of one
/// child more are the same boxes and one more.
pub proof fn lemma_laid_out_children(boxes: Seq<BoxModel>, d: Dimensions, k: int)
    requires
        0 <= k <= boxes.len(),
    ensures
        laid_out_children(boxes, d, k).len() == k,
        k > 0 ==> laid_out_children(boxes, d, k).drop_last() == laid_out_children(boxes, d, k - 1),
    decreases k,
{
    if k > 0 {
        lemma_laid_out_children(boxes, d, k - 1);
        assert(laid_out_children(boxes, d, k).drop_last() =~= laid_out_children(boxes, d, k - 1));
    }
}

/// CSS value in pixels: the number of a pixel length or of a bare number,
/// zero for every other value.
fn to_px(value: &Value) -> (px: i64)
    ensures
        px == value.px(),
{
    match value {
        Value::Length(length, Unit::Px) => *length,
        Value::Number(n) => *n,
        _ => 0,
    }
}

/// The length that a node has under `name`, else under `fallback_name`,
/// else zero.
fn edge_length(style: &StyledNode, name: &str, fallback_name: &str) -> (px: i64)
    ensures
        px == style.length(name@, fallback_name@),
{
    let zero = Value::Length(0, Unit::Px);
    let value = style.lookup(name, fallback_name, &zero);
    to_px(&value)
}

impl<'a> LayoutBox<'a> {
    /// Create a new layout box
    fn new(box_type: BoxType<'a>) -> (b: LayoutBox<'a>)
        ensures
            b.dimensions == Dimensions::zero(),
            b.box_type == box_type,
            b.children@.len() == 0,
    {
        LayoutBox { box_type, dimensions: Dimensions::default(), children: Vec::new() }
    }

    /// Get the styled node for this box
    fn get_styled_node(&self) -> (node: Option<&'a StyledNode<'a>>)
        ensures
            match node {
                Some(n) => self.box_type.style() == Some(n.box_style()),
                None => self.box_type.style().is_none(),
            },
    {
        match &self.box_type {
            BoxType::BlockNode(node) => Some(*node),
            BoxType::InlineNode(node) => Some(*node),
            BoxType::AnonymousBlock => None,
        }
    }

    /// Lay out a box and its descendants.
    ///
    /// Inline and anonymous boxes are laid out as blocks are.
    pub fn layout(&mut self, containing_block: Dimensions)
        requires
            within_limits(old(self)@),
            reach(containing_block) + reach_budget(weight(old(self)@)) <= REACH_LIMIT,
        ensures
            final(self)@ == laid_out(old(self)@, containing_block),
            final(self).box_type == old(self).box_type,
            final(self).dimensions.padding.bounded(),
            final(self).dimensions.border.bounded(),
            final(self).dimensions.margin.bounded(),
            0 <= final(self).dimensions.content.height,
            final(self).dimensions.content.height + 6 * MAX_LENGTH <= height_budget(
                weight(old(self)@),
            ),
            -height_budget(weight(old(self)@)) <= outer_height(final(self).dimensions)
                <= height_budget(weight(old(self)@)),
            within_reach(final(self)@),
        decreases weight(old(self)@), 2nat,
    {
        self.layout_block(containing_block)
    }

    /// Lay out a block-level element
    fn layout_block(&mut self, containing_block: Dimensions)
        requires
            within_limits(old(self)@),
            reach(containing_block) + reach_budget(weight(old(self)@)) <= REACH_LIMIT,
        ensures
            final(self)@ == laid_out(old(self)@, containing_block),
            final(self).box_type == old(self).box_type,
            final(self).dimensions.padding.bounded(),
            final(self).dimensions.border.bounded(),
            final(self).dimensions.margin.bounded(),
            0 <= final(self).dimensions.content.height,
            final(self).dimensions.content.height + 6 * MAX_LENGTH <= height_budget(
                weight(old(self)@),
            ),
            -height_budget(weight(old(self)@)) <= outer_height(final(self).dimensions)
                <= height_budget(weight(old(self)@)),
            within_reach(final(self)@),
        decreases weight(old(self)@), 1nat,
    {
        let ghost before = self@;
        self.calculate_block_width(containing_block);
        self.calculate_block_position(containing_block);
        proof {
            lemma_models(self.children@, self.children@.len() as int);
            assert(self@.children == before.children);
            assert(with_height(self.dimensions, 0) == placed(before, containing_block));
        }
        self.layout_block_children();
        let ghost laid = self@.children;
        self.calculate_block_height();
        proof {
            lemma_models(self.children@, self.children@.len() as int);
            assert(self@.children == laid);
            assert(self@.children == laid_out(before, containing_block).children);
        }
    }

    /// Calculate width of a block box
    fn calculate_block_width(&mut self, containing_block: Dimensions)
        requires
            match old(self).box_type.style() {
                Some(s) => s.bounded(),
                None => true,
            },
            -REACH_LIMIT <= containing_block.content.width <= REACH_LIMIT,
        ensures
            final(self).box_type == old(self).box_type,
            final(self).children == old(self).children,
            final(self).dimensions == match old(self).box_type.style() {
                Some(s) => Dimensions {
                    content: Rect {
                        x: old(self).dimensions.content.x,
                        y: old(self).dimensions.content.y,
                        width: s.content_width(containing_block) as i64,
                        height: old(self).dimensions.content.height,
                    },
                    padding: EdgeSizes {
                        left: s.padding.left,
                        right: s.padding.right,
                        top: old(self).dimensions.padding.top,
                        bottom: old(self).dimensions.padding.bottom,
                    },
                    border: EdgeSizes {
                        left: s.border.left,
                        right: s.border.right,
                        top: old(self).dimensions.border.top,
                        bottom: old(self).dimensions.border.bottom,
                    },
                    margin: EdgeSizes {
                        left: s.margin.left,
                        right: s.margin.right,
                        top: old(self).dimensions.margin.top,
                        bottom: old(self).dimensions.margin.bottom,
                    },
                },
                None => old(self).dimensions,
            },
            match old(self).box_type.style() {
                Some(s) => 0 <= s.content_width(containing_block) <= magnitude(
                    containing_block.content.width as int,
                ) + 7 * MAX_LENGTH,
                None => true,
            },
    {
        let style = match self.get_styled_node() {
            Some(node) => node,
            None => return ,
        };
        let width: Option<i64> = match style.value("width") {
            Some(v) => if v.is_keyword("auto") {
                None
            } else {
                Some(to_px(v))
            },
            None => None,
        };
        let margin_left = edge_length(style, "margin-left", "margin");
        let margin_right = edge_length(style, "margin-right", "margin");
        let border_left = edge_length(style, "border-left-width", "border-width");
        let border_right = edge_length(style, "border-right-width", "border-width");
        let padding_left = edge_length(style, "padding-left", "padding");
        let padding_right = edge_length(style, "padding-right", "padding");
        let content_width: i64 = match width {
            Some(w) => if w > 0 {
                w
            } else {
                0
            },
            None => {
                let total: i64 = margin_left + margin_right + border_left + border_right
                    + padding_left + padding_right;
                let underflow: i64 = containing_block.content.width - total;
                if underflow >= 0 {
                    underflow
                } else {
                    0
                }
            },
        };
        self.dimensions.content.width = content_width;
        self.dimensions.padding.left = padding_left;
        self.dimensions.padding.right = padding_right;
        self.dimensions.border.left = border_left;
        self.dimensions.border.right = border_right;
        self.dimensions.margin.left = margin_left;
        self.dimensions.margin.right = margin_right;
    }

    /// Calculate position of a block box
    fn calculate_block_position(&mut self, containing_block: Dimensions)
        requires
            match old(self).box_type.style() {
                Some(s) => s.bounded() && old(self).dimensions.margin.left == s.margin.left && old(
                    self,
                ).dimensions.border.left == s.border.left && old(self).dimensions.padding.left
                    == s.padding.left,
                None => true,
            },
            reach(containing_block) <= REACH_LIMIT,
        ensures
            final(self).box_type == old(self).box_type,
            final(self).children == old(self).children,
            final(self).dimensions == match old(self).box_type.style() {
                Some(s) => Dimensions {
                    content: Rect {
                        x: s.content_x(containing_block) as i64,
                        y: s.content_y(containing_block) as i64,
                        width: old(self).dimensions.content.width,
                        height: old(self).dimensions.content.height,
                    },
                    padding: EdgeSizes {
                        left: old(self).dimensions.padding.left,
                        right: old(self).dimensions.padding.right,
                        top: s.padding.top,
                        bottom: s.padding.bottom,
                    },
                    border: EdgeSizes {
                        left: old(self).dimensions.border.left,
                        right: old(self).dimensions.border.right,
                        top: s.border.top,
                        bottom: s.border.bottom,
                    },
                    margin: EdgeSizes {
                        left: old(self).dimensions.margin.left,
                        right: old(self).dimensions.margin.right,
                        top: s.margin.top,
                        bottom: s.margin.bottom,
                    },
                },
                None => old(self).dimensions,
            },
            match old(self).box_type.style() {
                Some(s) => magnitude(s.content_x(containing_block)) <= magnitude(
                    containing_block.content.x as int,
                ) + 3 * MAX_LENGTH && magnitude(s.content_y(containing_block)) <= magnitude(
                    containing_block.content.y as int,
                ) + magnitude(containing_block.content.height as int) + 3 * MAX_LENGTH,
                None => true,
            },
    {
        let style = match self.get_styled_node() {
            Some(node) => node,
            None => return ,
        };
        let margin_top = edge_length(style, "margin-top", "margin");
        let margin_bottom = edge_length(style, "margin-bottom", "margin");
        let border_top = edge_length(style, "border-top-width", "border-width");
        let border_bottom = edge_length(style, "border-bottom-width", "border-width");
        let padding_top = edge_length(style, "padding-top", "padding");
        let padding_bottom = edge_length(style, "padding-bottom", "padding");
        self.dimensions.margin.top = margin_top;
        self.dimensions.margin.bottom = margin_bottom;
        self.dimensions.border.top = border_top;
        self.dimensions.border.bottom = border_bottom;
        self.dimensions.padding.top = padding_top;
        self.dimensions.padding.bottom = padding_bottom;
        let x: i64 = containing_block.content.x + self.dimensions.margin.left
            + self.dimensions.border.left + self.dimensions.padding.left;
        let y: i64 = containing_block.content.y + containing_block.content.height + margin_top
            + border_top + padding_top;
        self.dimensions.content.x = x;
        self.dimensions.content.y = y;
    }

    /// Lay out children of a block box
    fn layout_block_children(&mut self)
        requires
            forall|i: int|
                0 <= i < old(self)@.children.len() ==> within_limits(
                    #[trigger] old(self)@.children[i],
                ),
            magnitude(old(self).dimensions.content.x as int) + magnitude(
                old(self).dimensions.content.width as int,
            ) + reach_budget(weight(old(self)@)) <= REACH_LIMIT + reach_budget(1),
            magnitude(old(self).dimensions.content.y as int) + reach_budget(weight(old(self)@))
                <= REACH_LIMIT + reach_budget(1) - 3 * MAX_LENGTH,
        ensures
            final(self).box_type == old(self).box_type,
            final(self)@.children == laid_out_children(
                old(self)@.children,
                with_height(old(self).dimensions, 0),
                old(self)@.children.len() as int,
            ),
            final(self).dimensions == with_height(
                old(self).dimensions,
                stacked_height(final(self)@.children) as i64,
            ),
            -height_budget((weight(old(self)@) - 1) as nat) <= stacked_height(
                final(self)@.children,
            ) <= height_budget((weight(old(self)@) - 1) as nat),
            forall|i: int|
                0 <= i < final(self)@.children.len() ==> within_reach(
                    #[trigger] final(self)@.children[i],
                ),
        decreases weight(old(self)@), 0nat,
    {
        let ghost given = self@.children;
        let ghost start = with_height(self.dimensions, 0);
        let count = self.children.len();
        proof {
            lemma_models(self.children@, count as int);
        }
        self.dimensions.content.height = 0;
        let mut i: usize = 0;
        while i < count
            invariant
                i <= count,
                count == self.children@.len(),
                count == given.len(),
                self.box_type == old(self).box_type,
                start == with_height(old(self).dimensions, 0),
                given == old(self)@.children,
                forall|j: int| 0 <= j < given.len() ==> within_limits(#[trigger] given[j]),
                magnitude(start.content.x as int) + magnitude(start.content.width as int)
                    + reach_budget(weights(given, count as int)) <= REACH_LIMIT,
                magnitude(start.content.y as int) + reach_budget(weights(given, count as int))
                    <= REACH_LIMIT - 3 * MAX_LENGTH,
                models(self.children@, i as int) == laid_out_children(given, start, i as int),
                forall|j: int| i <= j < count ==> model_of(#[trigger] self.children@[j]) == given[j],
                self.dimensions == with_height(
                    start,
                    stacked_height(laid_out_children(given, start, i as int)) as i64,
                ),
                -height_budget(weights(given, i as int)) <= stacked_height(
                    laid_out_children(given, start, i as int),
                ) <= height_budget(weights(given, i as int)),
                forall|j: int|
                    0 <= j < i ==> within_reach(
                        #[trigger] laid_out_children(given, start, i as int)[j],
                    ),
            decreases count - i,
        {
            let d = self.dimensions;
            let ghost before = self.children@;
            proof {
                lemma_weights_grow(given, i as int, count as int);
                lemma_weights_grow(given, i as int, i as int + 1);
                assert(model_of(self.children@[i as int]) == given[i as int]);
                let wi = weight(given[i as int]);
                let wa = weights(given, i as int);
                assert(weights(given, i as int + 1) == wa + wi);
            }
            self.children[i].layout(d);
            let child = &self.children[i].dimensions;
            let added: i64 = child.content.height + child.padding.top + child.padding.bottom
                + child.border.top + child.border.bottom + child.margin.top + child.margin.bottom;
            proof {
                lemma_laid_out_children(given, start, i as int + 1);
                lemma_models(self.children@, i as int + 1);
                lemma_models(before, i as int);
                lemma_models_agree(before, self.children@, i as int);
                let done = laid_out_children(given, start, i as int + 1);
                assert(done.last() == model_of(self.children@[i as int]));
                assert(models(self.children@, i as int + 1) =~= done);
                assert(stacked_height(done) == stacked_height(done.drop_last()) + outer_height(
                    done.last().dimensions,
                ));
                assert(outer_height(done.last().dimensions) == added);
                assert(done.drop_last() == laid_out_children(given, start, i as int));
                assert forall|j: int| 0 <= j < i + 1 implies within_reach(#[trigger] done[j]) by {
                    if j < i {
                        assert(done[j] == done.drop_last()[j]);
                    }
                }
            }
            self.dimensions.content.height = self.dimensions.content.height + added;
            i = i + 1;
        }
        proof {
            assert(i == count);
            let done = laid_out_children(given, start, i as int);
            lemma_laid_out_children(given, start, i as int);
            assert(self@.children == done);
            assert forall|j: int| 0 <= j < self@.children.len() implies within_reach(
                #[trigger] self@.children[j],
            ) by {
                assert(0 <= j < i);
                assert(within_reach(laid_out_children(given, start, i as int)[j]));
            }
        }
    }

    /// Calculate height of a block box: the height that is set, else the
    /// height that the children gave it; never less than zero.
    fn calculate_block_height(&mut self)
        requires
            match old(self).box_type.style() {
                Some(s) => s.bounded(),
                None => true,
            },
        ensures
            final(self).box_type == old(self).box_type,
            final(self).children == old(self).children,
            final(self).dimensions == with_height(
                old(self).dimensions,
                settled_height(
                    old(self).box_type.style(),
                    old(self).dimensions.content.height as int,
                ) as i64,
            ),
            final(self).dimensions.content.height == settled_height(
                old(self).box_type.style(),
                old(self).dimensions.content.height as int,
            ),
    {
        let explicit: Option<i64> = match self.get_styled_node() {
            Some(style) => match style.value("height") {
                Some(Value::Length(h, Unit::Px)) => Some(*h),
                _ => None,
            },
            None => None,
        };
        let height: i64 = match explicit {
            Some(h) => h,
            None => self.dimensions.content.height,
        };
        self.dimensions.content.height = if height > 0 {
            height
        } else {
            0
        };
    }
}

/// The box tree of a styled tree before layout: one box for each node that
/// is displayed, with dimensions of zero. An inline node gives an inline
/// box, every other displayed node a block box. A node that is not
/// displayed is left out with everything below it.
pub open spec fn box_tree(node: StyledNode) -> BoxModel
    decreases node, 0nat,
{
    BoxModel {
        dimensions: Dimensions::zero(),
        kind: if node.spec_display() == Display::Inline {
            BoxKind::Inline
        } else {
            BoxKind::Block
        },
        style: Some(node.box_style()),
        children: box_trees(node.children@, node.children@.len() as int),
    }
}

/// The box trees of those of the first `k` nodes that are displayed.
pub open spec fn box_trees(nodes: Seq<StyledNode>, k: int) -> Seq<BoxModel>
    decreases nodes, k,
{
    if k <= 0 || k > nodes.len() {
        Seq::empty()
    } else if nodes[k - 1].spec_display() == Display::Hidden {
        box_trees(nodes, k - 1)
    } else {
        box_trees(nodes, k - 1).push(box_tree(nodes[k - 1]))
    }
}

/// Build the layout tree from a styled tree and lay it out.
///
/// The root is laid out in the containing block with its content height
/// taken as zero. The root itself must be displayed.
pub fn layout_tree<'a>(node: &'a StyledNode<'a>, containing_block: Dimensions) -> (root: LayoutBox<
    'a,
>)
    requires
        node.spec_display() != Display::Hidden,
        within_limits(box_tree(*node)),
        weight(box_tree(*node)) <= MAX_COUNT,
        containing_block.bounded(),
    ensures
        root@ == laid_out(box_tree(*node), with_height(containing_block, 0)),
        within_reach(root@),
{
    let mut containing_block = containing_block;
    containing_block.content.height = 0;
    let mut root_box = build_layout_tree(node);
    root_box.layout(containing_block);
    root_box
}

/// Laying the same styled tree out twice in the same containing block
/// gives the same box tree: the result of `layout_tree` is a function of
/// its two arguments and of nothing else.
pub proof fn lemma_layout_tree_stable(
    node: StyledNode,
    containing_block: Dimensions,
    first: LayoutBox,
    second: LayoutBox,
)
    requires
        first@ == laid_out(box_tree(node), with_height(containing_block, 0)),
        second@ == laid_out(box_tree(node), with_height(containing_block, 0)),
    ensures
        first@ == second@,
{
}

/// Build layout tree from styled node
fn build_layout_tree<'a>(style_node: &'a StyledNode<'a>) -> (root: LayoutBox<'a>)
    requires
        style_node.spec_display() != Display::Hidden,
    ensures
        root@ == box_tree(*style_node),
    decreases style_node,
{
    let mut root = LayoutBox::new(
        match style_node.display() {
            Display::Inline => BoxType::InlineNode(style_node),
            _ => BoxType::BlockNode(style_node),
        },
    );
    let mut i: usize = 0;
    while i < style_node.children.len()
        invariant
            i <= style_node.children@.len(),
            root.dimensions == Dimensions::zero(),
            root.box_type.kind() == box_tree(*style_node).kind,
            root.box_type.style() == Some(style_node.box_style()),
            models(root.children@, root.children@.len() as int) == box_trees(
                style_node.children@,
                i as int,
            ),
        decreases style_node.children@.len() - i,
    {
        let child = &style_node.children[i];
        match child.display() {
            Display::Hidden => {},
            _ => {
                let ghost before = root.children@;
                let child_box = build_layout_tree(child);
                root.children.push(child_box);
                proof {
                    lemma_models_agree(before, root.children@, before.len() as int);
                }
            },
        }
        i = i + 1;
    }
    root
}

/// Whether a styled tree can be laid out in a containing block: its root is
/// displayed, the style numbers of its displayed nodes and the containing
/// block are bounded, and it gives at most `MAX_COUNT` boxes.
pub open spec fn can_lay_out(node: StyledNode, containing_block: Dimensions) -> bool {
    &&& node.spec_display() != Display::Hidden
    &&& within_limits(box_tree(node))
    &&& weight(box_tree(node)) <= MAX_COUNT
    &&& containing_block.bounded()
}

/// Build the layout tree from a styled tree and lay it out, where that can
/// be done; none else.
pub fn try_layout_tree<'a>(node: &'a StyledNode<'a>, containing_block: Dimensions) -> (root: Option<
    LayoutBox<'a>,
>)
    ensures
        root.is_some() == can_lay_out(*node, containing_block),
        match root {
            Some(r) => r@ == laid_out(box_tree(*node), with_height(containing_block, 0))
                && within_reach(r@),
            None => true,
        },
{
    if !dimensions_are_bounded(&containing_block) {
        return None;
    }
    match node.display() {
        Display::Hidden => {
            return None;
        },
        _ => {},
    }
    match count_boxes(node, MAX_COUNT) {
        Some(_) => Some(layout_tree(node, containing_block)),
        None => None,
    }
}

/// Whether a rectangle is bounded.
pub fn rect_is_bounded(r: &Rect) -> (bounded: bool)
    ensures
        bounded == r.bounded(),
{
    is_in_range(r.x) && is_in_range(r.y) && is_in_range(r.width) && is_in_range(r.height)
}

/// Whether a length that may be unset is in range.
pub fn optional_is_in_range(o: Option<i64>) -> (r: bool)
    ensures
        r == match o {
            Some(v) => in_range(v),
            None => true,
        },
{
    match o {
        Some(v) => is_in_range(v),
        None => true,
    }
}

/// Whether a number lies in `[-MAX_LENGTH, MAX_LENGTH]`.
pub fn is_in_range(v: i64) -> (r: bool)
    ensures
        r == in_range(v),
{
    -MAX_LENGTH <= v && v <= MAX_LENGTH
}

/// Whether edges are bounded.
pub fn edges_are_bounded(e: &EdgeSizes) -> (r: bool)
    ensures
        r == e.bounded(),
{
    is_in_range(e.left) && is_in_range(e.right) && is_in_range(e.top) && is_in_range(e.bottom)
}

/// Whether dimensions are bounded.
pub fn dimensions_are_bounded(d: &Dimensions) -> (r: bool)
    ensures
        r == d.bounded(),
{
    is_in_range(d.content.x) && is_in_range(d.content.y) && is_in_range(d.content.width)
        && is_in_range(d.content.height) && edges_are_bounded(&d.padding) && edges_are_bounded(
        &d.border,
    ) && edges_are_bounded(&d.margin)
}

/// The numbers that block layout reads from the style of a node.
fn read_box_style(node: &StyledNode) -> (style: BoxStyle)
    ensures
        style == node.box_style(),
{
    let width: Option<i64> = match node.value("width") {
        Some(v) => if v.is_keyword("auto") {
            None
        } else {
            Some(to_px(v))
        },
        None => None,
    };
    let height: Option<i64> = match node.value("height") {
        Some(Value::Length(h, Unit::Px)) => Some(*h),
        _ => None,
    };
    BoxStyle {
        width,
        height,
        margin: EdgeSizes {
            left: edge_length(node, "margin-left", "margin"),
            right: edge_length(node, "margin-right", "margin"),
            top: edge_length(node, "margin-top", "margin"),
            bottom: edge_length(node, "margin-bottom", "margin"),
        },
        border: EdgeSizes {
            left: edge_length(node, "border-left-width", "border-width"),
            right: edge_length(node, "border-right-width", "border-width"),
            top: edge_length(node, "border-top-width", "border-width"),
            bottom: edge_length(node, "border-bottom-width", "border-width"),
        },
        padding: EdgeSizes {
            left: edge_length(node, "padding-left", "padding"),
            right: edge_length(node, "padding-right", "padding"),
            top: edge_length(node, "padding-top", "padding"),
            bottom: edge_length(node, "padding-bottom", "padding"),
        },
    }
}

/// Whether style numbers are bounded.
fn style_is_bounded(style: &BoxStyle) -> (r: bool)
    ensures
        r == style.bounded(),
{
    let width_ok = match style.width {
        Some(w) => is_in_range(w),
        None => true,
    };
    let height_ok = match style.height {
        Some(h) => is_in_range(h),
        None => true,
    };
    width_ok && height_ok && edges_are_bounded(&style.margin) && edges_are_bounded(&style.border)
        && edges_are_bounded(&style.padding)
}

/// The box trees of the first nodes of a list are the first box trees of
/// more of its nodes.
pub proof fn lemma_box_trees_prefix(nodes: Seq<StyledNode>, a: int, b: int)
    requires
        0 <= a <= b <= nodes.len(),
    ensures
        box_trees(nodes, a).len() <= box_trees(nodes, b).len(),
        box_trees(nodes, a).len() <= a,
        forall|j: int|
            0 <= j < box_trees(nodes, a).len() ==> #[trigger] box_trees(nodes, b)[j] == box_trees(
                nodes,
                a,
            )[j],
    decreases b - a,
{
    if a < b {
        lemma_box_trees_prefix(nodes, a, b - 1);
    } else {
        lemma_box_trees_len(nodes, a);
    }
}

/// There are no more box trees than nodes.
pub proof fn lemma_box_trees_len(nodes: Seq<StyledNode>, k: int)
    requires
        0 <= k <= nodes.len(),
    ensures
        box_trees(nodes, k).len() <= k,
    decreases k,
{
    if k > 0 {
        lemma_box_trees_len(nodes, k - 1);
    }
}

/// Two lists of boxes that agree on their first `k` boxes hold the same
/// number of boxes there.
pub proof fn lemma_weights_agree(a: Seq<BoxModel>, b: Seq<BoxModel>, k: int)
    requires
        0 <= k <= a.len(),
        k <= b.len(),
        forall|j: int| 0 <= j < k ==> a[j] == b[j],
    ensures
        weights(a, k) == weights(b, k),
    decreases k,
{
    if k > 0 {
        lemma_weights_agree(a, b, k - 1);
    }
}

/// The number of boxes that a styled tree gives, where its style numbers
/// are bounded and the number is at most `limit`; none else.
fn count_boxes(node: &StyledNode, limit: usize) -> (count: Option<usize>)
    ensures
        match count {
            Some(c) => within_limits(box_tree(*node)) && weight(box_tree(*node)) == c && c
                <= limit,
            None => !within_limits(box_tree(*node)) || weight(box_tree(*node)) > limit,
        },
    decreases node,
{
    let style = read_box_style(node);
    if !style_is_bounded(&style) {
        return None;
    }
    if limit < 1 {
        return None;
    }
    let ghost nodes = node.children@;
    let ghost all = box_trees(nodes, nodes.len() as int);
    let mut total: usize = 1;
    let mut i: usize = 0;
    while i < node.children.len()
        invariant
            nodes == node.children@,
            all == box_trees(nodes, nodes.len() as int),
            i <= nodes.len(),
            1 <= total <= limit,
            total == 1 + weights(
                box_trees(nodes, i as int),
                box_trees(nodes, i as int).len() as int,
            ),
            forall|j: int|
                0 <= j < box_trees(nodes, i as int).len() ==> within_limits(
                    #[trigger] box_trees(nodes, i as int)[j],
                ),
        decreases nodes.len() - i,
    {
        let child = &node.children[i];
        let ghost before = box_trees(nodes, i as int);
        let ghost after = box_trees(nodes, i as int + 1);
        proof {
            lemma_box_trees_prefix(nodes, i as int + 1, nodes.len() as int);
            lemma_box_trees_prefix(nodes, i as int, i as int + 1);
        }
        match child.display() {
            Display::Hidden => {
                assert(after == before);
            },
            _ => {
                proof {
                    assert(after == before.push(box_tree(nodes[i as int])));
                    lemma_weights_agree(before, after, before.len() as int);
                    assert(weights(after, after.len() as int) == weights(
                        after,
                        after.len() - 1,
                    ) + weight(after[after.len() - 1]));
                    lemma_weights_grow(all, 0, after.len() as int);
                    lemma_weights_agree(after, all, after.len() as int);
                    lemma_weights_grow(all, after.len() as int, all.len() as int);
                }
                match count_boxes(child, limit - total) {
                    Some(c) => {
                        total = total + c;
                    },
                    None => {
                        proof {
                            let bad = box_tree(nodes[i as int]);
                            assert(all[before.len() as int] == bad);
                            if within_limits(box_tree(*node)) {
                                assert(box_tree(*node).children == all);
                                assert(within_limits(box_tree(*node).children[before.len() as int]));
                            }
                        }
                        return None;
                    },
                }
                proof {
                    assert forall|j: int| 0 <= j < after.len() implies within_limits(
                        #[trigger] after[j],
                    ) by {
                        if j < before.len() {
                            assert(after[j] == before[j]);
                        }
                    }
                }
            },
        }
        i = i + 1;
    }
    proof {
        assert forall|j: int| 0 <= j < all.len() implies within_limits(#[trigger] all[j]) by {}
    }
    Some(total)
}

} // verus!
