//! CSS flexible box layout: line collection, flexible lengths, main-axis
//! and cross-axis alignment.

use vstd::prelude::*;
use crate::layout::sums::{
    div_floor, lemma_div_bounds, lemma_share_bounds, lemma_share_monotone, lemma_shares_exact,
    lemma_shares_part, lemma_shares_sum, lemma_sum_add, lemma_sum_bounds, lemma_sum_dominated,
    lemma_sum_part, max_int, min_int, share, share_of, shares, sum_over,
};
use crate::css::{Unit, Value};
use crate::layout::{
    dimensions_are_bounded, in_range, is_in_range, optional_is_in_range, Dimensions, EdgeSizes, Rect,
    MAX_COUNT, MAX_LENGTH,
};
use crate::style::StyledNode;

verus! {

/// Flexbox direction
#[derive(Debug, Clone, Copy, PartialEq, Eq, Structural)]
pub enum FlexDirection {
    Row,
    RowReverse,
    Column,
    ColumnReverse,
}

impl Default for FlexDirection {
    fn default() -> (d: FlexDirection)
        ensures
            d == FlexDirection::Row,
    {
        FlexDirection::Row
    }
}

/// Flexbox wrap
#[derive(Debug, Clone, Copy, PartialEq, Eq, Structural)]
pub enum FlexWrap {
    NoWrap,
    Wrap,
    WrapReverse,
}

impl Default for FlexWrap {
    fn default() -> (w: FlexWrap)
        ensures
            w == FlexWrap::NoWrap,
    {
        FlexWrap::NoWrap
    }
}

/// Justify content
#[derive(Debug, Clone, Copy, PartialEq, Eq, Structural)]
pub enum JustifyContent {
    FlexStart,
    FlexEnd,
    Center,
    SpaceBetween,
    SpaceAround,
    SpaceEvenly,
}

impl Default for JustifyContent {
    fn default() -> (j: JustifyContent)
        ensures
            j == JustifyContent::FlexStart,
    {
        JustifyContent::FlexStart
    }
}

/// Align items
#[derive(Debug, Clone, Copy, PartialEq, Eq, Structural)]
pub enum AlignItems {
    FlexStart,
    FlexEnd,
    Center,
    Stretch,
    Baseline,
}

impl Default for AlignItems {
    fn default() -> (a: AlignItems)
        ensures
            a == AlignItems::Stretch,
    {
        AlignItems::Stretch
    }
}

/// Flexbox container properties
#[derive(Debug, Clone, Copy)]
pub struct FlexContainer {
    pub direction: FlexDirection,
    pub wrap: FlexWrap,
    pub justify_content: JustifyContent,
    pub align_items: AlignItems,
}

impl Default for FlexContainer {
    fn default() -> (c: FlexContainer)
        ensures
            c.direction == FlexDirection::Row,
            c.wrap == FlexWrap::NoWrap,
            c.justify_content == JustifyContent::FlexStart,
            c.align_items == AlignItems::Stretch,
    {
        FlexContainer {
            direction: FlexDirection::Row,
            wrap: FlexWrap::NoWrap,
            justify_content: JustifyContent::FlexStart,
            align_items: AlignItems::Stretch,
        }
    }
}

/// Flex item properties
#[derive(Debug, Clone, Copy)]
pub struct FlexItem {
    pub flex_grow: i64,
    pub flex_shrink: i64,
    pub flex_basis: Option<i64>,
    pub min_size: Option<i64>,
    pub max_size: Option<i64>,
}

impl Default for FlexItem {
    fn default() -> (item: FlexItem)
        ensures
            item.flex_grow == 0,
            item.flex_shrink == 1,
            item.flex_basis.is_none(),
            item.min_size.is_none(),
            item.max_size.is_none(),
    {
        FlexItem { flex_grow: 0, flex_shrink: 1, flex_basis: None, min_size: None, max_size: None }
    }
}

/// The direction that a value of `flex-direction` stands for: `Row` for
/// every value that names no other.
pub open spec fn direction_of(value: Option<Value>) -> FlexDirection {
    match value {
        Some(v) => if v.is_word("row-reverse"@) {
            FlexDirection::RowReverse
        } else if v.is_word("column"@) {
            FlexDirection::Column
        } else if v.is_word("column-reverse"@) {
            FlexDirection::ColumnReverse
        } else {
            FlexDirection::Row
        },
        None => FlexDirection::Row,
    }
}

/// The wrapping that a value of `flex-wrap` stands for: `NoWrap` for every
/// value that names no other.
pub open spec fn wrap_of(value: Option<Value>) -> FlexWrap {
    match value {
        Some(v) => if v.is_word("wrap"@) {
            FlexWrap::Wrap
        } else if v.is_word("wrap-reverse"@) {
            FlexWrap::WrapReverse
        } else {
            FlexWrap::NoWrap
        },
        None => FlexWrap::NoWrap,
    }
}

/// The justification that a value of `justify-content` stands for:
/// `FlexStart` for every value that names no other.
pub open spec fn justify_of(value: Option<Value>) -> JustifyContent {
    match value {
        Some(v) => if v.is_word("flex-end"@) {
            JustifyContent::FlexEnd
        } else if v.is_word("center"@) {
            JustifyContent::Center
        } else if v.is_word("space-between"@) {
            JustifyContent::SpaceBetween
        } else if v.is_word("space-around"@) {
            JustifyContent::SpaceAround
        } else if v.is_word("space-evenly"@) {
            JustifyContent::SpaceEvenly
        } else {
            JustifyContent::FlexStart
        },
        None => JustifyContent::FlexStart,
    }
}

/// The alignment that a value of `align-items` stands for: `Stretch` for
/// every value that names no other.
pub open spec fn align_of(value: Option<Value>) -> AlignItems {
    match value {
        Some(v) => if v.is_word("flex-start"@) {
            AlignItems::FlexStart
        } else if v.is_word("flex-end"@) {
            AlignItems::FlexEnd
        } else if v.is_word("center"@) {
            AlignItems::Center
        } else if v.is_word("baseline"@) {
            AlignItems::Baseline
        } else {
            AlignItems::Stretch
        },
        None => AlignItems::Stretch,
    }
}

/// Whether a value of `display` makes a flex container.
pub open spec fn is_flex_display(value: Option<Value>) -> bool {
    match value {
        Some(v) => v.is_word("flex"@) || v.is_word("inline-flex"@),
        None => false,
    }
}

/// The number of a pixel length, for no other value.
pub open spec fn pixels_of(value: Option<Value>) -> Option<i64> {
    match value {
        Some(Value::Length(n, Unit::Px)) => Some(n),
        _ => None,
    }
}

/// The number of a pixel length, and `default` for every other value.
pub open spec fn pixels_or(value: Option<Value>, default: i64) -> i64 {
    match pixels_of(value) {
        Some(n) => n,
        None => default,
    }
}

/// Reads the number of a pixel length.
fn read_pixels(node: &StyledNode, property: &str) -> (n: Option<i64>)
    ensures
        n == pixels_of(node.spec_value(property@)),
{
    match node.value(property) {
        Some(Value::Length(val, Unit::Px)) => Some(*val),
        _ => None,
    }
}

impl FlexItem {
    /// Parse flex item properties from styled node
    pub fn from_styled_node(node: &StyledNode) -> (item: Self)
        ensures
            item.flex_grow == pixels_or(node.spec_value("flex-grow"@), 0),
            item.flex_shrink == pixels_or(node.spec_value("flex-shrink"@), 1),
            item.flex_basis == pixels_of(node.spec_value("flex-basis"@)),
            item.min_size == pixels_of(node.spec_value("min-width"@)),
            item.max_size == pixels_of(node.spec_value("max-width"@)),
    {
        let flex_grow = Self::parse_flex_grow(node);
        let flex_shrink = Self::parse_flex_shrink(node);
        let flex_basis = Self::parse_flex_basis(node);
        let min_size = Self::parse_min_size(node);
        let max_size = Self::parse_max_size(node);
        FlexItem { flex_grow, flex_shrink, flex_basis, min_size, max_size }
    }

    fn parse_flex_grow(node: &StyledNode) -> (n: i64)
        ensures
            n == pixels_or(node.spec_value("flex-grow"@), 0),
    {
        match read_pixels(node, "flex-grow") {
            Some(val) => val,
            None => 0,
        }
    }

    fn parse_flex_shrink(node: &StyledNode) -> (n: i64)
        ensures
            n == pixels_or(node.spec_value("flex-shrink"@), 1),
    {
        match read_pixels(node, "flex-shrink") {
            Some(val) => val,
            None => 1,
        }
    }

    fn parse_flex_basis(node: &StyledNode) -> (n: Option<i64>)
        ensures
            n == pixels_of(node.spec_value("flex-basis"@)),
    {
        read_pixels(node, "flex-basis")
    }

    fn parse_min_size(node: &StyledNode) -> (n: Option<i64>)
        ensures
            n == pixels_of(node.spec_value("min-width"@)),
    {
        read_pixels(node, "min-width")
    }

    fn parse_max_size(node: &StyledNode) -> (n: Option<i64>)
        ensures
            n == pixels_of(node.spec_value("max-width"@)),
    {
        read_pixels(node, "max-width")
    }
}

/// Whether a length, where it is set, lies in `[-MAX_LENGTH, MAX_LENGTH]`.
pub open spec fn optional_in_range(o: Option<i64>) -> bool {
    match o {
        Some(v) => in_range(v),
        None => true,
    }
}

/// A size held between a lower and an upper limit, where they are set. The
/// upper limit wins where the two cross.
pub open spec fn clamp(size: int, min: Option<i64>, max: Option<i64>) -> int {
    let raised = match min {
        Some(m) => max_int(size, m as int),
        None => size,
    };
    match max {
        Some(m) => min_int(raised, m as int),
        None => raised,
    }
}

impl FlexItem {
    /// Every field lies in `[-MAX_LENGTH, MAX_LENGTH]`.
    pub open spec fn bounded(self) -> bool {
        &&& in_range(self.flex_grow)
        &&& in_range(self.flex_shrink)
        &&& optional_in_range(self.flex_basis)
        &&& optional_in_range(self.min_size)
        &&& optional_in_range(self.max_size)
    }

    /// The flex basis, zero where it is not set.
    pub open spec fn base_size(self) -> int {
        match self.flex_basis {
            Some(b) => b as int,
            None => 0,
        }
    }

    /// The size before any growing or shrinking: the base size held between
    /// the item's limits.
    pub open spec fn hypothetical_size(self) -> int {
        clamp(self.base_size(), self.min_size, self.max_size)
    }

    /// The grow factor, a negative one counting as zero.
    pub open spec fn grow_weight(self) -> int {
        max_int(self.flex_grow as int, 0)
    }

    /// The shrink factor, a negative one counting as zero.
    pub open spec fn shrink_weight(self) -> int {
        max_int(self.flex_shrink as int, 0)
    }
}

/// At most `MAX_COUNT` items, each of them bounded.
pub open spec fn items_bounded(items: Seq<FlexItem>) -> bool {
    items.len() <= MAX_COUNT && forall|i: int|
        0 <= i < items.len() ==> (#[trigger] items[i]).bounded()
}

/// The hypothetical size of each item, by index.
pub open spec fn hypothetical_sizes(items: Seq<FlexItem>) -> spec_fn(int) -> int {
    |i: int| items[i].hypothetical_size()
}

/// The grow weight of each item, by index.
pub open spec fn grow_weights(items: Seq<FlexItem>) -> spec_fn(int) -> int {
    |i: int| items[i].grow_weight()
}

/// The shrink weight of each item, by index.
pub open spec fn shrink_weights(items: Seq<FlexItem>) -> spec_fn(int) -> int {
    |i: int| items[i].shrink_weight()
}

/// The index of the first item of the line that item `i` stands in.
///
/// Without wrapping all items stand in one line. With wrapping an item
/// opens a new line where it does not fit behind the items that the line
/// holds already; the first item of a line always fits.
pub open spec fn line_start(items: Seq<FlexItem>, wrap: bool, main: int, i: int) -> int
    decreases i,
{
    if !wrap || i <= 0 {
        0
    } else {
        let start = line_start(items, wrap, main, i - 1);
        if sum_over(hypothetical_sizes(items), start, i) + items[i].hypothetical_size() > main {
            i
        } else {
            start
        }
    }
}

/// The index just past the last item of the line that item `i` stands in.
pub open spec fn line_end(items: Seq<FlexItem>, wrap: bool, main: int, i: int) -> int
    decreases items.len() - i,
{
    if i + 1 >= items.len() {
        items.len() as int
    } else if line_start(items, wrap, main, i + 1) == i + 1 {
        i + 1
    } else {
        line_end(items, wrap, main, i + 1)
    }
}

/// The number of the line that item `i` stands in, counted from zero.
pub open spec fn line_index(items: Seq<FlexItem>, wrap: bool, main: int, i: int) -> int
    decreases i,
{
    if i <= 0 {
        0
    } else {
        line_index(items, wrap, main, i - 1) + if line_start(items, wrap, main, i) == i {
            1int
        } else {
            0int
        }
    }
}

/// The number of lines.
pub open spec fn line_count(items: Seq<FlexItem>, wrap: bool, main: int) -> int {
    if items.len() == 0 {
        0
    } else {
        line_index(items, wrap, main, items.len() - 1) + 1
    }
}

/// The space that the hypothetical sizes leave in the line of item `i`;
/// negative where they overflow it.
pub open spec fn initial_free_space(items: Seq<FlexItem>, wrap: bool, main: int, i: int) -> int {
    main - sum_over(
        hypothetical_sizes(items),
        line_start(items, wrap, main, i),
        line_end(items, wrap, main, i),
    )
}

/// What item `i` grows by: its share of the free space of its line, by grow
/// weight; zero where the line has no free space or no grow weight.
pub open spec fn grow_amount(items: Seq<FlexItem>, wrap: bool, main: int, i: int) -> int {
    let free = initial_free_space(items, wrap, main, i);
    let total = sum_over(
        grow_weights(items),
        line_start(items, wrap, main, i),
        line_end(items, wrap, main, i),
    );
    if free > 0 && total > 0 {
        share(free, items[i].grow_weight(), total)
    } else {
        0
    }
}

/// What item `i` shrinks by: its share of the overflow of its line, by
/// shrink weight; zero where the line does not overflow or has no shrink
/// weight.
pub open spec fn shrink_amount(items: Seq<FlexItem>, wrap: bool, main: int, i: int) -> int {
    let free = initial_free_space(items, wrap, main, i);
    let total = sum_over(
        shrink_weights(items),
        line_start(items, wrap, main, i),
        line_end(items, wrap, main, i),
    );
    if free < 0 && total > 0 {
        share(-free, items[i].shrink_weight(), total)
    } else {
        0
    }
}

/// The main size of item `i` after growing or shrinking, before its limits
/// are applied again. A size that shrinks stops at zero, and a size that is
/// not positive does not shrink.
pub open spec fn flexed_size(items: Seq<FlexItem>, wrap: bool, main: int, i: int) -> int {
    let h = items[i].hypothetical_size();
    let shrink = shrink_amount(items, wrap, main, i);
    if shrink > 0 && h > 0 {
        max_int(h - shrink, 0)
    } else {
        h + grow_amount(items, wrap, main, i)
    }
}

/// The final main size of item `i`: the flexed size held between the item's
/// limits.
pub open spec fn resolved_size(items: Seq<FlexItem>, wrap: bool, main: int, i: int) -> int {
    clamp(flexed_size(items, wrap, main, i), items[i].min_size, items[i].max_size)
}

/// The final main size of each item, by index.
pub open spec fn resolved_sizes(items: Seq<FlexItem>, wrap: bool, main: int) -> spec_fn(int) -> int {
    |i: int| resolved_size(items, wrap, main, i)
}

/// The space that the final sizes leave in the line of item `i`.
pub open spec fn free_space(items: Seq<FlexItem>, wrap: bool, main: int, i: int) -> int {
    main - sum_over(
        resolved_sizes(items, wrap, main),
        line_start(items, wrap, main, i),
        line_end(items, wrap, main, i),
    )
}

/// The space before the first item of a line of `count` items that leaves
/// `free` space.
pub open spec fn leading_space(justify: JustifyContent, free: int, count: int) -> int {
    match justify {
        JustifyContent::FlexStart => 0,
        JustifyContent::FlexEnd => free,
        JustifyContent::Center => free / 2,
        JustifyContent::SpaceBetween => 0,
        JustifyContent::SpaceAround => (free / count) / 2,
        JustifyContent::SpaceEvenly => free / (count + 1),
    }
}

/// The space between two neighbours in a line of `count` items that leaves
/// `free` space.
pub open spec fn item_spacing(justify: JustifyContent, free: int, count: int) -> int {
    match justify {
        JustifyContent::FlexStart => 0,
        JustifyContent::FlexEnd => 0,
        JustifyContent::Center => 0,
        JustifyContent::SpaceBetween => if count > 1 {
            free / (count - 1)
        } else {
            0
        },
        JustifyContent::SpaceAround => free / count,
        JustifyContent::SpaceEvenly => free / (count + 1),
    }
}

/// How far item `i` starts from the start of its line: the leading space,
/// the items before it in the line, and one spacing after each of them.
pub open spec fn main_position(
    justify: JustifyContent,
    items: Seq<FlexItem>,
    wrap: bool,
    main: int,
    i: int,
) -> int {
    let lo = line_start(items, wrap, main, i);
    let count = line_end(items, wrap, main, i) - lo;
    let free = free_space(items, wrap, main, i);
    leading_space(justify, free, count) + sum_over(resolved_sizes(items, wrap, main), lo, i) + (i
        - lo) * item_spacing(justify, free, count)
}

/// The cross size of each line: the cross size of the container, a
/// negative one counting as zero, split evenly over the lines.
pub open spec fn line_cross_size(cross: int, lines: int) -> int {
    max_int(cross, 0) / lines
}

/// Where an item starts on the cross axis. Items have no cross size of their
/// own, so `FlexEnd` puts them at the far edge of the line and `Center` in
/// its middle; `Baseline` aligns as `FlexStart` does.
pub open spec fn cross_position(align: AlignItems, line: int, line_cross: int) -> int {
    line * line_cross + match align {
        AlignItems::FlexEnd => line_cross,
        AlignItems::Center => line_cross / 2,
        _ => 0,
    }
}

/// The cross size of an item: that of its line where items stretch, else
/// zero.
pub open spec fn cross_extent(align: AlignItems, line_cross: int) -> int {
    match align {
        AlignItems::Stretch => line_cross,
        _ => 0,
    }
}

/// `[lo, hi)` is one whole line: it starts at a line start, holds no other
/// line start, and ends at the next one or at the last item.
pub open spec fn is_line(items: Seq<FlexItem>, wrap: bool, main: int, lo: int, hi: int) -> bool {
    &&& 0 <= lo < hi <= items.len()
    &&& forall|t: int| lo <= t < hi ==> #[trigger] line_start(items, wrap, main, t) == lo
    &&& (hi == items.len() || line_start(items, wrap, main, hi) == hi)
}

/// An item's line starts at or before the item.
pub proof fn lemma_line_start_bounds(items: Seq<FlexItem>, wrap: bool, main: int, i: int)
    requires
        0 <= i,
    ensures
        0 <= line_start(items, wrap, main, i) <= i,
    decreases i,
{
    if wrap && i > 0 {
        lemma_line_start_bounds(items, wrap, main, i - 1);
    }
}

/// Every item from the start of an item's line up to the item has the same
/// line start.
pub proof fn lemma_line_before(items: Seq<FlexItem>, wrap: bool, main: int, i: int, t: int)
    requires
        0 <= i,
        line_start(items, wrap, main, i) <= t <= i,
    ensures
        line_start(items, wrap, main, t) == line_start(items, wrap, main, i),
    decreases i - t,
{
    lemma_line_start_bounds(items, wrap, main, i);
    if t < i {
        if wrap && i > 0 {
            lemma_line_start_bounds(items, wrap, main, i - 1);
            lemma_line_before(items, wrap, main, i - 1, t);
        }
    }
}

/// An item's line ends after the item, and no item between the two opens a
/// line; the line ends at the last item or where the next line starts.
pub proof fn lemma_line_after(items: Seq<FlexItem>, wrap: bool, main: int, i: int)
    requires
        0 <= i < items.len(),
    ensures
        i < line_end(items, wrap, main, i) <= items.len(),
        forall|t: int|
            i < t < line_end(items, wrap, main, i) ==> #[trigger] line_start(items, wrap, main, t)
                == line_start(items, wrap, main, i),
        line_end(items, wrap, main, i) == items.len() || line_start(
            items,
            wrap,
            main,
            line_end(items, wrap, main, i),
        ) == line_end(items, wrap, main, i),
    decreases items.len() - i,
{
    if i + 1 < items.len() && line_start(items, wrap, main, i + 1) != i + 1 {
        lemma_line_after(items, wrap, main, i + 1);
        assert(line_start(items, wrap, main, i + 1) == line_start(items, wrap, main, i));
    }
}

/// An item whose line runs on to `hi` without another line start has its
/// line end at `hi`.
pub proof fn lemma_line_end_at(items: Seq<FlexItem>, wrap: bool, main: int, i: int, hi: int)
    requires
        0 <= i < hi <= items.len(),
        forall|t: int| i < t < hi ==> #[trigger] line_start(items, wrap, main, t) != t,
        hi == items.len() || line_start(items, wrap, main, hi) == hi,
    ensures
        line_end(items, wrap, main, i) == hi,
    decreases hi - i,
{
    if i + 1 < hi {
        assert(line_start(items, wrap, main, i + 1) != i + 1);
        lemma_line_end_at(items, wrap, main, i + 1, hi);
    }
}

/// The items from an item's line start to its line end form one whole
/// line, and all of them have that line start and that line end.
pub proof fn lemma_line_of(items: Seq<FlexItem>, wrap: bool, main: int, i: int)
    requires
        0 <= i < items.len(),
    ensures
        line_start(items, wrap, main, i) <= i < line_end(items, wrap, main, i),
        is_line(
            items,
            wrap,
            main,
            line_start(items, wrap, main, i),
            line_end(items, wrap, main, i),
        ),
        forall|t: int|
            line_start(items, wrap, main, i) <= t < line_end(items, wrap, main, i)
                ==> #[trigger] line_end(items, wrap, main, t) == line_end(items, wrap, main, i),
{
    let lo = line_start(items, wrap, main, i);
    let hi = line_end(items, wrap, main, i);
    lemma_line_start_bounds(items, wrap, main, i);
    lemma_line_after(items, wrap, main, i);
    assert forall|t: int| lo <= t < hi implies #[trigger] line_start(items, wrap, main, t)
        == lo by {
        if t <= i {
            lemma_line_before(items, wrap, main, i, t);
        }
    }
    assert forall|t: int| lo <= t < hi implies #[trigger] line_end(items, wrap, main, t) == hi by {
        assert forall|u: int| t < u < hi implies #[trigger] line_start(items, wrap, main, u)
            != u by {
            assert(line_start(items, wrap, main, u) == lo);
        }
        lemma_line_end_at(items, wrap, main, t, hi);
    }
}

/// All items of one whole line have its bounds as their line start and line
/// end, and the same line number.
pub proof fn lemma_line_members(items: Seq<FlexItem>, wrap: bool, main: int, lo: int, hi: int)
    requires
        is_line(items, wrap, main, lo, hi),
    ensures
        forall|t: int| lo <= t < hi ==> #[trigger] line_end(items, wrap, main, t) == hi,
        forall|t: int|
            lo <= t < hi ==> #[trigger] line_index(items, wrap, main, t) == line_index(
                items,
                wrap,
                main,
                lo,
            ),
{
    assert forall|t: int| lo <= t < hi implies #[trigger] line_end(items, wrap, main, t) == hi by {
        assert forall|u: int| t < u < hi implies #[trigger] line_start(items, wrap, main, u)
            != u by {
            assert(line_start(items, wrap, main, u) == lo);
        }
        lemma_line_end_at(items, wrap, main, t, hi);
    }
    assert forall|t: int| lo <= t < hi implies #[trigger] line_index(items, wrap, main, t)
        == line_index(items, wrap, main, lo) by {
        lemma_line_index_within(items, wrap, main, lo, hi, t);
    }
}

/// Inside one whole line the line number does not change.
proof fn lemma_line_index_within(
    items: Seq<FlexItem>,
    wrap: bool,
    main: int,
    lo: int,
    hi: int,
    t: int,
)
    requires
        is_line(items, wrap, main, lo, hi),
        lo <= t < hi,
    ensures
        line_index(items, wrap, main, t) == line_index(items, wrap, main, lo),
    decreases t - lo,
{
    if t > lo {
        assert(line_start(items, wrap, main, t) == lo);
        lemma_line_index_within(items, wrap, main, lo, hi, t - 1);
    }
}

/// Working state of one item during a layout call.
#[derive(Debug, Clone, Copy)]
struct FlexItemState {
    /// Base size before flex calculations
    base_size: i64,
    /// Hypothetical main size
    hypothetical_size: i64,
    /// Final main size after flex
    main_size: i64,
    /// Cross size
    cross_size: i64,
}

/// Flex line: the items from `start` up to `end`.
#[derive(Debug, Clone, Copy)]
struct FlexLine {
    /// Index of the first item of the line
    start: usize,
    /// Index just past the last item of the line
    end: usize,
    /// Sum of the hypothetical sizes of the items
    main_size: i64,
    /// Cross size of the line
    cross_size: i64,
}

/// The states stand for the items, one for one, and hold their base and
/// hypothetical sizes.
spec fn states_match(states: Seq<FlexItemState>, items: Seq<FlexItem>) -> bool {
    &&& states.len() == items.len()
    &&& forall|i: int|
        0 <= i < items.len() ==> {
            &&& (#[trigger] states[i]).hypothetical_size == items[i].hypothetical_size()
            &&& states[i].base_size == items[i].base_size()
        }
}

/// The states of the items before `upto` hold their final main sizes.
spec fn states_resolved(
    states: Seq<FlexItemState>,
    items: Seq<FlexItem>,
    wrap: bool,
    main: int,
    upto: int,
) -> bool {
    forall|i: int|
        0 <= i < upto ==> (#[trigger] states[i]).main_size == resolved_size(items, wrap, main, i)
}

/// The lines are the lines of the items, in order and without a gap.
spec fn lines_cover(lines: Seq<FlexLine>, items: Seq<FlexItem>, wrap: bool, main: int) -> bool {
    &&& lines.len() >= 1
    &&& lines.len() == line_count(items, wrap, main)
    &&& lines[0].start == 0
    &&& lines[lines.len() - 1].end == items.len()
    &&& forall|k: int|
        0 <= k < lines.len() ==> {
            &&& is_line(items, wrap, main, (#[trigger] lines[k]).start as int, lines[k].end as int)
            &&& line_index(items, wrap, main, lines[k].start as int) == k
            &&& lines[k].main_size == sum_over(
                hypothetical_sizes(items),
                lines[k].start as int,
                lines[k].end as int,
            )
        }
    &&& lines_adjacent(lines)
}

/// Each line but the last ends where the next one starts.
#[verifier::opaque]
spec fn lines_adjacent(lines: Seq<FlexLine>) -> bool {
    forall|k: int| 0 <= k < lines.len() - 1 ==> (#[trigger] lines[k]).end == lines[k + 1].start
}

/// The line after line `k` starts where line `k` ends.
proof fn lemma_next_line(lines: Seq<FlexLine>, k: int)
    requires
        lines_adjacent(lines),
        0 <= k < lines.len() - 1,
    ensures
        lines[k].end == lines[k + 1].start,
{
    reveal(lines_adjacent);
}

/// A list of lines stays without gaps when a line is added that starts
/// where the last one ends.
proof fn lemma_push_line(lines: Seq<FlexLine>, line: FlexLine)
    requires
        lines_adjacent(lines),
        lines.len() > 0 ==> lines[lines.len() - 1].end == line.start,
    ensures
        lines_adjacent(lines.push(line)),
{
    reveal(lines_adjacent);
    let next = lines.push(line);
    assert forall|k: int| 0 <= k < next.len() - 1 implies (#[trigger] next[k]).end == next[k
        + 1].start by {
        if k < lines.len() - 1 {
            assert(next[k] == lines[k]);
            assert(next[k + 1] == lines[k + 1]);
        }
    }
}

/// A list of lines stays without gaps when only the cross sizes change.
proof fn lemma_same_bounds(before: Seq<FlexLine>, after: Seq<FlexLine>)
    requires
        lines_adjacent(before),
        before.len() == after.len(),
        forall|k: int|
            0 <= k < before.len() ==> (#[trigger] after[k]).start == before[k].start && after[k].end
                == before[k].end,
    ensures
        lines_adjacent(after),
{
    reveal(lines_adjacent);
    assert forall|k: int| 0 <= k < after.len() - 1 implies (#[trigger] after[k]).end == after[k
        + 1].start by {
        assert(before[k].end == before[k + 1].start);
        assert(after[k + 1].start == before[k + 1].start);
    }
}

/// The coordinate of a box along the main axis.
pub open spec fn main_start_of(row: bool, d: Dimensions) -> i64 {
    if row {
        d.content.x
    } else {
        d.content.y
    }
}

/// The size of a box along the main axis.
pub open spec fn main_extent_of(row: bool, d: Dimensions) -> i64 {
    if row {
        d.content.width
    } else {
        d.content.height
    }
}

/// The coordinate of a box along the cross axis.
pub open spec fn cross_start_of(row: bool, d: Dimensions) -> i64 {
    if row {
        d.content.y
    } else {
        d.content.x
    }
}

/// The size of a box along the cross axis.
pub open spec fn cross_extent_of(row: bool, d: Dimensions) -> i64 {
    if row {
        d.content.height
    } else {
        d.content.width
    }
}

/// Hypothetical sizes lie in range, and so do their sums, far inside `i64`.
pub proof fn lemma_hypothetical_bounds(items: Seq<FlexItem>, a: int, b: int)
    requires
        items_bounded(items),
        0 <= a <= b <= items.len(),
    ensures
        forall|i: int|
            0 <= i < items.len() ==> -MAX_LENGTH <= #[trigger] hypothetical_sizes(items)(i)
                <= MAX_LENGTH,
        -(b - a) * MAX_LENGTH <= sum_over(hypothetical_sizes(items), a, b) <= (b - a) * MAX_LENGTH,
        -0x0100_0000_0000_0000 <= sum_over(hypothetical_sizes(items), a, b)
            <= 0x0100_0000_0000_0000,
{
    let f = hypothetical_sizes(items);
    assert forall|i: int| 0 <= i < items.len() implies -MAX_LENGTH <= #[trigger] f(i)
        <= MAX_LENGTH by {
        assert(items[i].bounded());
    }
    lemma_sum_bounds(f, a, b, -MAX_LENGTH as int, MAX_LENGTH as int);
    assert(-0x0100_0000_0000_0000 <= (b - a) * -MAX_LENGTH && (b - a) * MAX_LENGTH
        <= 0x0100_0000_0000_0000 && (b - a) * -MAX_LENGTH == -(b - a) * MAX_LENGTH)
        by (nonlinear_arith)
        requires
            0 <= b - a <= 1_048_576,
            MAX_LENGTH == 68_719_476_736,
    ;
}

/// Weights are not negative, none exceeds the sum over a range that holds
/// it, and the sums stay far inside `i64`.
pub proof fn lemma_weight_bounds(items: Seq<FlexItem>, a: int, b: int)
    requires
        items_bounded(items),
        0 <= a <= b <= items.len(),
    ensures
        forall|i: int| 0 <= i < items.len() ==> 0 <= #[trigger] grow_weights(items)(i) <= MAX_LENGTH,
        forall|i: int|
            0 <= i < items.len() ==> 0 <= #[trigger] shrink_weights(items)(i) <= MAX_LENGTH,
        0 <= sum_over(grow_weights(items), a, b) <= 0x0100_0000_0000_0000,
        0 <= sum_over(shrink_weights(items), a, b) <= 0x0100_0000_0000_0000,
        forall|i: int| a <= i < b ==> #[trigger] grow_weights(items)(i) <= sum_over(grow_weights(items), a, b),
        forall|i: int| a <= i < b ==> #[trigger] shrink_weights(items)(i) <= sum_over(shrink_weights(items), a, b),
{
    let g = grow_weights(items);
    let s = shrink_weights(items);
    assert forall|i: int| 0 <= i < items.len() implies 0 <= #[trigger] g(i) <= MAX_LENGTH by {
        assert(items[i].bounded());
    }
    assert forall|i: int| 0 <= i < items.len() implies 0 <= #[trigger] s(i) <= MAX_LENGTH by {
        assert(items[i].bounded());
    }
    lemma_sum_bounds(g, a, b, 0, MAX_LENGTH as int);
    lemma_sum_bounds(s, a, b, 0, MAX_LENGTH as int);
    assert((b - a) * 0 == 0 && (b - a) * MAX_LENGTH <= 0x0100_0000_0000_0000) by (nonlinear_arith)
        requires
            0 <= b - a <= 1_048_576,
            MAX_LENGTH == 68_719_476_736,
    ;
    assert forall|i: int| a <= i < b implies #[trigger] g(i) <= sum_over(g, a, b) by {
        lemma_sum_part(g, a, i, i + 1, b);
        assert(sum_over(g, i, i + 1) == sum_over(g, i, i) + g(i));
    }
    assert forall|i: int| a <= i < b implies #[trigger] s(i) <= sum_over(s, a, b) by {
        lemma_sum_part(s, a, i, i + 1, b);
        assert(sum_over(s, i, i + 1) == sum_over(s, i, i) + s(i));
    }
}

/// Inside one whole line the final sizes are bounded below, each grows by no
/// more than the free space, and their sums stay far inside `i64`.
pub proof fn lemma_resolved_bounds(
    items: Seq<FlexItem>,
    wrap: bool,
    main: int,
    lo: int,
    hi: int,
    a: int,
    b: int,
)
    requires
        items_bounded(items),
        -MAX_LENGTH <= main <= MAX_LENGTH,
        is_line(items, wrap, main, lo, hi),
        lo <= a <= b <= hi,
    ensures
        forall|i: int|
            lo <= i < hi ==> -MAX_LENGTH <= #[trigger] resolved_sizes(items, wrap, main)(i)
                <= 0x0200_0000_0000_0000,
        -0x0100_0000_0000_0000 <= sum_over(resolved_sizes(items, wrap, main), a, b)
            <= 0x0300_0000_0000_0000,
{
    let r = resolved_sizes(items, wrap, main);
    let h = hypothetical_sizes(items);
    let g = grow_weights(items);
    let limit = MAX_LENGTH as int;
    lemma_line_members(items, wrap, main, lo, hi);
    lemma_hypothetical_bounds(items, lo, hi);
    lemma_weight_bounds(items, lo, hi);
    let free = main - sum_over(h, lo, hi);
    let total = sum_over(g, lo, hi);
    let grown = free > 0 && total > 0;
    let amount = if grown {
        free
    } else {
        0
    };
    let sh = if grown {
        shares(g, free, total)
    } else {
        |i: int| 0int
    };
    assert forall|i: int| lo <= i < hi implies -limit <= #[trigger] r(i) && r(i) <= limit + sh(
        i,
    ) && 0 <= sh(i) <= amount by {
        assert(items[i].bounded());
        assert(line_start(items, wrap, main, i) == lo);
        assert(line_end(items, wrap, main, i) == hi);
        assert(initial_free_space(items, wrap, main, i) == free);
        assert(h(i) == items[i].hypothetical_size());
        assert(g(i) == items[i].grow_weight());
        if grown {
            lemma_share_bounds(free, g(i), total);
            assert(grow_amount(items, wrap, main, i) == sh(i));
        }
        let st = sum_over(shrink_weights(items), lo, hi);
        if free < 0 && st > 0 {
            assert(shrink_weights(items)(i) == items[i].shrink_weight());
            lemma_share_bounds(-free, items[i].shrink_weight(), st);
        }
    }
    assert forall|i: int| a <= i < b implies -limit <= #[trigger] r(i) <= 0x0200_0000_0000_0000 by {
        assert(r(i) <= limit + sh(i));
    }
    assert forall|i: int| a <= i < b implies #[trigger] r(i) <= limit + sh(i) by {}
    lemma_sum_dominated(r, sh, a, b, limit);
    lemma_sum_bounds(r, a, b, -limit, 0x0200_0000_0000_0000);
    if grown {
        lemma_shares_part(g, lo, a, b, hi, free, total);
    } else {
        lemma_sum_bounds(sh, a, b, 0, 0);
        assert((b - a) * 0 == 0);
    }
    assert(-0x0100_0000_0000_0000 <= (b - a) * -limit && (b - a) * limit <= 0x0100_0000_0000_0000)
        by (nonlinear_arith)
        requires
            0 <= b - a <= 1_048_576,
            limit == 68_719_476_736,
    ;
}

/// The spaces that `justify-content` hands out stay close to the free
/// space: the leading space, and any number of spacings up to the count.
pub proof fn lemma_spacing_bounds(justify: JustifyContent, free: int, count: int, k: int)
    requires
        count >= 1,
        0 <= k <= count,
    ensures
        -(2 * max_int(free, -free) + 2 * count) <= k * item_spacing(justify, free, count) <= 2
            * max_int(free, -free) + 2 * count,
        -(max_int(free, -free) + 1) <= leading_space(justify, free, count) <= max_int(free, -free)
            + 1,
{
    let m = max_int(free, -free);
    let q = item_spacing(justify, free, count);
    let d: int = match justify {
        JustifyContent::SpaceBetween => if count > 1 {
            count - 1
        } else {
            1
        },
        JustifyContent::SpaceAround => count,
        JustifyContent::SpaceEvenly => count + 1,
        _ => 1,
    };
    lemma_div_bounds(free, d);
    lemma_div_bounds(free, 2);
    lemma_div_bounds(free / count, 2);
    lemma_div_bounds(free, count);
    let e = free / d;
    assert(-m <= e <= m) by (nonlinear_arith)
        requires
            d >= 1,
            d * e <= free,
            free < d * e + d,
            m >= free,
            m >= -free,
    ;
    if q == e && k <= d + 1 {
        assert((d + 1) * e == d * e + e) by (nonlinear_arith);
        if e >= 0 {
            assert(0 <= k * e <= (d + 1) * e) by (nonlinear_arith)
                requires
                    0 <= k <= d + 1,
                    e >= 0,
            ;
        } else {
            assert((d + 1) * e <= k * e <= 0) by (nonlinear_arith)
                requires
                    0 <= k <= d + 1,
                    e < 0,
            ;
        }
    }
    assert(k * 0 == 0);
    let c = free / count;
    assert(-m <= c <= m) by (nonlinear_arith)
        requires
            count >= 1,
            count * c <= free,
            free < count * c + count,
            m >= free,
            m >= -free,
    ;
}

/// Where item `i` ends on the main axis, measured from the start of its
/// line.
pub open spec fn main_end(
    justify: JustifyContent,
    items: Seq<FlexItem>,
    wrap: bool,
    main: int,
    i: int,
) -> int {
    main_position(justify, items, wrap, main, i) + resolved_size(items, wrap, main, i)
}

/// The items of a line stand one spacing apart, behind the leading space;
/// what is left behind the last of them is the free space less the leading
/// space and the spacings.
pub proof fn lemma_line_positions(
    justify: JustifyContent,
    items: Seq<FlexItem>,
    wrap: bool,
    main: int,
    i: int,
)
    requires
        0 <= i < items.len(),
    ensures
        ({
            let lo = line_start(items, wrap, main, i);
            let hi = line_end(items, wrap, main, i);
            let free = free_space(items, wrap, main, i);
            let spacing = item_spacing(justify, free, hi - lo);
            let leading = leading_space(justify, free, hi - lo);
            &&& lo <= i < hi
            &&& main_position(justify, items, wrap, main, lo) == leading
            &&& forall|t: int|
                lo < t < hi ==> #[trigger] main_position(justify, items, wrap, main, t) - main_end(
                    justify,
                    items,
                    wrap,
                    main,
                    t - 1,
                ) == spacing
            &&& main - main_end(justify, items, wrap, main, hi - 1) == free - leading - (hi - lo
                - 1) * spacing
        }),
{
    let lo = line_start(items, wrap, main, i);
    let hi = line_end(items, wrap, main, i);
    let free = free_space(items, wrap, main, i);
    let count = hi - lo;
    let spacing = item_spacing(justify, free, count);
    let leading = leading_space(justify, free, count);
    let r = resolved_sizes(items, wrap, main);
    lemma_line_of(items, wrap, main, i);
    assert forall|t: int| lo <= t < hi implies #[trigger] main_position(
        justify,
        items,
        wrap,
        main,
        t,
    ) == leading + sum_over(r, lo, t) + (t - lo) * spacing by {
        assert(line_start(items, wrap, main, t) == lo);
        assert(line_end(items, wrap, main, t) == hi);
        assert(free_space(items, wrap, main, t) == free);
    }
    assert(main_position(justify, items, wrap, main, lo) == leading) by {
        assert((lo - lo) * spacing == 0) by (nonlinear_arith);
    }
    assert forall|t: int| lo < t < hi implies #[trigger] main_position(
        justify,
        items,
        wrap,
        main,
        t,
    ) - main_end(justify, items, wrap, main, t - 1) == spacing by {
        assert(main_position(justify, items, wrap, main, t - 1) == leading + sum_over(r, lo, t - 1)
            + (t - 1 - lo) * spacing);
        assert(r(t - 1) == resolved_size(items, wrap, main, t - 1));
        assert((t - lo) * spacing == (t - 1 - lo) * spacing + spacing) by (nonlinear_arith);
    }
    assert(main_position(justify, items, wrap, main, hi - 1) == leading + sum_over(r, lo, hi - 1)
        + (hi - 1 - lo) * spacing);
    assert(r(hi - 1) == resolved_size(items, wrap, main, hi - 1));
}

/// Growing fills the line. Where the items of a line have a grow weight,
/// fit into the container, and none of them has a lower or an upper limit,
/// each grows by its share of the free space, in proportion to its grow
/// weight and rounded down; the final sizes add up to the size of the
/// container less the rounding, which is under one unit for each item; and
/// they add up to it exactly where every share divides evenly.
pub proof fn lemma_grow_fills_line(items: Seq<FlexItem>, wrap: bool, main: int, i: int)
    requires
        0 <= i < items.len(),
        forall|t: int|
            line_start(items, wrap, main, i) <= t < line_end(items, wrap, main, i) ==> (
            #[trigger] items[t]).min_size.is_none() && items[t].max_size.is_none(),
        sum_over(
            grow_weights(items),
            line_start(items, wrap, main, i),
            line_end(items, wrap, main, i),
        ) > 0,
        initial_free_space(items, wrap, main, i) >= 0,
    ensures
        ({
            let lo = line_start(items, wrap, main, i);
            let hi = line_end(items, wrap, main, i);
            let free = initial_free_space(items, wrap, main, i);
            let total = sum_over(grow_weights(items), lo, hi);
            let filled = sum_over(resolved_sizes(items, wrap, main), lo, hi);
            &&& forall|t: int|
                lo <= t < hi ==> #[trigger] resolved_size(items, wrap, main, t)
                    == items[t].hypothetical_size() + share(free, items[t].grow_weight(), total)
            &&& main - (hi - lo) < filled <= main
            &&& (forall|t: int| lo <= t < hi ==> (free * #[trigger] items[t].grow_weight()) % total == 0)
                ==> filled == main
        }),
{
    let lo = line_start(items, wrap, main, i);
    let hi = line_end(items, wrap, main, i);
    let free = initial_free_space(items, wrap, main, i);
    let g = grow_weights(items);
    let h = hypothetical_sizes(items);
    let r = resolved_sizes(items, wrap, main);
    let total = sum_over(g, lo, hi);
    let sh = shares(g, free, total);
    lemma_line_of(items, wrap, main, i);
    assert forall|t: int| lo <= t < hi implies #[trigger] r(t) == h(t) + sh(t) && resolved_size(
        items,
        wrap,
        main,
        t,
    ) == items[t].hypothetical_size() + share(free, items[t].grow_weight(), total) by {
        assert(line_start(items, wrap, main, t) == lo);
        assert(line_end(items, wrap, main, t) == hi);
        assert(items[t].min_size.is_none() && items[t].max_size.is_none());
        assert(initial_free_space(items, wrap, main, t) == free);
        assert(g(t) == items[t].grow_weight());
        if free == 0 {
            assert(0 * g(t) == 0);
            assert(0int / total == 0) by (nonlinear_arith)
                requires
                    total > 0,
            ;
        }
    }
    assert forall|t: int| lo <= t < hi implies #[trigger] resolved_size(items, wrap, main, t)
        == items[t].hypothetical_size() + share(free, items[t].grow_weight(), total) by {
        assert(r(t) == h(t) + sh(t));
    }
    assert forall|t: int| lo <= t < hi implies 0 <= #[trigger] g(t) by {}
    lemma_sum_add(h, sh, r, lo, hi);
    lemma_shares_sum(g, lo, hi, free, total);
    if forall|t: int| lo <= t < hi ==> (free * #[trigger] items[t].grow_weight()) % total == 0 {
        assert forall|t: int| lo <= t < hi implies (free * #[trigger] g(t)) % total == 0 by {
            assert((free * items[t].grow_weight()) % total == 0);
        }
        lemma_shares_exact(g, lo, hi, free, total);
    }
}

/// Shrinking keeps the order of shrink factors. Of two items of one
/// overflowing line that differ in nothing but the shrink factor, the one
/// with the larger factor never ends up the larger.
pub proof fn lemma_shrink_monotone(items: Seq<FlexItem>, wrap: bool, main: int, i: int, j: int)
    requires
        0 <= i < items.len(),
        0 <= j < items.len(),
        line_start(items, wrap, main, i) == line_start(items, wrap, main, j),
        line_end(items, wrap, main, i) == line_end(items, wrap, main, j),
        initial_free_space(items, wrap, main, i) < 0,
        items[i].flex_basis == items[j].flex_basis,
        items[i].min_size == items[j].min_size,
        items[i].max_size == items[j].max_size,
        items[i].flex_grow == items[j].flex_grow,
        items[i].flex_shrink >= items[j].flex_shrink,
    ensures
        resolved_size(items, wrap, main, i) <= resolved_size(items, wrap, main, j),
{
    let lo = line_start(items, wrap, main, i);
    let hi = line_end(items, wrap, main, i);
    let s = shrink_weights(items);
    let total = sum_over(s, lo, hi);
    let free = initial_free_space(items, wrap, main, i);
    lemma_line_of(items, wrap, main, i);
    lemma_line_of(items, wrap, main, j);
    if total > 0 {
        assert forall|t: int| lo <= t < hi implies 0 <= #[trigger] s(t) by {}
        lemma_sum_part(s, lo, j, j + 1, hi);
        assert(sum_over(s, j, j + 1) == sum_over(s, j, j) + s(j));
        assert(s(j) == items[j].shrink_weight());
        lemma_share_bounds(-free, items[j].shrink_weight(), total);
        lemma_share_monotone(-free, items[j].shrink_weight(), items[i].shrink_weight(), total);
    }
}

/// `SpaceBetween` leaves no space before the first item of a line and the
/// same gap between each two neighbours. With more than one item the gaps
/// fall short of the free space by less than one unit for each gap; where
/// the free space divides evenly they add up to it, and the last item ends
/// where the container ends.
pub proof fn lemma_space_between(items: Seq<FlexItem>, wrap: bool, main: int, i: int)
    requires
        0 <= i < items.len(),
    ensures
        ({
            let justify = JustifyContent::SpaceBetween;
            let lo = line_start(items, wrap, main, i);
            let hi = line_end(items, wrap, main, i);
            let free = free_space(items, wrap, main, i);
            let gaps = hi - lo - 1;
            let gap = item_spacing(justify, free, hi - lo);
            &&& main_position(justify, items, wrap, main, lo) == 0
            &&& forall|t: int|
                lo < t < hi ==> #[trigger] main_position(justify, items, wrap, main, t) - main_end(
                    justify,
                    items,
                    wrap,
                    main,
                    t - 1,
                ) == gap
            &&& gaps > 0 ==> gap == free / gaps && gaps * gap <= free < gaps * gap + gaps
            &&& gaps > 0 && free % gaps == 0 ==> gaps * gap == free && main_end(
                justify,
                items,
                wrap,
                main,
                hi - 1,
            ) == main
        }),
{
    let justify = JustifyContent::SpaceBetween;
    let lo = line_start(items, wrap, main, i);
    let hi = line_end(items, wrap, main, i);
    let free = free_space(items, wrap, main, i);
    let gaps = hi - lo - 1;
    lemma_line_positions(justify, items, wrap, main, i);
    if gaps > 0 {
        lemma_div_bounds(free, gaps);
        vstd::arithmetic::div_mod::lemma_fundamental_div_mod(free, gaps);
    }
}

/// `SpaceEvenly` leaves the same gap before the first item of a line and
/// between each two neighbours. The gap behind the last item is no smaller,
/// and larger by less than one unit for each gap; where the free space
/// divides evenly it is the same gap again.
pub proof fn lemma_space_evenly(items: Seq<FlexItem>, wrap: bool, main: int, i: int)
    requires
        0 <= i < items.len(),
    ensures
        ({
            let justify = JustifyContent::SpaceEvenly;
            let lo = line_start(items, wrap, main, i);
            let hi = line_end(items, wrap, main, i);
            let free = free_space(items, wrap, main, i);
            let gaps = hi - lo + 1;
            let gap = free / gaps;
            let trailing = main - main_end(justify, items, wrap, main, hi - 1);
            &&& main_position(justify, items, wrap, main, lo) == gap
            &&& forall|t: int|
                lo < t < hi ==> #[trigger] main_position(justify, items, wrap, main, t) - main_end(
                    justify,
                    items,
                    wrap,
                    main,
                    t - 1,
                ) == gap
            &&& gap <= trailing < gap + gaps
            &&& free % gaps == 0 ==> trailing == gap && gaps * gap == free
        }),
{
    let justify = JustifyContent::SpaceEvenly;
    let lo = line_start(items, wrap, main, i);
    let hi = line_end(items, wrap, main, i);
    let free = free_space(items, wrap, main, i);
    let gaps = hi - lo + 1;
    let gap = free / gaps;
    lemma_line_positions(justify, items, wrap, main, i);
    lemma_div_bounds(free, gaps);
    vstd::arithmetic::div_mod::lemma_fundamental_div_mod(free, gaps);
    assert(gaps * gap == (hi - lo - 1) * gap + gap + gap) by (nonlinear_arith)
        requires
            gaps == hi - lo + 1,
    ;
}

/// `SpaceAround` leaves the same gap between each two neighbours of a line
/// and half of it, rounded down, before the first item. Where the gap is
/// even it is twice the space at the start; where the free space also
/// divides evenly, the space behind the last item is that half gap too.
pub proof fn lemma_space_around(items: Seq<FlexItem>, wrap: bool, main: int, i: int)
    requires
        0 <= i < items.len(),
    ensures
        ({
            let justify = JustifyContent::SpaceAround;
            let lo = line_start(items, wrap, main, i);
            let hi = line_end(items, wrap, main, i);
            let free = free_space(items, wrap, main, i);
            let count = hi - lo;
            let gap = free / count;
            let leading = main_position(justify, items, wrap, main, lo);
            let trailing = main - main_end(justify, items, wrap, main, hi - 1);
            &&& leading == gap / 2
            &&& forall|t: int|
                lo < t < hi ==> #[trigger] main_position(justify, items, wrap, main, t) - main_end(
                    justify,
                    items,
                    wrap,
                    main,
                    t - 1,
                ) == gap
            &&& gap % 2 == 0 ==> gap == 2 * leading
            &&& gap % 2 == 0 && free % count == 0 ==> trailing == leading && count * gap == free
        }),
{
    let justify = JustifyContent::SpaceAround;
    let lo = line_start(items, wrap, main, i);
    let hi = line_end(items, wrap, main, i);
    let free = free_space(items, wrap, main, i);
    let count = hi - lo;
    let gap = free / count;
    lemma_line_positions(justify, items, wrap, main, i);
    vstd::arithmetic::div_mod::lemma_fundamental_div_mod(free, count);
    vstd::arithmetic::div_mod::lemma_fundamental_div_mod(gap, 2);
    assert(count * gap == (count - 1) * gap + gap) by (nonlinear_arith);
}

impl FlexContainer {
    /// Parse flexbox properties from styled node: a container where the
    /// display of the node is `flex` or `inline-flex`, none for every
    /// other node.
    pub fn from_styled_node(node: &StyledNode) -> (container: Option<Self>)
        ensures
            container.is_some() == is_flex_display(node.spec_value("display"@)),
            match container {
                Some(c) => {
                    &&& c.direction == direction_of(node.spec_value("flex-direction"@))
                    &&& c.wrap == wrap_of(node.spec_value("flex-wrap"@))
                    &&& c.justify_content == justify_of(node.spec_value("justify-content"@))
                    &&& c.align_items == align_of(node.spec_value("align-items"@))
                },
                None => true,
            },
    {
        let is_flex = match node.value("display") {
            Some(v) => v.is_keyword("flex") || v.is_keyword("inline-flex"),
            None => false,
        };
        if is_flex {
            let direction = Self::parse_direction(node);
            let wrap = Self::parse_wrap(node);
            let justify_content = Self::parse_justify_content(node);
            let align_items = Self::parse_align_items(node);
            Some(FlexContainer { direction, wrap, justify_content, align_items })
        } else {
            None
        }
    }

    fn parse_direction(node: &StyledNode) -> (direction: FlexDirection)
        ensures
            direction == direction_of(node.spec_value("flex-direction"@)),
    {
        match node.value("flex-direction") {
            Some(v) => {
                if v.is_keyword("row-reverse") {
                    FlexDirection::RowReverse
                } else if v.is_keyword("column") {
                    FlexDirection::Column
                } else if v.is_keyword("column-reverse") {
                    FlexDirection::ColumnReverse
                } else {
                    FlexDirection::Row
                }
            },
            None => FlexDirection::Row,
        }
    }

    fn parse_wrap(node: &StyledNode) -> (wrap: FlexWrap)
        ensures
            wrap == wrap_of(node.spec_value("flex-wrap"@)),
    {
        match node.value("flex-wrap") {
            Some(v) => {
                if v.is_keyword("wrap") {
                    FlexWrap::Wrap
                } else if v.is_keyword("wrap-reverse") {
                    FlexWrap::WrapReverse
                } else {
                    FlexWrap::NoWrap
                }
            },
            None => FlexWrap::NoWrap,
        }
    }

    fn parse_justify_content(node: &StyledNode) -> (justify: JustifyContent)
        ensures
            justify == justify_of(node.spec_value("justify-content"@)),
    {
        match node.value("justify-content") {
            Some(v) => {
                if v.is_keyword("flex-end") {
                    JustifyContent::FlexEnd
                } else if v.is_keyword("center") {
                    JustifyContent::Center
                } else if v.is_keyword("space-between") {
                    JustifyContent::SpaceBetween
                } else if v.is_keyword("space-around") {
                    JustifyContent::SpaceAround
                } else if v.is_keyword("space-evenly") {
                    JustifyContent::SpaceEvenly
                } else {
                    JustifyContent::FlexStart
                }
            },
            None => JustifyContent::FlexStart,
        }
    }

    fn parse_align_items(node: &StyledNode) -> (align: AlignItems)
        ensures
            align == align_of(node.spec_value("align-items"@)),
    {
        match node.value("align-items") {
            Some(v) => {
                if v.is_keyword("flex-start") {
                    AlignItems::FlexStart
                } else if v.is_keyword("flex-end") {
                    AlignItems::FlexEnd
                } else if v.is_keyword("center") {
                    AlignItems::Center
                } else if v.is_keyword("baseline") {
                    AlignItems::Baseline
                } else {
                    AlignItems::Stretch
                }
            },
            None => AlignItems::Stretch,
        }
    }

    /// Whether the items may be broken into several lines.
    pub open spec fn wraps(self) -> bool {
        self.wrap != FlexWrap::NoWrap
    }

    /// Whether the main axis is the horizontal one.
    pub open spec fn is_row(self) -> bool {
        self.direction == FlexDirection::Row || self.direction == FlexDirection::RowReverse
    }

    /// Whether the items run against the main axis.
    pub open spec fn is_reversed(self) -> bool {
        self.direction == FlexDirection::RowReverse || self.direction
            == FlexDirection::ColumnReverse
    }

    /// The size of the container along the main axis.
    pub open spec fn main_axis_size(self, container: Dimensions) -> int {
        if self.is_row() {
            container.content.width as int
        } else {
            container.content.height as int
        }
    }

    /// The size of the container along the cross axis.
    pub open spec fn cross_axis_size(self, container: Dimensions) -> int {
        if self.is_row() {
            container.content.height as int
        } else {
            container.content.width as int
        }
    }

    /// The main size of item `i`.
    pub open spec fn item_main_size(self, container: Dimensions, items: Seq<FlexItem>, i: int) -> int {
        resolved_size(items, self.wraps(), self.main_axis_size(container), i)
    }

    /// Where item `i` starts on a main axis that is `main` long. In a
    /// reversed direction the position is mirrored in the container.
    pub open spec fn main_start(self, items: Seq<FlexItem>, main: int, i: int) -> int {
        let position = main_position(self.justify_content, items, self.wraps(), main, i);
        if self.is_reversed() {
            main - position - resolved_size(items, self.wraps(), main, i)
        } else {
            position
        }
    }

    /// Where item `i` starts on the main axis of the container.
    pub open spec fn item_main_start(self, container: Dimensions, items: Seq<FlexItem>, i: int) -> int {
        self.main_start(items, self.main_axis_size(container), i)
    }

    /// The cross size of every line.
    pub open spec fn line_cross(self, container: Dimensions, items: Seq<FlexItem>) -> int {
        line_cross_size(
            self.cross_axis_size(container),
            line_count(items, self.wraps(), self.main_axis_size(container)),
        )
    }

    /// Where item `i` starts on the cross axis.
    pub open spec fn item_cross_start(self, container: Dimensions, items: Seq<FlexItem>, i: int) -> int {
        cross_position(
            self.align_items,
            line_index(items, self.wraps(), self.main_axis_size(container), i),
            self.line_cross(container, items),
        )
    }

    /// The cross size of item `i`.
    pub open spec fn item_cross_size(self, container: Dimensions, items: Seq<FlexItem>) -> int {
        cross_extent(self.align_items, self.line_cross(container, items))
    }

    /// Whether `d` is the box of item `i`: the content rectangle holds the
    /// item's start and size on the main and on the cross axis, and padding,
    /// border and margin are zero.
    pub open spec fn is_item_box(
        self,
        container: Dimensions,
        items: Seq<FlexItem>,
        i: int,
        d: Dimensions,
    ) -> bool {
        &&& main_start_of(self.is_row(), d) == self.item_main_start(container, items, i)
        &&& main_extent_of(self.is_row(), d) == self.item_main_size(container, items, i)
        &&& cross_start_of(self.is_row(), d) == self.item_cross_start(container, items, i)
        &&& cross_extent_of(self.is_row(), d) == self.item_cross_size(container, items)
        &&& d.padding == EdgeSizes::zero()
        &&& d.border == EdgeSizes::zero()
        &&& d.margin == EdgeSizes::zero()
    }

    /// Calculate flexbox layout.
    ///
    /// Gives one box for each item, in the order of the items; none for no
    /// items. Coordinates are relative to the content box of the container.
    pub fn layout(&self, container_dimensions: Dimensions, items: &[FlexItem]) -> (result: Vec<
        Dimensions,
    >)
        requires
            container_dimensions.bounded(),
            items_bounded(items@),
        ensures
            result.len() == items.len(),
            forall|i: int|
                0 <= i < items.len() ==> self.is_item_box(
                    container_dimensions,
                    items@,
                    i,
                    #[trigger] result[i],
                ),
    {
        if items.len() == 0 {
            return Vec::new();
        }
        let ghost wrap = self.wraps();
        let (main_axis_size, cross_axis_size) = self.get_axis_sizes(&container_dimensions);
        let ghost main = main_axis_size as int;
        let mut item_states = self.initialize_item_states(items);
        let mut lines = self.collect_flex_lines(&item_states, main_axis_size, Ghost(items@));
        let ghost mut done: int = 0;
        let mut k: usize = 0;
        while k < lines.len()
            invariant
                items_bounded(items@),
                in_range(main_axis_size),
                wrap == self.wraps(),
                main == main_axis_size as int,
                lines_cover(lines@, items@, wrap, main),
                states_match(item_states@, items@),
                k <= lines.len(),
                0 <= done <= items.len(),
                k < lines.len() ==> done == lines[k as int].start,
                k == lines.len() ==> done == items.len(),
                states_resolved(item_states@, items@, wrap, main, done),
            decreases lines.len() - k,
        {
            let line = lines[k];
            proof {
                if k + 1 < lines.len() {
                    lemma_next_line(lines@, k as int);
                }
            }
            self.resolve_flexible_lengths(&mut item_states, &line, main_axis_size, items);
            proof {
                done = line.end as int;
            }
            k = k + 1;
        }
        let ghost collected = lines@;
        self.calculate_cross_sizes(&mut lines, cross_axis_size);
        proof {
            lemma_same_bounds(collected, lines@);
            assert(lines_cover(lines@, items@, wrap, main));
        }
        let positioned = self.align_main_axis(&item_states, &lines, main_axis_size, Ghost(items@));
        let placed = self.align_cross_axis(
            positioned,
            &lines,
            cross_axis_size,
            Ghost(items@),
            Ghost(main),
        );
        placed
    }

    /// Calculate flexbox layout where the container and at most `MAX_COUNT`
    /// items are bounded; none else.
    pub fn try_layout(&self, container_dimensions: Dimensions, items: &[FlexItem]) -> (result:
        Option<Vec<Dimensions>>)
        ensures
            result.is_some() == (container_dimensions.bounded() && items_bounded(items@)),
            match result {
                Some(boxes) => boxes.len() == items.len() && forall|i: int|
                    0 <= i < items.len() ==> self.is_item_box(
                        container_dimensions,
                        items@,
                        i,
                        #[trigger] boxes[i],
                    ),
                None => true,
            },
    {
        if !dimensions_are_bounded(&container_dimensions) || items.len() > MAX_COUNT {
            return None;
        }
        let mut i: usize = 0;
        while i < items.len()
            invariant
                i <= items.len(),
                forall|j: int| 0 <= j < i ==> (#[trigger] items@[j]).bounded(),
            decreases items.len() - i,
        {
            let item = &items[i];
            if !(is_in_range(item.flex_grow) && is_in_range(item.flex_shrink)
                && optional_is_in_range(item.flex_basis) && optional_is_in_range(item.min_size)
                && optional_is_in_range(item.max_size)) {
                assert(!items@[i as int].bounded());
                return None;
            }
            i = i + 1;
        }
        Some(self.layout(container_dimensions, items))
    }

    /// Get main and cross axis sizes from container dimensions
    fn get_axis_sizes(&self, container: &Dimensions) -> (sizes: (i64, i64))
        ensures
            sizes.0 == self.main_axis_size(*container),
            sizes.1 == self.cross_axis_size(*container),
    {
        match self.direction {
            FlexDirection::Row | FlexDirection::RowReverse => (
                container.content.width,
                container.content.height,
            ),
            FlexDirection::Column | FlexDirection::ColumnReverse => (
                container.content.height,
                container.content.width,
            ),
        }
    }

    /// Clamp size between min and max constraints
    fn clamp_size(&self, size: i64, min: Option<i64>, max: Option<i64>) -> (result: i64)
        ensures
            result == clamp(size as int, min, max),
    {
        let mut result = size;
        if let Some(min_size) = min {
            if result < min_size {
                result = min_size;
            }
        }
        if let Some(max_size) = max {
            if result > max_size {
                result = max_size;
            }
        }
        result
    }

    /// Initialize flex item states with base sizes
    fn initialize_item_states(&self, items: &[FlexItem]) -> (states: Vec<FlexItemState>)
        ensures
            states_match(states@, items@),
            forall|i: int|
                0 <= i < items.len() ==> (#[trigger] states[i]).main_size
                    == items[i].hypothetical_size() && states[i].cross_size == 0,
    {
        let mut states: Vec<FlexItemState> = Vec::new();
        let mut i: usize = 0;
        while i < items.len()
            invariant
                i <= items.len(),
                states.len() == i,
                forall|j: int|
                    0 <= j < i ==> {
                        &&& (#[trigger] states[j]).hypothetical_size
                            == items[j].hypothetical_size()
                        &&& states[j].base_size == items[j].base_size()
                        &&& states[j].main_size == items[j].hypothetical_size()
                        &&& states[j].cross_size == 0
                    },
            decreases items.len() - i,
        {
            let item = items[i];
            let base_size: i64 = match item.flex_basis {
                Some(b) => b,
                None => 0,
            };
            let hypothetical_size = self.clamp_size(base_size, item.min_size, item.max_size);
            states.push(
                FlexItemState {
                    base_size,
                    hypothetical_size,
                    main_size: hypothetical_size,
                    cross_size: 0,
                },
            );
            i = i + 1;
        }
        states
    }

    /// Collect items into flex lines based on wrapping
    fn collect_flex_lines(
        &self,
        states: &Vec<FlexItemState>,
        main_axis_size: i64,
        Ghost(items): Ghost<Seq<FlexItem>>,
    ) -> (lines: Vec<FlexLine>)
        requires
            items_bounded(items),
            items.len() > 0,
            states_match(states@, items),
            in_range(main_axis_size),
        ensures
            lines_cover(lines@, items, self.wraps(), main_axis_size as int),
            lines.len() <= items.len(),
    {
        let n = states.len();
        let ghost wrap = self.wraps();
        let ghost main = main_axis_size as int;
        let ghost h = hypothetical_sizes(items);
        let mut lines: Vec<FlexLine> = Vec::new();
        let mut lo: usize = 0;
        let mut used: i64 = states[0].hypothetical_size;
        let mut i: usize = 1;
        let no_wrap = self.wrap == FlexWrap::NoWrap;
        proof {
            assert(sum_over(h, 0, 1) == sum_over(h, 0, 0) + h(0));
            lemma_hypothetical_bounds(items, 0, 1);
            assert(lines_adjacent(lines@)) by {
                reveal(lines_adjacent);
            }
        }
        while i < n
            invariant
                n == states.len(),
                n == items.len(),
                items_bounded(items),
                states_match(states@, items),
                in_range(main_axis_size),
                wrap == self.wraps(),
                no_wrap == !wrap,
                main == main_axis_size as int,
                h == hypothetical_sizes(items),
                1 <= i <= n,
                lo < i,
                forall|t: int| lo <= t < i ==> #[trigger] line_start(items, wrap, main, t) == lo,
                used == sum_over(h, lo as int, i as int),
                lines.len() == line_index(items, wrap, main, lo as int),
                lines.len() <= lo,
                lines.len() == 0 ==> lo == 0,
                lines.len() > 0 ==> lines[0].start == 0 && lines[lines.len() - 1].end == lo,
                forall|k: int|
                    0 <= k < lines.len() ==> {
                        &&& is_line(
                            items,
                            wrap,
                            main,
                            (#[trigger] lines[k]).start as int,
                            lines[k].end as int,
                        )
                        &&& line_index(items, wrap, main, lines[k].start as int) == k
                        &&& lines[k].main_size == sum_over(
                            h,
                            lines[k].start as int,
                            lines[k].end as int,
                        )
                    },
                lines_adjacent(lines@),
            decreases n - i,
        {
            let size = states[i].hypothetical_size;
            proof {
                lemma_hypothetical_bounds(items, lo as int, i as int);
                lemma_hypothetical_bounds(items, lo as int, i as int + 1);
                assert(h(i as int) == items[i as int].hypothetical_size());
                assert(line_start(items, wrap, main, i as int - 1) == lo);
                assert(sum_over(h, i as int, i as int + 1) == sum_over(h, i as int, i as int) + h(
                    i as int,
                ));
            }
            if !no_wrap && used + size > main_axis_size {
                proof {
                    assert(line_start(items, wrap, main, i as int) == i);
                    assert(is_line(items, wrap, main, lo as int, i as int));
                    lemma_push_line(
                        lines@,
                        FlexLine { start: lo, end: i, main_size: used, cross_size: 0 },
                    );
                    lemma_line_members(items, wrap, main, lo as int, i as int);
                    assert(line_index(items, wrap, main, i as int - 1) == line_index(
                        items,
                        wrap,
                        main,
                        lo as int,
                    ));
                }
                lines.push(FlexLine { start: lo, end: i, main_size: used, cross_size: 0 });
                lo = i;
                used = size;
            } else {
                proof {
                    assert(line_start(items, wrap, main, i as int) == lo);
                }
                used = used + size;
            }
            i = i + 1;
        }
        proof {
            assert(is_line(items, wrap, main, lo as int, n as int));
            lemma_line_members(items, wrap, main, lo as int, n as int);
            lemma_push_line(lines@, FlexLine { start: lo, end: n, main_size: used, cross_size: 0 });
        }
        lines.push(FlexLine { start: lo, end: n, main_size: used, cross_size: 0 });
        lines
    }

    /// Resolve flexible lengths (grow/shrink algorithm) for the items of one
    /// line.
    fn resolve_flexible_lengths(
        &self,
        states: &mut Vec<FlexItemState>,
        line: &FlexLine,
        main_axis_size: i64,
        items: &[FlexItem],
    )
        requires
            items_bounded(items@),
            in_range(main_axis_size),
            states_match(old(states)@, items@),
            is_line(
                items@,
                self.wraps(),
                main_axis_size as int,
                line.start as int,
                line.end as int,
            ),
            line.main_size == sum_over(
                hypothetical_sizes(items@),
                line.start as int,
                line.end as int,
            ),
        ensures
            states_match(final(states)@, items@),
            forall|j: int|
                line.start <= j < line.end ==> (#[trigger] final(states)@[j]).main_size
                    == resolved_size(items@, self.wraps(), main_axis_size as int, j),
            forall|j: int|
                0 <= j < line.start || line.end <= j < items.len() ==> #[trigger] final(states)@[j]
                    == old(states)@[j],
    {
        let ghost wrap = self.wraps();
        let ghost main = main_axis_size as int;
        let ghost g = grow_weights(items@);
        let ghost s = shrink_weights(items@);
        let ghost lo = line.start as int;
        let ghost hi = line.end as int;
        proof {
            lemma_hypothetical_bounds(items@, lo, hi);
        }
        let free: i64 = main_axis_size - line.main_size;
        let mut total_grow: i64 = 0;
        let mut total_shrink: i64 = 0;
        let mut j: usize = line.start;
        while j < line.end
            invariant
                items_bounded(items@),
                line.start <= j <= line.end <= items.len(),
                g == grow_weights(items@),
                s == shrink_weights(items@),
                total_grow == sum_over(g, line.start as int, j as int),
                total_shrink == sum_over(s, line.start as int, j as int),
            decreases line.end - j,
        {
            proof {
                lemma_weight_bounds(items@, line.start as int, j as int + 1);
                assert(items@[j as int].bounded());
            }
            let item = items[j];
            if item.flex_grow > 0 {
                total_grow = total_grow + item.flex_grow;
            }
            if item.flex_shrink > 0 {
                total_shrink = total_shrink + item.flex_shrink;
            }
            j = j + 1;
        }
        let mut j: usize = line.start;
        while j < line.end
            invariant
                items_bounded(items@),
                in_range(main_axis_size),
                wrap == self.wraps(),
                main == main_axis_size as int,
                lo == line.start as int,
                hi == line.end as int,
                is_line(items@, wrap, main, lo, hi),
                line.start <= j <= line.end <= items.len(),
                g == grow_weights(items@),
                s == shrink_weights(items@),
                total_grow == sum_over(g, lo, hi),
                total_shrink == sum_over(s, lo, hi),
                free == main - sum_over(hypothetical_sizes(items@), lo, hi),
                states_match(states@, items@),
                forall|t: int|
                    line.start <= t < j ==> (#[trigger] states@[t]).main_size == resolved_size(
                        items@,
                        wrap,
                        main,
                        t,
                    ),
                forall|t: int|
                    0 <= t < line.start || j <= t < items.len() ==> #[trigger] states@[t] == old(
                        states,
                    )@[t],
            decreases line.end - j,
        {
            let item = items[j];
            let state = states[j];
            let size = state.hypothetical_size;
            proof {
                lemma_line_members(items@, wrap, main, lo, hi);
                lemma_weight_bounds(items@, lo, hi);
                lemma_hypothetical_bounds(items@, lo, hi);
                assert(items@[j as int].bounded());
                assert(line_start(items@, wrap, main, j as int) == lo);
                assert(line_end(items@, wrap, main, j as int) == hi);
                assert(g(j as int) == items@[j as int].grow_weight());
                assert(s(j as int) == items@[j as int].shrink_weight());
                assert(hypothetical_sizes(items@)(j as int) == size);
            }
            let flexed: i64 = if free > 0 && total_grow > 0 {
                let weight: i64 = if item.flex_grow > 0 {
                    item.flex_grow
                } else {
                    0
                };
                size + share_of(free, weight, total_grow)
            } else if free < 0 && total_shrink > 0 {
                let weight: i64 = if item.flex_shrink > 0 {
                    item.flex_shrink
                } else {
                    0
                };
                let cut = share_of(-free, weight, total_shrink);
                if cut > 0 && size > 0 {
                    if size - cut > 0 {
                        size - cut
                    } else {
                        0
                    }
                } else {
                    size
                }
            } else {
                size
            };
            assert(flexed == flexed_size(items@, wrap, main, j as int));
            let main_size = self.clamp_size(flexed, item.min_size, item.max_size);
            states.set(
                j,
                FlexItemState {
                    base_size: state.base_size,
                    hypothetical_size: state.hypothetical_size,
                    main_size,
                    cross_size: state.cross_size,
                },
            );
            j = j + 1;
        }
    }

    /// Calculate the cross size of the lines: the cross size of the
    /// container, split evenly.
    fn calculate_cross_sizes(&self, lines: &mut Vec<FlexLine>, cross_axis_size: i64)
        requires
            1 <= old(lines).len() <= MAX_COUNT,
            in_range(cross_axis_size),
        ensures
            final(lines).len() == old(lines).len(),
            forall|k: int|
                0 <= k < old(lines).len() ==> {
                    &&& (#[trigger] final(lines)@[k]).start == old(lines)@[k].start
                    &&& final(lines)@[k].end == old(lines)@[k].end
                    &&& final(lines)@[k].main_size == old(lines)@[k].main_size
                    &&& final(lines)@[k].cross_size == line_cross_size(
                        cross_axis_size as int,
                        old(lines).len() as int,
                    )
                },
    {
        let count = lines.len();
        let room: i64 = if cross_axis_size > 0 {
            cross_axis_size
        } else {
            0
        };
        let cross_size: i64 = room / (count as i64);
        let mut k: usize = 0;
        while k < count
            invariant
                k <= count,
                count == lines.len(),
                count == old(lines).len(),
                cross_size == line_cross_size(cross_axis_size as int, count as int),
                forall|t: int|
                    0 <= t < count ==> {
                        &&& (#[trigger] lines@[t]).start == old(lines)@[t].start
                        &&& lines@[t].end == old(lines)@[t].end
                        &&& lines@[t].main_size == old(lines)@[t].main_size
                    },
                forall|t: int| 0 <= t < k ==> (#[trigger] lines@[t]).cross_size == cross_size,
            decreases count - k,
        {
            let line = lines[k];
            lines.set(
                k,
                FlexLine {
                    start: line.start,
                    end: line.end,
                    main_size: line.main_size,
                    cross_size,
                },
            );
            k = k + 1;
        }
    }

    /// The leading space and the spacing that `justify-content` asks for in
    /// a line of `count` items with `free` space left.
    fn justify_spaces(&self, free: i64, count: usize) -> (spaces: (i64, i64))
        requires
            1 <= count <= MAX_COUNT,
        ensures
            spaces.0 == leading_space(self.justify_content, free as int, count as int),
            spaces.1 == item_spacing(self.justify_content, free as int, count as int),
    {
        match self.justify_content {
            JustifyContent::FlexStart => (0, 0),
            JustifyContent::FlexEnd => (free, 0),
            JustifyContent::Center => (div_floor(free, 2), 0),
            JustifyContent::SpaceBetween => {
                if count > 1 {
                    (0, div_floor(free, (count - 1) as i64))
                } else {
                    (0, 0)
                }
            },
            JustifyContent::SpaceAround => {
                let gap = div_floor(free, count as i64);
                (div_floor(gap, 2), gap)
            },
            JustifyContent::SpaceEvenly => {
                let gap = div_floor(free, (count + 1) as i64);
                (gap, gap)
            },
        }
    }

    /// Align items on main axis (justify-content)
    fn align_main_axis(
        &self,
        states: &Vec<FlexItemState>,
        lines: &Vec<FlexLine>,
        main_axis_size: i64,
        Ghost(items): Ghost<Seq<FlexItem>>,
    ) -> (results: Vec<Dimensions>)
        requires
            items_bounded(items),
            in_range(main_axis_size),
            states_match(states@, items),
            states_resolved(states@, items, self.wraps(), main_axis_size as int, items.len() as int),
            lines_cover(lines@, items, self.wraps(), main_axis_size as int),
        ensures
            results.len() == items.len(),
            forall|j: int|
                0 <= j < items.len() ==> {
                    &&& main_start_of(self.is_row(), #[trigger] results[j]) == self.main_start(
                        items,
                        main_axis_size as int,
                        j,
                    )
                    &&& main_extent_of(self.is_row(), results[j]) == resolved_size(
                        items,
                        self.wraps(),
                        main_axis_size as int,
                        j,
                    )
                    &&& cross_start_of(self.is_row(), results[j]) == 0
                    &&& cross_extent_of(self.is_row(), results[j]) == 0
                    &&& results[j].padding == EdgeSizes::zero()
                    &&& results[j].border == EdgeSizes::zero()
                    &&& results[j].margin == EdgeSizes::zero()
                },
    {
        let ghost wrap = self.wraps();
        let ghost main = main_axis_size as int;
        let ghost r = resolved_sizes(items, wrap, main);
        let n = states.len();
        let row = match self.direction {
            FlexDirection::Row | FlexDirection::RowReverse => true,
            _ => false,
        };
        let reversed = match self.direction {
            FlexDirection::RowReverse | FlexDirection::ColumnReverse => true,
            _ => false,
        };
        let mut results: Vec<Dimensions> = Vec::new();
        let mut k: usize = 0;
        while k < lines.len()
            invariant
                items_bounded(items),
                in_range(main_axis_size),
                states_match(states@, items),
                states_resolved(states@, items, wrap, main, items.len() as int),
                lines_cover(lines@, items, wrap, main),
                wrap == self.wraps(),
                main == main_axis_size as int,
                r == resolved_sizes(items, wrap, main),
                row == self.is_row(),
                reversed == self.is_reversed(),
                n == items.len(),
                k <= lines.len(),
                k < lines.len() ==> results.len() == lines[k as int].start,
                k == lines.len() ==> results.len() == n,
                forall|j: int|
                    0 <= j < results.len() ==> {
                        &&& main_start_of(row, #[trigger] results[j]) == self.main_start(
                            items,
                            main,
                            j,
                        )
                        &&& main_extent_of(row, results[j]) == resolved_size(items, wrap, main, j)
                        &&& cross_start_of(row, results[j]) == 0
                        &&& cross_extent_of(row, results[j]) == 0
                        &&& results[j].padding == EdgeSizes::zero()
                        &&& results[j].border == EdgeSizes::zero()
                        &&& results[j].margin == EdgeSizes::zero()
                    },
            decreases lines.len() - k,
        {
            let line = lines[k];
            let ghost lo = line.start as int;
            let ghost hi = line.end as int;
            assert(is_line(items, wrap, main, lo, hi));
            proof {
                if k + 1 < lines.len() {
                    lemma_next_line(lines@, k as int);
                }
            }
            let mut used: i64 = 0;
            let mut j: usize = line.start;
            while j < line.end
                invariant
                    items_bounded(items),
                    in_range(main_axis_size),
                    main == main_axis_size as int,
                    states_match(states@, items),
                    states_resolved(states@, items, wrap, main, items.len() as int),
                    r == resolved_sizes(items, wrap, main),
                    lo == line.start as int,
                    hi == line.end as int,
                    is_line(items, wrap, main, lo, hi),
                    line.start <= j <= line.end,
                    used == sum_over(r, lo, j as int),
                    -0x0100_0000_0000_0000 <= used <= 0x0300_0000_0000_0000,
                decreases line.end - j,
            {
                proof {
                    lemma_resolved_bounds(items, wrap, main, lo, hi, lo, j as int + 1);
                    assert(r(j as int) == states@[j as int].main_size);
                }
                used = used + states[j].main_size;
                j = j + 1;
            }
            let free: i64 = main_axis_size - used;
            let count: usize = line.end - line.start;
            let (leading, spacing) = self.justify_spaces(free, count);
            let mut position: i64 = leading;
            let mut j: usize = line.start;
            proof {
                lemma_spacing_bounds(self.justify_content, free as int, count as int, 0);
                assert(0 * spacing == 0);
            }
            while j < line.end
                invariant
                    items_bounded(items),
                    in_range(main_axis_size),
                    main == main_axis_size as int,
                    wrap == self.wraps(),
                    row == self.is_row(),
                    reversed == self.is_reversed(),
                    states_match(states@, items),
                    states_resolved(states@, items, wrap, main, items.len() as int),
                    r == resolved_sizes(items, wrap, main),
                    lo == line.start as int,
                    hi == line.end as int,
                    count == hi - lo,
                    1 <= count <= MAX_COUNT,
                    is_line(items, wrap, main, lo, hi),
                    line.start <= j <= line.end,
                    free == main - sum_over(r, lo, hi),
                    -0x0400_0000_0000_0000 <= free <= 0x0400_0000_0000_0000,
                    leading == leading_space(self.justify_content, free as int, count as int),
                    spacing == item_spacing(self.justify_content, free as int, count as int),
                    position == leading + sum_over(r, lo, j as int) + (j - lo) * spacing,
                    results.len() == j,
                    forall|t: int|
                        0 <= t < results.len() ==> {
                            &&& main_start_of(row, #[trigger] results[t]) == self.main_start(
                                items,
                                main,
                                t,
                            )
                            &&& main_extent_of(row, results[t]) == resolved_size(
                                items,
                                wrap,
                                main,
                                t,
                            )
                            &&& cross_start_of(row, results[t]) == 0
                            &&& cross_extent_of(row, results[t]) == 0
                            &&& results[t].padding == EdgeSizes::zero()
                            &&& results[t].border == EdgeSizes::zero()
                            &&& results[t].margin == EdgeSizes::zero()
                        },
                decreases line.end - j,
            {
                let size = states[j].main_size;
                proof {
                    lemma_line_members(items, wrap, main, lo, hi);
                    lemma_resolved_bounds(items, wrap, main, lo, hi, lo, j as int);
                    lemma_resolved_bounds(items, wrap, main, lo, hi, lo, j as int + 1);
                    lemma_spacing_bounds(
                        self.justify_content,
                        free as int,
                        count as int,
                        j as int - lo,
                    );
                    lemma_spacing_bounds(
                        self.justify_content,
                        free as int,
                        count as int,
                        j as int + 1 - lo,
                    );
                    assert((j + 1 - lo) * spacing == (j - lo) * spacing + spacing)
                        by (nonlinear_arith);
                    assert(r(j as int) == size);
                    assert(line_start(items, wrap, main, j as int) == lo);
                    assert(line_end(items, wrap, main, j as int) == hi);
                    assert(free_space(items, wrap, main, j as int) == free);
                    assert(main_position(self.justify_content, items, wrap, main, j as int)
                        == position);
                }
                let start: i64 = if reversed {
                    main_axis_size - position - size
                } else {
                    position
                };
                let content = if row {
                    Rect { x: start, y: 0, width: size, height: 0 }
                } else {
                    Rect { x: 0, y: start, width: 0, height: size }
                };
                results.push(
                    Dimensions {
                        content,
                        padding: EdgeSizes { left: 0, right: 0, top: 0, bottom: 0 },
                        border: EdgeSizes { left: 0, right: 0, top: 0, bottom: 0 },
                        margin: EdgeSizes { left: 0, right: 0, top: 0, bottom: 0 },
                    },
                );
                position = position + size + spacing;
                j = j + 1;
            }
            k = k + 1;
        }
        results
    }

    /// Align items on cross axis (align-items)
    fn align_cross_axis(
        &self,
        results: Vec<Dimensions>,
        lines: &Vec<FlexLine>,
        cross_axis_size: i64,
        Ghost(items): Ghost<Seq<FlexItem>>,
        Ghost(main): Ghost<int>,
    ) -> (placed: Vec<Dimensions>)
        requires
            items_bounded(items),
            in_range(cross_axis_size),
            results.len() == items.len(),
            lines.len() <= items.len(),
            lines_cover(lines@, items, self.wraps(), main),
            forall|k: int|
                0 <= k < lines.len() ==> (#[trigger] lines[k]).cross_size == line_cross_size(
                    cross_axis_size as int,
                    lines.len() as int,
                ),
        ensures
            placed.len() == items.len(),
            forall|j: int|
                0 <= j < items.len() ==> cross_placed(
                    #[trigger] placed[j],
                    results[j],
                    self.is_row(),
                    self.align_items,
                    line_index(items, self.wraps(), main, j),
                    line_cross_size(cross_axis_size as int, line_count(items, self.wraps(), main)),
                ),
    {
        let ghost wrap = self.wraps();
        let ghost given = results@;
        let ghost line_cross = line_cross_size(cross_axis_size as int, lines.len() as int);
        let mut results = results;
        let mut current_cross: i64 = 0;
        let mut k: usize = 0;
        let ghost mut done: int = 0;
        proof {
            lemma_div_bounds(max_int(cross_axis_size as int, 0), lines.len() as int);
            assert(0 <= line_cross <= MAX_LENGTH) by (nonlinear_arith)
                requires
                    lines.len() >= 1,
                    lines.len() * line_cross <= max_int(cross_axis_size as int, 0),
                    max_int(cross_axis_size as int, 0) < lines.len() * line_cross + lines.len(),
                    0 <= max_int(cross_axis_size as int, 0) <= MAX_LENGTH,
            ;
            assert(0 * line_cross == 0);
        }
        while k < lines.len()
            invariant
                items_bounded(items),
                wrap == self.wraps(),
                given.len() == items.len(),
                results.len() == items.len(),
                lines.len() <= items.len(),
                lines_cover(lines@, items, wrap, main),
                0 <= line_cross <= MAX_LENGTH,
                forall|t: int| 0 <= t < lines.len() ==> (#[trigger] lines[t]).cross_size == line_cross,
                k <= lines.len(),
                current_cross == k * line_cross,
                0 <= done <= items.len(),
                k < lines.len() ==> done == lines[k as int].start,
                k == lines.len() ==> done == items.len(),
                forall|j: int|
                    0 <= j < done ==> cross_placed(
                        #[trigger] results[j],
                        given[j],
                        self.is_row(),
                        self.align_items,
                        line_index(items, wrap, main, j),
                        line_cross,
                    ),
                forall|j: int| done <= j < items.len() ==> #[trigger] results[j] == given[j],
            decreases lines.len() - k,
        {
            let line = lines[k];
            assert(is_line(items, wrap, main, line.start as int, line.end as int));
            proof {
                assert(k * line_cross <= 0x0100_0000_0000_0000 && (k + 1) * line_cross == k
                    * line_cross + line_cross && k * line_cross >= 0) by (nonlinear_arith)
                    requires
                        0 <= k < 1_048_576,
                        0 <= line_cross <= 68_719_476_736,
                ;
                lemma_line_members(items, wrap, main, line.start as int, line.end as int);
                if k + 1 < lines.len() {
                    lemma_next_line(lines@, k as int);
                }
            }
            results = self.align_line(
                results,
                &line,
                k,
                current_cross,
                Ghost(given),
                Ghost(items),
                Ghost(main),
            );
            current_cross = current_cross + line.cross_size;
            proof {
                done = line.end as int;
            }
            k = k + 1;
        }
        results
    }

    /// Places the items of one line on the cross axis.
    fn align_line(
        &self,
        results: Vec<Dimensions>,
        line: &FlexLine,
        number: usize,
        current_cross: i64,
        Ghost(given): Ghost<Seq<Dimensions>>,
        Ghost(items): Ghost<Seq<FlexItem>>,
        Ghost(main): Ghost<int>,
    ) -> (placed: Vec<Dimensions>)
        requires
            results.len() == items.len(),
            given.len() == items.len(),
            line.start <= line.end <= items.len(),
            0 <= line.cross_size <= MAX_LENGTH,
            current_cross == number * line.cross_size,
            0 <= current_cross <= 0x0100_0000_0000_0000,
            forall|t: int|
                line.start <= t < line.end ==> #[trigger] line_index(
                    items,
                    self.wraps(),
                    main,
                    t,
                ) == number,
            forall|j: int|
                0 <= j < line.start ==> cross_placed(
                    #[trigger] results[j],
                    given[j],
                    self.is_row(),
                    self.align_items,
                    line_index(items, self.wraps(), main, j),
                    line.cross_size as int,
                ),
            forall|j: int| line.start <= j < items.len() ==> #[trigger] results[j] == given[j],
        ensures
            placed.len() == items.len(),
            forall|j: int|
                0 <= j < line.end ==> cross_placed(
                    #[trigger] placed[j],
                    given[j],
                    self.is_row(),
                    self.align_items,
                    line_index(items, self.wraps(), main, j),
                    line.cross_size as int,
                ),
            forall|j: int| line.end <= j < items.len() ==> #[trigger] placed[j] == given[j],
    {
        let row = match self.direction {
            FlexDirection::Row | FlexDirection::RowReverse => true,
            _ => false,
        };
        let offset: i64 = match self.align_items {
            AlignItems::FlexEnd => line.cross_size,
            AlignItems::Center => line.cross_size / 2,
            _ => 0,
        };
        let extent: i64 = match self.align_items {
            AlignItems::Stretch => line.cross_size,
            _ => 0,
        };
        let cross_start: i64 = current_cross + offset;
        let mut results = results;
        let mut j: usize = line.start;
        while j < line.end
            invariant
                row == self.is_row(),
                given.len() == items.len(),
                results.len() == items.len(),
                line.start <= j <= line.end <= items.len(),
                cross_start == cross_position(
                    self.align_items,
                    number as int,
                    line.cross_size as int,
                ),
                extent == cross_extent(self.align_items, line.cross_size as int),
                forall|t: int|
                    line.start <= t < line.end ==> #[trigger] line_index(
                        items,
                        self.wraps(),
                        main,
                        t,
                    ) == number,
                forall|t: int|
                    0 <= t < j ==> cross_placed(
                        #[trigger] results[t],
                        given[t],
                        row,
                        self.align_items,
                        line_index(items, self.wraps(), main, t),
                        line.cross_size as int,
                    ),
                forall|t: int| j <= t < items.len() ==> #[trigger] results[t] == given[t],
            decreases line.end - j,
        {
            let d = results[j];
            assert(line_index(items, self.wraps(), main, j as int) == number);
            let content = if row {
                Rect { x: d.content.x, y: cross_start, width: d.content.width, height: extent }
            } else {
                Rect { x: cross_start, y: d.content.y, width: extent, height: d.content.height }
            };
            results.set(
                j,
                Dimensions { content, padding: d.padding, border: d.border, margin: d.margin },
            );
            j = j + 1;
        }
        results
    }
}

/// A box that was placed on the cross axis: it starts where its line and the
/// alignment put it and is as large as the alignment makes it; everything
/// else is as it was given.
spec fn cross_placed(
    placed: Dimensions,
    given: Dimensions,
    row: bool,
    align: AlignItems,
    line: int,
    line_cross: int,
) -> bool {
    &&& main_start_of(row, placed) == main_start_of(row, given)
    &&& main_extent_of(row, placed) == main_extent_of(row, given)
    &&& cross_start_of(row, placed) == cross_position(align, line, line_cross)
    &&& cross_extent_of(row, placed) == cross_extent(align, line_cross)
    &&& placed.padding == given.padding
    &&& placed.border == given.border
    &&& placed.margin == given.margin
}

} // verus!
