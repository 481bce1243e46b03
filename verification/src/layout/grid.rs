//! CSS grid layout: track sizing and item placement.

use vstd::prelude::*;
use crate::layout::sums::{
    lemma_shares_part, lemma_sum_add, lemma_sum_bounds, lemma_sum_equal, lemma_sum_part, max_int,
    min_int, share, share_of, shares, sum_over,
};
use crate::css::{Unit, Value};
use crate::layout::{
    dimensions_are_bounded, in_range, is_in_range, Dimensions, EdgeSizes, Rect, MAX_COUNT,
    MAX_LENGTH,
};
use crate::style::StyledNode;
use crate::text::{
    ends_with, has_prefix, has_suffix, parse_i64, parse_usize, parsed_i64, parsed_usize,
    split_whitespace, starts_with, str_eq, trim_end_matches, trim_start_matches, without_prefix,
    without_suffix, words,
};

verus! {

/// The size that an `Auto` track gets.
pub const AUTO_TRACK_SIZE: i64 = 100;

/// Grid track size specification
#[derive(Debug, Clone, Copy)]
pub enum TrackSize {
    /// Fixed size
    Fixed(i64),
    /// Weight in the space that fixed and auto tracks leave
    Fr(i64),
    /// Sized by the default allowance
    Auto,
}

impl TrackSize {
    /// What the track takes whatever space there is: its size for a fixed
    /// track, the default allowance for an auto track, nothing for a
    /// fractional one.
    pub open spec fn fixed_part(self) -> int {
        match self {
            TrackSize::Fixed(n) => n as int,
            TrackSize::Auto => AUTO_TRACK_SIZE as int,
            TrackSize::Fr(_) => 0,
        }
    }

    /// The weight of a fractional track, negative weights counting as zero;
    /// zero for the other tracks.
    pub open spec fn weight(self) -> int {
        match self {
            TrackSize::Fr(w) => max_int(w as int, 0),
            _ => 0,
        }
    }

    /// The size or weight lies in `[-MAX_LENGTH, MAX_LENGTH]`.
    pub open spec fn bounded(self) -> bool {
        match self {
            TrackSize::Fixed(n) => in_range(n),
            TrackSize::Fr(w) => in_range(w),
            TrackSize::Auto => true,
        }
    }
}

/// The track size that a word stands for: `auto`, a whole number of pixels
/// before `px`, or a whole weight before `fr`. None for every other word.
pub open spec fn track_size_of(word: Seq<char>) -> Option<TrackSize> {
    if word == "auto"@ {
        Some(TrackSize::Auto)
    } else if has_suffix(word, "px"@) {
        match parsed_i64(without_suffix(word, "px"@)) {
            Some(n) => Some(TrackSize::Fixed(n)),
            None => None,
        }
    } else if has_suffix(word, "fr"@) {
        match parsed_i64(without_suffix(word, "fr"@)) {
            Some(n) => Some(TrackSize::Fr(n)),
            None => None,
        }
    } else {
        None
    }
}

/// The track sizes that the first `k` words stand for, in order, the words
/// that stand for none left out.
pub open spec fn track_sizes_of(list: Seq<Seq<char>>, k: int) -> Seq<TrackSize>
    decreases k,
{
    if k <= 0 || k > list.len() {
        Seq::empty()
    } else {
        match track_size_of(list[k - 1]) {
            Some(t) => track_sizes_of(list, k - 1).push(t),
            None => track_sizes_of(list, k - 1),
        }
    }
}

/// The tracks that a value of a track list property stands for: those of
/// the words of a keyword, and one `Auto` track for every other value.
pub open spec fn track_list_of(value: Option<Value>) -> Seq<TrackSize> {
    match value {
        Some(Value::Keyword(s)) => track_sizes_of(words(s@), words(s@).len() as int),
        _ => seq![TrackSize::Auto],
    }
}

/// Whether a value of `display` makes a grid container: the keywords `grid`
/// and `inline-grid` do, other keywords do not, and every value that is no
/// keyword does.
pub open spec fn is_grid_display(value: Option<Value>) -> bool {
    match value {
        Some(Value::Keyword(s)) => s@ == "grid"@ || s@ == "inline-grid"@,
        Some(_) => true,
        None => false,
    }
}

/// The gap that a value stands for: the number of a pixel length, and zero
/// for every other value.
pub open spec fn gap_of(value: Option<Value>) -> i64 {
    match value {
        Some(Value::Length(n, Unit::Px)) => n,
        _ => 0,
    }
}

/// A number as a count: zero for a negative one, and the largest count for
/// one that is larger.
pub open spec fn as_count(n: i64) -> usize {
    if n < 0 {
        0
    } else if n > usize::MAX {
        usize::MAX
    } else {
        n as usize
    }
}

/// The number of a value that is a bare number or a pixel length.
pub open spec fn number_of(value: Option<Value>) -> Option<i64> {
    match value {
        Some(Value::Number(n)) => Some(n),
        Some(Value::Length(n, Unit::Px)) => Some(n),
        _ => None,
    }
}

/// The grid line that a value stands for, counted from zero: one less than
/// the number of the value, and zero where that number is under one.
pub open spec fn line_of(value: Option<Value>) -> Option<usize> {
    match number_of(value) {
        Some(n) => Some(if as_count(n) >= 1 {
            (as_count(n) - 1) as usize
        } else {
            0
        }),
        None => None,
    }
}

/// The span that the values of an end line and a start line stand for: the
/// lines between the two where the end is a number behind the start, the
/// number behind `span ` where the end is such a keyword, and one in every
/// other case.
pub open spec fn span_of(end: Option<Value>, start: Option<Value>) -> Option<usize> {
    match number_of(end) {
        Some(e) => {
            let first = match number_of(start) {
                Some(s) => as_count(s),
                None => 1,
            };
            if as_count(e) > first {
                Some((as_count(e) - first) as usize)
            } else {
                Some(1)
            }
        },
        None => match end {
            Some(Value::Keyword(s)) => if has_prefix(s@, "span "@) {
                parsed_usize(without_prefix(s@, "span "@))
            } else {
                Some(1)
            },
            _ => Some(1),
        },
    }
}

/// Turns a number into a count.
fn to_count(n: i64) -> (count: usize)
    ensures
        count == as_count(n),
{
    if n < 0 {
        0
    } else if n as u64 > usize::MAX as u64 {
        usize::MAX
    } else {
        n as usize
    }
}

/// Reads the number of a value that is a bare number or a pixel length.
fn read_number(node: &StyledNode, property: &str) -> (n: Option<i64>)
    ensures
        n == number_of(node.spec_value(property@)),
{
    match node.value(property) {
        Some(Value::Number(n)) => Some(*n),
        Some(Value::Length(n, Unit::Px)) => Some(*n),
        _ => None,
    }
}

/// At most `MAX_COUNT` tracks, each of them bounded.
pub open spec fn tracks_bounded(tracks: Seq<TrackSize>) -> bool {
    tracks.len() <= MAX_COUNT && forall|i: int|
        0 <= i < tracks.len() ==> (#[trigger] tracks[i]).bounded()
}

/// The fixed part of each track, by index.
pub open spec fn fixed_parts(tracks: Seq<TrackSize>) -> spec_fn(int) -> int {
    |i: int| tracks[i].fixed_part()
}

/// The weight of each track, by index.
pub open spec fn weights(tracks: Seq<TrackSize>) -> spec_fn(int) -> int {
    |i: int| tracks[i].weight()
}

/// The space that fixed and auto tracks take together.
pub open spec fn total_fixed(tracks: Seq<TrackSize>) -> int {
    sum_over(fixed_parts(tracks), 0, tracks.len() as int)
}

/// The sum of the weights of the fractional tracks.
pub open spec fn total_weight(tracks: Seq<TrackSize>) -> int {
    sum_over(weights(tracks), 0, tracks.len() as int)
}

/// The space left for fractional tracks: what the gaps and the fixed and
/// auto tracks leave of `available`, and never less than zero.
pub open spec fn fr_space(tracks: Seq<TrackSize>, available: int, gap: int) -> int {
    max_int(available - gap * (tracks.len() - 1) - total_fixed(tracks), 0)
}

/// The size of track `i`: its fixed part, or for a fractional track its
/// share of the space left, by weight and rounded down.
pub open spec fn track_size(tracks: Seq<TrackSize>, available: int, gap: int, i: int) -> int {
    match tracks[i] {
        TrackSize::Fr(_) => if total_weight(tracks) > 0 {
            share(fr_space(tracks, available, gap), tracks[i].weight(), total_weight(tracks))
        } else {
            0
        },
        _ => tracks[i].fixed_part(),
    }
}

/// The sizes of all tracks of one axis. An axis without tracks has one
/// track that takes all the space.
pub open spec fn track_sizes(tracks: Seq<TrackSize>, available: int, gap: int) -> Seq<int> {
    if tracks.len() == 0 {
        seq![available]
    } else {
        Seq::new(tracks.len(), |i: int| track_size(tracks, available, gap, i))
    }
}

/// The elements of a sequence, by index.
pub open spec fn at(sizes: Seq<int>) -> spec_fn(int) -> int {
    |i: int| sizes[i]
}

/// The values of a vector of lengths as mathematical integers.
pub open spec fn lengths(v: Seq<i64>) -> Seq<int> {
    Seq::new(v.len(), |i: int| v[i] as int)
}

/// Where track `start` begins on its axis: after the tracks before it and
/// one gap for each index before it.
pub open spec fn track_offset(sizes: Seq<int>, gap: int, start: int) -> int {
    sum_over(at(sizes), 0, min_int(start, sizes.len() as int)) + gap * start
}

/// The length of `span` tracks from `start` on, with the gaps between them.
pub open spec fn track_extent(sizes: Seq<int>, gap: int, start: int, span: int) -> int {
    sum_over(at(sizes), start, start + span) + gap * max_int(span - 1, 0)
}

/// A span cut down so that it ends at the last track at the latest. A span
/// that is not set counts as one track.
pub open spec fn clamped_span(span: Option<usize>, start: int, count: int) -> int {
    let wanted: int = match span {
        Some(s) => s as int,
        None => 1,
    };
    min_int(wanted, max_int(count - start, 0))
}

/// Grid item properties
#[derive(Debug, Clone, Copy)]
pub struct GridItem {
    /// Column start position (0-indexed)
    pub column_start: Option<usize>,
    /// Row start position (0-indexed)
    pub row_start: Option<usize>,
    /// Number of columns to span
    pub column_span: Option<usize>,
    /// Number of rows to span
    pub row_span: Option<usize>,
}

impl Default for GridItem {
    fn default() -> (item: GridItem)
        ensures
            item.column_start.is_none(),
            item.row_start.is_none(),
            item.column_span.is_none(),
            item.row_span.is_none(),
    {
        GridItem { column_start: None, row_start: None, column_span: None, row_span: None }
    }
}

impl GridItem {
    /// Parse grid item properties from styled node
    pub fn from_styled_node(node: &StyledNode) -> (item: Self)
        ensures
            item.column_start == line_of(node.spec_value("grid-column-start"@)),
            item.row_start == line_of(node.spec_value("grid-row-start"@)),
            item.column_span == span_of(
                node.spec_value("grid-column-end"@),
                node.spec_value("grid-column-start"@),
            ),
            item.row_span == span_of(
                node.spec_value("grid-row-end"@),
                node.spec_value("grid-row-start"@),
            ),
    {
        GridItem {
            column_start: Self::parse_line(node, "grid-column-start"),
            row_start: Self::parse_line(node, "grid-row-start"),
            column_span: Self::parse_span(node, "grid-column-end", "grid-column-start"),
            row_span: Self::parse_span(node, "grid-row-end", "grid-row-start"),
        }
    }

    /// Parse grid line position
    fn parse_line(node: &StyledNode, property: &str) -> (line: Option<usize>)
        ensures
            line == line_of(node.spec_value(property@)),
    {
        match read_number(node, property) {
            Some(n) => {
                let count = to_count(n);
                Some(if count >= 1 {
                    count - 1
                } else {
                    0
                })
            },
            None => None,
        }
    }

    /// Parse span from end and start positions
    fn parse_span(node: &StyledNode, end_prop: &str, start_prop: &str) -> (span: Option<usize>)
        ensures
            span == span_of(node.spec_value(end_prop@), node.spec_value(start_prop@)),
    {
        let end: usize = match read_number(node, end_prop) {
            Some(n) => to_count(n),
            None => {
                return match node.value(end_prop) {
                    Some(Value::Keyword(s)) => {
                        if starts_with(s.as_str(), "span ") {
                            parse_usize(trim_start_matches(s.as_str(), "span "))
                        } else {
                            Some(1)
                        }
                    },
                    _ => Some(1),
                };
            },
        };
        let start: usize = match read_number(node, start_prop) {
            Some(n) => to_count(n),
            None => 1,
        };
        if end > start {
            Some(end - start)
        } else {
            Some(1)
        }
    }

    /// The row start, where it is set, is at most `MAX_COUNT`.
    pub open spec fn bounded(self) -> bool {
        match self.row_start {
            Some(r) => r <= MAX_COUNT,
            None => true,
        }
    }

    /// The column of the item that stands at `index`: the one asked for, or
    /// by row-major placement, and the last column at most.
    pub open spec fn column(self, index: int, columns: int) -> int {
        let wanted: int = match self.column_start {
            Some(c) => c as int,
            None => index % columns,
        };
        min_int(wanted, columns - 1)
    }

    /// The row of the item that stands at `index`: the one asked for, or by
    /// row-major placement.
    pub open spec fn row(self, index: int, columns: int) -> int {
        match self.row_start {
            Some(r) => r as int,
            None => index / columns,
        }
    }
}

/// Grid container properties
#[derive(Debug, Clone)]
pub struct GridContainer {
    /// Column track sizes
    pub columns: Vec<TrackSize>,
    /// Row track sizes
    pub rows: Vec<TrackSize>,
    /// Gap between columns
    pub column_gap: i64,
    /// Gap between rows
    pub row_gap: i64,
}

impl Default for GridContainer {
    fn default() -> (g: GridContainer)
        ensures
            g.columns@ == seq![TrackSize::Auto],
            g.rows@ == seq![TrackSize::Auto],
            g.column_gap == 0,
            g.row_gap == 0,
    {
        GridContainer {
            columns: vec![TrackSize::Auto],
            rows: vec![TrackSize::Auto],
            column_gap: 0,
            row_gap: 0,
        }
    }
}

/// Every sum of consecutive track sizes stays far inside `i64`.
pub proof fn lemma_track_sums_bounded(
    tracks: Seq<TrackSize>,
    available: int,
    gap: int,
    a: int,
    b: int,
)
    requires
        tracks_bounded(tracks),
        -MAX_LENGTH <= available <= MAX_LENGTH,
        -MAX_LENGTH <= gap <= MAX_LENGTH,
        0 <= a <= b <= track_sizes(tracks, available, gap).len(),
    ensures
        -0x0100_0000_0000_0000 <= sum_over(at(track_sizes(tracks, available, gap)), a, b)
            <= 0x0400_0000_0000_0000,
        0 <= fr_space(tracks, available, gap) <= 0x0300_0000_0000_0000,
        -0x0100_0000_0000_0000 <= total_fixed(tracks) <= 0x0100_0000_0000_0000,
        0 <= total_weight(tracks) <= 0x0100_0000_0000_0000,
        -0x0100_0000_0000_0000 <= gap * (tracks.len() - 1) <= 0x0100_0000_0000_0000,
{
    let n = tracks.len() as int;
    let sizes = track_sizes(tracks, available, gap);
    let f = fixed_parts(tracks);
    let w = weights(tracks);
    let limit = MAX_LENGTH as int;
    assert forall|i: int| 0 <= i < n implies -limit <= #[trigger] f(i) <= limit by {
        assert(tracks[i].bounded());
    }
    assert forall|i: int| 0 <= i < n implies 0 <= #[trigger] w(i) <= limit by {
        assert(tracks[i].bounded());
    }
    lemma_sum_bounds(f, 0, n, -limit, limit);
    lemma_sum_bounds(w, 0, n, 0, limit);
    assert(-0x0100_0000_0000_0000 <= n * -limit && n * limit <= 0x0100_0000_0000_0000)
        by (nonlinear_arith)
        requires
            0 <= n <= 1_048_576,
            limit == 68_719_476_736,
    ;
    assert(n * 0 == 0);
    assert(-0x0100_0000_0000_0000 <= gap * (n - 1) <= 0x0100_0000_0000_0000) by (nonlinear_arith)
        requires
            0 <= n <= 1_048_576,
            -68_719_476_736 <= gap <= 68_719_476_736,
    ;
    let space = fr_space(tracks, available, gap);
    let total = total_weight(tracks);
    if n == 0 {
        assert(sum_over(at(sizes), a, b) == if a == b {
            0
        } else {
            available
        }) by {
            if a < b {
                assert(sum_over(at(sizes), a, b) == sum_over(at(sizes), a, a) + at(sizes)(0));
            }
        }
    } else {
        lemma_sum_bounds(f, a, b, -limit, limit);
        assert(-0x0100_0000_0000_0000 <= (b - a) * -limit && (b - a) * limit
            <= 0x0100_0000_0000_0000) by (nonlinear_arith)
            requires
                0 <= b - a <= 1_048_576,
                limit == 68_719_476_736,
        ;
        if total > 0 {
            let sh = shares(w, space, total);
            assert forall|i: int| a <= i < b implies #[trigger] at(sizes)(i) == f(i) + sh(i) by {
                match tracks[i] {
                    TrackSize::Fr(_) => {},
                    _ => {
                        assert(space * 0 == 0);
                        assert(0int / total == 0) by (nonlinear_arith)
                            requires
                                total > 0,
                        ;
                    },
                }
            }
            lemma_sum_add(f, sh, at(sizes), a, b);
            lemma_shares_part(w, 0, a, b, n, space, total);
        } else {
            assert forall|i: int| a <= i < b implies #[trigger] at(sizes)(i) == f(i) by {}
            lemma_sum_equal(at(sizes), f, a, b);
        }
    }
}

impl GridContainer {
    /// Parse grid properties from a styled node: a container where the
    /// display of the node makes one, none for every other node.
    pub fn from_styled_node(node: &StyledNode) -> (container: Option<Self>)
        ensures
            container.is_some() == is_grid_display(node.spec_value("display"@)),
            match container {
                Some(c) => {
                    &&& c.columns@ == track_list_of(node.spec_value("grid-template-columns"@))
                    &&& c.rows@ == track_list_of(node.spec_value("grid-template-rows"@))
                    &&& c.column_gap == gap_of(node.spec_value("column-gap"@))
                    &&& c.row_gap == gap_of(node.spec_value("row-gap"@))
                },
                None => true,
            },
    {
        let is_grid = match node.value("display") {
            Some(Value::Keyword(s)) => str_eq(s.as_str(), "grid") || str_eq(
                s.as_str(),
                "inline-grid",
            ),
            Some(_) => true,
            None => false,
        };
        if !is_grid {
            return None;
        }
        let columns = Self::parse_track_list(node, "grid-template-columns");
        let rows = Self::parse_track_list(node, "grid-template-rows");
        let column_gap = Self::parse_gap(node, "column-gap");
        let row_gap = Self::parse_gap(node, "row-gap");
        Some(GridContainer { columns, rows, column_gap, row_gap })
    }

    /// Parse track list (e.g., "200px 1fr 2fr")
    fn parse_track_list(node: &StyledNode, property: &str) -> (tracks: Vec<TrackSize>)
        ensures
            tracks@ == track_list_of(node.spec_value(property@)),
    {
        match node.value(property) {
            Some(Value::Keyword(s)) => {
                let parts = split_whitespace(s.as_str());
                let ghost list = words(s@);
                let mut tracks: Vec<TrackSize> = Vec::new();
                let mut i: usize = 0;
                while i < parts.len()
                    invariant
                        i <= parts@.len(),
                        parts@.len() == list.len(),
                        forall|j: int| 0 <= j < parts@.len() ==> (#[trigger] parts@[j])@ == list[j],
                        tracks@ == track_sizes_of(list, i as int),
                    decreases parts@.len() - i,
                {
                    if let Some(track) = Self::parse_track_size(parts[i]) {
                        tracks.push(track);
                    }
                    i = i + 1;
                }
                tracks
            },
            _ => vec![TrackSize::Auto],
        }
    }

    /// Parse a single track size
    pub fn parse_track_size(s: &str) -> (track: Option<TrackSize>)
        ensures
            track == track_size_of(s@),
    {
        if str_eq(s, "auto") {
            return Some(TrackSize::Auto);
        }
        if ends_with(s, "px") {
            return match parse_i64(trim_end_matches(s, "px")) {
                Some(num) => Some(TrackSize::Fixed(num)),
                None => None,
            };
        }
        if ends_with(s, "fr") {
            return match parse_i64(trim_end_matches(s, "fr")) {
                Some(num) => Some(TrackSize::Fr(num)),
                None => None,
            };
        }
        None
    }

    /// Parse gap property
    fn parse_gap(node: &StyledNode, property: &str) -> (gap: i64)
        ensures
            gap == gap_of(node.spec_value(property@)),
    {
        match node.value(property) {
            Some(Value::Length(val, Unit::Px)) => *val,
            _ => 0,
        }
    }

    /// Gaps in range, and on each axis at most `MAX_COUNT` bounded tracks.
    pub open spec fn bounded(self) -> bool {
        &&& tracks_bounded(self.columns@)
        &&& tracks_bounded(self.rows@)
        &&& in_range(self.column_gap)
        &&& in_range(self.row_gap)
    }

    /// The sizes of the column tracks in a container that is `width` wide.
    pub open spec fn column_sizes(self, width: int) -> Seq<int> {
        track_sizes(self.columns@, width, self.column_gap as int)
    }

    /// The sizes of the row tracks in a container that is `height` high.
    pub open spec fn row_sizes(self, height: int) -> Seq<int> {
        track_sizes(self.rows@, height, self.row_gap as int)
    }

    /// The x coordinate of the item at `index`.
    pub open spec fn item_x(self, container: Dimensions, item: GridItem, index: int) -> int {
        let sizes = self.column_sizes(container.content.width as int);
        container.content.x + track_offset(
            sizes,
            self.column_gap as int,
            item.column(index, sizes.len() as int),
        )
    }

    /// The y coordinate of the item at `index`.
    pub open spec fn item_y(self, container: Dimensions, item: GridItem, index: int) -> int {
        let columns = self.column_sizes(container.content.width as int).len() as int;
        container.content.y + track_offset(
            self.row_sizes(container.content.height as int),
            self.row_gap as int,
            item.row(index, columns),
        )
    }

    /// The width of the item at `index`.
    pub open spec fn item_width(self, container: Dimensions, item: GridItem, index: int) -> int {
        let sizes = self.column_sizes(container.content.width as int);
        let column = item.column(index, sizes.len() as int);
        track_extent(
            sizes,
            self.column_gap as int,
            column,
            clamped_span(item.column_span, column, sizes.len() as int),
        )
    }

    /// The height of the item at `index`.
    pub open spec fn item_height(self, container: Dimensions, item: GridItem, index: int) -> int {
        let columns = self.column_sizes(container.content.width as int).len() as int;
        let sizes = self.row_sizes(container.content.height as int);
        let row = min_int(item.row(index, columns), sizes.len() as int);
        track_extent(
            sizes,
            self.row_gap as int,
            row,
            clamped_span(item.row_span, item.row(index, columns), sizes.len() as int),
        )
    }

    /// Calculate grid layout.
    ///
    /// Gives one box for each item, in the order of the items. The content
    /// rectangle of each box covers the tracks that the item spans and the
    /// gaps between them; its padding, border and margin are zero.
    pub fn layout(&self, container_dimensions: Dimensions, items: &[GridItem]) -> (result: Vec<
        Dimensions,
    >)
        requires
            self.bounded(),
            container_dimensions.bounded(),
            items.len() <= MAX_COUNT,
            forall|i: int| 0 <= i < items.len() ==> (#[trigger] items[i]).bounded(),
        ensures
            result.len() == items.len(),
            forall|i: int|
                0 <= i < items.len() ==> {
                    &&& (#[trigger] result[i]).content.x == self.item_x(
                        container_dimensions,
                        items[i],
                        i,
                    )
                    &&& result[i].content.y == self.item_y(container_dimensions, items[i], i)
                    &&& result[i].content.width == self.item_width(
                        container_dimensions,
                        items[i],
                        i,
                    )
                    &&& result[i].content.height == self.item_height(
                        container_dimensions,
                        items[i],
                        i,
                    )
                    &&& result[i].padding == EdgeSizes::zero()
                    &&& result[i].border == EdgeSizes::zero()
                    &&& result[i].margin == EdgeSizes::zero()
                },
    {
        let available_width = container_dimensions.content.width;
        let available_height = container_dimensions.content.height;
        let column_sizes = self.calculate_track_sizes(
            self.columns.as_slice(),
            available_width,
            self.column_gap,
        );
        let row_sizes = self.calculate_track_sizes(
            self.rows.as_slice(),
            available_height,
            self.row_gap,
        );
        let ghost cols = self.column_sizes(available_width as int);
        let ghost rows = self.row_sizes(available_height as int);
        let num_cols = column_sizes.len();
        let num_rows = row_sizes.len();
        let mut results: Vec<Dimensions> = Vec::new();
        let mut idx: usize = 0;
        while idx < items.len()
            invariant
                self.bounded(),
                container_dimensions.bounded(),
                items.len() <= MAX_COUNT,
                forall|i: int| 0 <= i < items.len() ==> (#[trigger] items[i]).bounded(),
                available_width == container_dimensions.content.width,
                available_height == container_dimensions.content.height,
                cols == self.column_sizes(available_width as int),
                rows == self.row_sizes(available_height as int),
                lengths(column_sizes@) == cols,
                lengths(row_sizes@) == rows,
                num_cols == column_sizes.len(),
                num_rows == row_sizes.len(),
                1 <= num_cols <= MAX_COUNT,
                1 <= num_rows <= MAX_COUNT,
                idx <= items.len(),
                results.len() == idx,
                forall|i: int|
                    0 <= i < idx ==> {
                        &&& (#[trigger] results[i]).content.x == self.item_x(
                            container_dimensions,
                            items[i],
                            i,
                        )
                        &&& results[i].content.y == self.item_y(container_dimensions, items[i], i)
                        &&& results[i].content.width == self.item_width(
                            container_dimensions,
                            items[i],
                            i,
                        )
                        &&& results[i].content.height == self.item_height(
                            container_dimensions,
                            items[i],
                            i,
                        )
                        &&& results[i].padding == EdgeSizes::zero()
                        &&& results[i].border == EdgeSizes::zero()
                        &&& results[i].margin == EdgeSizes::zero()
                    },
            decreases items.len() - idx,
        {
            let item = items[idx];
            assert(item.bounded());
            let wanted_col: usize = match item.column_start {
                Some(c) => c,
                None => idx % num_cols,
            };
            let col: usize = if wanted_col < num_cols - 1 {
                wanted_col
            } else {
                num_cols - 1
            };
            let row: usize = match item.row_start {
                Some(r) => r,
                None => idx / num_cols,
            };
            let col_span = clamp_span(item.column_span, col, num_cols);
            let row_span = clamp_span(item.row_span, row, num_rows);
            let first_row: usize = if row < num_rows {
                row
            } else {
                num_rows
            };
            proof {
                assert(cols.len() == num_cols);
                assert(rows.len() == num_rows);
                assert(col as int == item.column(idx as int, num_cols as int));
                assert(row as int == item.row(idx as int, num_cols as int));
                assert(idx as int / num_cols as int <= idx as int) by (nonlinear_arith)
                    requires
                        idx >= 0,
                        num_cols >= 1,
                ;
                assert(row <= MAX_COUNT);
            }
            let x_sum = sum_tracks(
                &column_sizes,
                0,
                col,
                Ghost(self.columns@),
                Ghost(available_width as int),
                Ghost(self.column_gap as int),
            );
            let y_sum = sum_tracks(
                &row_sizes,
                0,
                first_row,
                Ghost(self.rows@),
                Ghost(available_height as int),
                Ghost(self.row_gap as int),
            );
            let w_sum = sum_tracks(
                &column_sizes,
                col,
                col + col_span,
                Ghost(self.columns@),
                Ghost(available_width as int),
                Ghost(self.column_gap as int),
            );
            let h_sum = sum_tracks(
                &row_sizes,
                first_row,
                first_row + row_span,
                Ghost(self.rows@),
                Ghost(available_height as int),
                Ghost(self.row_gap as int),
            );
            let x_gaps = gap_total(self.column_gap, col);
            let y_gaps = gap_total(self.row_gap, row);
            let w_gaps = gap_total(
                self.column_gap,
                if col_span >= 1 {
                    col_span - 1
                } else {
                    0
                },
            );
            let h_gaps = gap_total(
                self.row_gap,
                if row_span >= 1 {
                    row_span - 1
                } else {
                    0
                },
            );
            let dims = Dimensions {
                content: Rect {
                    x: container_dimensions.content.x + x_sum + x_gaps,
                    y: container_dimensions.content.y + y_sum + y_gaps,
                    width: w_sum + w_gaps,
                    height: h_sum + h_gaps,
                },
                padding: EdgeSizes { left: 0, right: 0, top: 0, bottom: 0 },
                border: EdgeSizes { left: 0, right: 0, top: 0, bottom: 0 },
                margin: EdgeSizes { left: 0, right: 0, top: 0, bottom: 0 },
            };
            results.push(dims);
            idx = idx + 1;
        }
        results
    }

    /// Calculate grid layout where the container, the gaps, at most
    /// `MAX_COUNT` tracks on each axis and at most `MAX_COUNT` items are
    /// bounded; none else.
    pub fn try_layout(&self, container_dimensions: Dimensions, items: &[GridItem]) -> (result:
        Option<Vec<Dimensions>>)
        ensures
            result.is_some() == (self.bounded() && container_dimensions.bounded() && items.len()
                <= MAX_COUNT && forall|i: int|
                0 <= i < items.len() ==> (#[trigger] items[i]).bounded()),
            match result {
                Some(boxes) => boxes.len() == items.len() && forall|i: int|
                    0 <= i < items.len() ==> {
                        &&& (#[trigger] boxes[i]).content.x == self.item_x(
                            container_dimensions,
                            items[i],
                            i,
                        )
                        &&& boxes[i].content.y == self.item_y(container_dimensions, items[i], i)
                        &&& boxes[i].content.width == self.item_width(
                            container_dimensions,
                            items[i],
                            i,
                        )
                        &&& boxes[i].content.height == self.item_height(
                            container_dimensions,
                            items[i],
                            i,
                        )
                        &&& boxes[i].padding == EdgeSizes::zero()
                        &&& boxes[i].border == EdgeSizes::zero()
                        &&& boxes[i].margin == EdgeSizes::zero()
                    },
                None => true,
            },
    {
        if !dimensions_are_bounded(&container_dimensions) || items.len() > MAX_COUNT
            || !is_in_range(self.column_gap) || !is_in_range(self.row_gap)
            || !tracks_are_bounded(self.columns.as_slice()) || !tracks_are_bounded(
            self.rows.as_slice(),
        ) {
            return None;
        }
        let mut i: usize = 0;
        while i < items.len()
            invariant
                i <= items.len(),
                forall|j: int| 0 <= j < i ==> (#[trigger] items@[j]).bounded(),
            decreases items.len() - i,
        {
            let ok = match items[i].row_start {
                Some(r) => r <= MAX_COUNT,
                None => true,
            };
            if !ok {
                assert(!items@[i as int].bounded());
                return None;
            }
            i = i + 1;
        }
        Some(self.layout(container_dimensions, items))
    }

    /// Calculate actual track sizes from specifications
    fn calculate_track_sizes(&self, tracks: &[TrackSize], available_space: i64, gap: i64) -> (sizes:
        Vec<i64>)
        requires
            tracks_bounded(tracks@),
            in_range(available_space),
            in_range(gap),
        ensures
            lengths(sizes@) == track_sizes(tracks@, available_space as int, gap as int),
            1 <= sizes.len() <= MAX_COUNT,
    {
        let n = tracks.len();
        if n == 0 {
            let sizes = vec![available_space];
            assert(lengths(sizes@) =~= track_sizes(
                tracks@,
                available_space as int,
                gap as int,
            ));
            return sizes;
        }
        proof {
            lemma_track_sums_bounded(tracks@, available_space as int, gap as int, 0, 0);
        }
        let total_gaps: i64 = gap_total(gap, n - 1);
        let space_for_tracks: i64 = available_space - total_gaps;
        let ghost f = fixed_parts(tracks@);
        let ghost w = weights(tracks@);
        let mut fixed_space: i64 = 0;
        let mut fr_sum: i64 = 0;
        let mut i: usize = 0;
        while i < n
            invariant
                n == tracks.len(),
                tracks_bounded(tracks@),
                f == fixed_parts(tracks@),
                w == weights(tracks@),
                i <= n,
                fixed_space == sum_over(f, 0, i as int),
                fr_sum == sum_over(w, 0, i as int),
            decreases n - i,
        {
            proof {
                assert forall|j: int| 0 <= j < n implies -MAX_LENGTH <= #[trigger] f(j)
                    <= MAX_LENGTH by {
                    assert(tracks@[j].bounded());
                }
                assert forall|j: int| 0 <= j < n implies 0 <= #[trigger] w(j) <= MAX_LENGTH by {
                    assert(tracks@[j].bounded());
                }
                lemma_sum_bounds(f, 0, i as int + 1, -MAX_LENGTH as int, MAX_LENGTH as int);
                lemma_sum_bounds(w, 0, i as int + 1, 0, MAX_LENGTH as int);
                assert(-0x0100_0000_0000_0000 <= (i + 1) * -MAX_LENGTH && (i + 1) * MAX_LENGTH
                    <= 0x0100_0000_0000_0000) by (nonlinear_arith)
                    requires
                        0 <= i + 1 <= 1_048_576,
                        MAX_LENGTH == 68_719_476_736,
                ;
                assert(tracks@[i as int].bounded());
            }
            match tracks[i] {
                TrackSize::Fixed(size) => {
                    fixed_space = fixed_space + size;
                },
                TrackSize::Auto => {
                    fixed_space = fixed_space + AUTO_TRACK_SIZE;
                },
                TrackSize::Fr(fr) => {
                    if fr > 0 {
                        fr_sum = fr_sum + fr;
                    }
                },
            }
            i = i + 1;
        }
        let remaining_space: i64 = if space_for_tracks - fixed_space > 0 {
            space_for_tracks - fixed_space
        } else {
            0
        };
        assert(remaining_space == fr_space(tracks@, available_space as int, gap as int));
        assert(fr_sum == total_weight(tracks@));
        let mut sizes: Vec<i64> = Vec::new();
        let mut k: usize = 0;
        while k < n
            invariant
                n == tracks.len(),
                0 < n <= MAX_COUNT,
                tracks_bounded(tracks@),
                w == weights(tracks@),
                k <= n,
                sizes.len() == k,
                remaining_space == fr_space(tracks@, available_space as int, gap as int),
                fr_sum == total_weight(tracks@),
                forall|j: int|
                    0 <= j < k ==> (#[trigger] sizes[j]) as int == track_size(
                        tracks@,
                        available_space as int,
                        gap as int,
                        j,
                    ),
            decreases n - k,
        {
            assert(tracks@[k as int].bounded());
            let size: i64 = match tracks[k] {
                TrackSize::Fixed(size) => size,
                TrackSize::Auto => AUTO_TRACK_SIZE,
                TrackSize::Fr(fr) => {
                    if fr_sum > 0 {
                        let weight: i64 = if fr > 0 {
                            fr
                        } else {
                            0
                        };
                        proof {
                            assert forall|j: int| 0 <= j < n implies 0 <= #[trigger] w(j) by {}
                            lemma_sum_part(w, 0, k as int, k as int + 1, n as int);
                            assert(sum_over(w, k as int, k as int + 1) == sum_over(
                                w,
                                k as int,
                                k as int,
                            ) + w(k as int));
                        }
                        share_of(remaining_space, weight, fr_sum)
                    } else {
                        0
                    }
                },
            };
            sizes.push(size);
            k = k + 1;
        }
        assert(lengths(sizes@) =~= track_sizes(tracks@, available_space as int, gap as int));
        sizes
    }
}

/// Whether there are at most `MAX_COUNT` tracks and each is bounded.
fn tracks_are_bounded(tracks: &[TrackSize]) -> (r: bool)
    ensures
        r == tracks_bounded(tracks@),
{
    if tracks.len() > MAX_COUNT {
        return false;
    }
    let mut i: usize = 0;
    while i < tracks.len()
        invariant
            i <= tracks.len(),
            forall|j: int| 0 <= j < i ==> (#[trigger] tracks@[j]).bounded(),
        decreases tracks.len() - i,
    {
        let ok = match tracks[i] {
            TrackSize::Fixed(n) => is_in_range(n),
            TrackSize::Fr(w) => is_in_range(w),
            TrackSize::Auto => true,
        };
        if !ok {
            assert(!tracks@[i as int].bounded());
            return false;
        }
        i = i + 1;
    }
    true
}

/// A span cut down so that it ends at the last of `count` tracks.
fn clamp_span(span: Option<usize>, start: usize, count: usize) -> (r: usize)
    ensures
        r == clamped_span(span, start as int, count as int),
        start <= count ==> start + r <= count,
        start > count ==> r == 0,
{
    let wanted: usize = match span {
        Some(s) => s,
        None => 1,
    };
    let room: usize = if count >= start {
        count - start
    } else {
        0
    };
    if wanted < room {
        wanted
    } else {
        room
    }
}

/// The width of `count` gaps.
fn gap_total(gap: i64, count: usize) -> (r: i64)
    requires
        in_range(gap),
        count <= MAX_COUNT,
    ensures
        r == gap * count,
        -0x0100_0000_0000_0000 <= r <= 0x0100_0000_0000_0000,
{
    assert(-0x0100_0000_0000_0000 <= gap * count <= 0x0100_0000_0000_0000) by (nonlinear_arith)
        requires
            0 <= count <= 1_048_576,
            -68_719_476_736 <= gap <= 68_719_476_736,
    ;
    gap * (count as i64)
}

/// The sum of the sizes of the tracks from `lo` up to `hi`.
fn sum_tracks(
    sizes: &Vec<i64>,
    lo: usize,
    hi: usize,
    Ghost(tracks): Ghost<Seq<TrackSize>>,
    Ghost(available): Ghost<int>,
    Ghost(gap): Ghost<int>,
) -> (total: i64)
    requires
        lo <= hi <= sizes.len(),
        tracks_bounded(tracks),
        -MAX_LENGTH <= available <= MAX_LENGTH,
        -MAX_LENGTH <= gap <= MAX_LENGTH,
        lengths(sizes@) == track_sizes(tracks, available, gap),
    ensures
        total == sum_over(at(track_sizes(tracks, available, gap)), lo as int, hi as int),
        -0x0100_0000_0000_0000 <= total <= 0x0400_0000_0000_0000,
{
    let ghost all = track_sizes(tracks, available, gap);
    let mut total: i64 = 0;
    let mut k: usize = lo;
    proof {
        lemma_track_sums_bounded(tracks, available, gap, lo as int, lo as int);
    }
    while k < hi
        invariant
            lo <= k <= hi <= sizes.len(),
            tracks_bounded(tracks),
            -MAX_LENGTH <= available <= MAX_LENGTH,
            -MAX_LENGTH <= gap <= MAX_LENGTH,
            all == track_sizes(tracks, available, gap),
            lengths(sizes@) == all,
            total == sum_over(at(all), lo as int, k as int),
            -0x0100_0000_0000_0000 <= total <= 0x0400_0000_0000_0000,
        decreases hi - k,
    {
        proof {
            lemma_track_sums_bounded(tracks, available, gap, lo as int, k as int + 1);
            assert(lengths(sizes@)[k as int] == sizes@[k as int] as int);
        }
        total = total + sizes[k];
        k = k + 1;
    }
    total
}

} // verus!
