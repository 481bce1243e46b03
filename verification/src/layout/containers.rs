//! The hand-over from the box tree to the flexbox and grid engines: the
//! container and its items are read from a styled node and those of its
//! children that are displayed, and the engine gives the boxes of the
//! children.

use vstd::prelude::*;
use crate::layout::flexbox::{
    align_of, direction_of, is_flex_display, items_bounded, justify_of, pixels_of, pixels_or,
    wrap_of, FlexContainer, FlexItem,
};
use crate::layout::grid::{
    gap_of, is_grid_display, line_of, span_of, track_list_of, tracks_bounded, GridContainer,
    GridItem,
};
use crate::layout::{in_range, Dimensions, EdgeSizes, MAX_COUNT};
use crate::style::{Display, StyledNode};

verus! {

/// The flex container that a node is, where its display is `flex` or
/// `inline-flex`.
pub open spec fn flex_container_of(node: StyledNode) -> Option<FlexContainer> {
    if is_flex_display(node.spec_value("display"@)) {
        Some(
            FlexContainer {
                direction: direction_of(node.spec_value("flex-direction"@)),
                wrap: wrap_of(node.spec_value("flex-wrap"@)),
                justify_content: justify_of(node.spec_value("justify-content"@)),
                align_items: align_of(node.spec_value("align-items"@)),
            },
        )
    } else {
        None
    }
}

/// The flex item that a node is.
pub open spec fn flex_item_of(node: StyledNode) -> FlexItem {
    FlexItem {
        flex_grow: pixels_or(node.spec_value("flex-grow"@), 0),
        flex_shrink: pixels_or(node.spec_value("flex-shrink"@), 1),
        flex_basis: pixels_of(node.spec_value("flex-basis"@)),
        min_size: pixels_of(node.spec_value("min-width"@)),
        max_size: pixels_of(node.spec_value("max-width"@)),
    }
}

/// The flex items of those of the first `k` nodes that are displayed, in
/// their order.
pub open spec fn flex_items_of(nodes: Seq<StyledNode>, k: int) -> Seq<FlexItem>
    decreases k,
{
    if k <= 0 || k > nodes.len() {
        Seq::empty()
    } else if nodes[k - 1].spec_display() == Display::Hidden {
        flex_items_of(nodes, k - 1)
    } else {
        flex_items_of(nodes, k - 1).push(flex_item_of(nodes[k - 1]))
    }
}

/// The grid item that a node is.
pub open spec fn grid_item_of(node: StyledNode) -> GridItem {
    GridItem {
        column_start: line_of(node.spec_value("grid-column-start"@)),
        row_start: line_of(node.spec_value("grid-row-start"@)),
        column_span: span_of(
            node.spec_value("grid-column-end"@),
            node.spec_value("grid-column-start"@),
        ),
        row_span: span_of(node.spec_value("grid-row-end"@), node.spec_value("grid-row-start"@)),
    }
}

/// The grid items of those of the first `k` nodes that are displayed, in
/// their order.
pub open spec fn grid_items_of(nodes: Seq<StyledNode>, k: int) -> Seq<GridItem>
    decreases k,
{
    if k <= 0 || k > nodes.len() {
        Seq::empty()
    } else if nodes[k - 1].spec_display() == Display::Hidden {
        grid_items_of(nodes, k - 1)
    } else {
        grid_items_of(nodes, k - 1).push(grid_item_of(nodes[k - 1]))
    }
}

/// Whether grid items are few enough and each is bounded.
pub open spec fn grid_items_bounded(items: Seq<GridItem>) -> bool {
    items.len() <= MAX_COUNT && forall|i: int| 0 <= i < items.len() ==> (#[trigger] items[i]).bounded()
}

/// The flex items of the children of a node that are displayed.
pub fn flex_items(node: &StyledNode) -> (items: Vec<FlexItem>)
    ensures
        items@ == flex_items_of(node.children@, node.children@.len() as int),
{
    let mut items: Vec<FlexItem> = Vec::new();
    let mut i: usize = 0;
    while i < node.children.len()
        invariant
            i <= node.children@.len(),
            items@ == flex_items_of(node.children@, i as int),
        decreases node.children@.len() - i,
    {
        match node.children[i].display() {
            Display::Hidden => {},
            _ => {
                items.push(FlexItem::from_styled_node(&node.children[i]));
            },
        }
        i = i + 1;
    }
    items
}

/// The grid items of the children of a node that are displayed.
pub fn grid_items(node: &StyledNode) -> (items: Vec<GridItem>)
    ensures
        items@ == grid_items_of(node.children@, node.children@.len() as int),
{
    let mut items: Vec<GridItem> = Vec::new();
    let mut i: usize = 0;
    while i < node.children.len()
        invariant
            i <= node.children@.len(),
            items@ == grid_items_of(node.children@, i as int),
        decreases node.children@.len() - i,
    {
        match node.children[i].display() {
            Display::Hidden => {},
            _ => {
                items.push(GridItem::from_styled_node(&node.children[i]));
            },
        }
        i = i + 1;
    }
    items
}

/// The boxes of the children of a flex container, one for each child
/// that is displayed, as the flexbox engine lays them out in the content
/// box of the container. None where the node is no flex container, or
/// where the container's box or an item is out of range.
pub fn layout_flex_children(node: &StyledNode, container_dimensions: Dimensions) -> (boxes: Option<
    Vec<Dimensions>,
>)
    ensures
        ({
            let items = flex_items_of(node.children@, node.children@.len() as int);
            match boxes {
                Some(laid) => {
                    &&& flex_container_of(*node).is_some()
                    &&& container_dimensions.bounded()
                    &&& items_bounded(items)
                    &&& laid.len() == items.len()
                    &&& forall|i: int|
                        0 <= i < items.len() ==> flex_container_of(*node).unwrap().is_item_box(
                            container_dimensions,
                            items,
                            i,
                            #[trigger] laid[i],
                        )
                },
                None => !(flex_container_of(*node).is_some() && container_dimensions.bounded()
                    && items_bounded(items)),
            }
        }),
{
    match FlexContainer::from_styled_node(node) {
        Some(container) => {
            let items = flex_items(node);
            container.try_layout(container_dimensions, items.as_slice())
        },
        None => None,
    }
}

/// The grid container that a node is, and the boxes of its children, one
/// for each child that is displayed, as the grid engine places them in
/// the content box of the container. None where the node is no grid
/// container, or where the container, its box or an item is out of range.
pub fn layout_grid_children(node: &StyledNode, container_dimensions: Dimensions) -> (placed:
    Option<(GridContainer, Vec<Dimensions>)>)
    ensures
        ({
            let items = grid_items_of(node.children@, node.children@.len() as int);
            match placed {
                Some((container, boxes)) => {
                    &&& is_grid_of(container, *node)
                    &&& container.bounded()
                    &&& container_dimensions.bounded()
                    &&& grid_items_bounded(items)
                    &&& boxes.len() == items.len()
                    &&& forall|i: int|
                        0 <= i < items.len() ==> {
                            &&& (#[trigger] boxes[i]).content.x == container.item_x(
                                container_dimensions,
                                items[i],
                                i,
                            )
                            &&& boxes[i].content.y == container.item_y(
                                container_dimensions,
                                items[i],
                                i,
                            )
                            &&& boxes[i].content.width == container.item_width(
                                container_dimensions,
                                items[i],
                                i,
                            )
                            &&& boxes[i].content.height == container.item_height(
                                container_dimensions,
                                items[i],
                                i,
                            )
                            &&& boxes[i].padding == EdgeSizes::zero()
                            &&& boxes[i].border == EdgeSizes::zero()
                            &&& boxes[i].margin == EdgeSizes::zero()
                        }
                },
                None => !is_grid_display(node.spec_value("display"@))
                    || !container_dimensions.bounded() || !grid_items_bounded(items)
                    || !grid_tracks_bounded(*node),
            }
        }),
{
    match GridContainer::from_styled_node(node) {
        Some(container) => {
            let items = grid_items(node);
            match container.try_layout(container_dimensions, items.as_slice()) {
                Some(boxes) => Some((container, boxes)),
                None => None,
            }
        },
        None => None,
    }
}

/// Whether a grid container is the one that a node asks for.
pub open spec fn is_grid_of(container: GridContainer, node: StyledNode) -> bool {
    &&& is_grid_display(node.spec_value("display"@))
    &&& container.columns@ == track_list_of(node.spec_value("grid-template-columns"@))
    &&& container.rows@ == track_list_of(node.spec_value("grid-template-rows"@))
    &&& container.column_gap == gap_of(node.spec_value("column-gap"@))
    &&& container.row_gap == gap_of(node.spec_value("row-gap"@))
}

/// Whether the tracks and gaps that a node asks for are within range.
pub open spec fn grid_tracks_bounded(node: StyledNode) -> bool {
    &&& tracks_bounded(track_list_of(node.spec_value("grid-template-columns"@)))
    &&& tracks_bounded(track_list_of(node.spec_value("grid-template-rows"@)))
    &&& in_range(gap_of(node.spec_value("column-gap"@)))
    &&& in_range(gap_of(node.spec_value("row-gap"@)))
}

} // verus!
