// The hand-over of a container's children to the flexbox and grid engines.

use browser_engine::css::{Unit, Value};
use browser_engine::dom::{AttrMap, Node};
use browser_engine::layout::containers::{
    flex_items, grid_items, layout_flex_children, layout_grid_children,
};
use browser_engine::layout::grid::TrackSize;
use browser_engine::layout::{Dimensions, Rect};
use browser_engine::style::{PropertyMap, StyledNode};

fn px(n: i64) -> Value {
    Value::Length(n, Unit::Px)
}

fn keyword(word: &str) -> Value {
    Value::Keyword(word.to_string())
}

fn styled<'a>(node: &'a Node, values: &[(&str, Value)], children: Vec<StyledNode<'a>>) -> StyledNode<'a> {
    let mut specified_values = PropertyMap::new();
    for (name, value) in values {
        specified_values.insert(name.to_string(), value.clone());
    }
    StyledNode { node, specified_values, children }
}

fn area(x: i64, y: i64, width: i64, height: i64) -> Dimensions {
    let mut dims = Dimensions::default();
    dims.content = Rect { x, y, width, height };
    dims
}

fn contents(boxes: &[Dimensions]) -> Vec<(i64, i64, i64, i64)> {
    boxes.iter().map(|d| (d.content.x, d.content.y, d.content.width, d.content.height)).collect()
}

#[test]
fn test_flex_children_share_the_free_space() {
    let node = Node::element("div".to_string(), AttrMap::new(), vec![]);
    let child = |grow: i64| styled(&node, &[("flex-basis", px(100)), ("flex-grow", px(grow))], vec![]);
    let hidden = styled(&node, &[("display", keyword("none")), ("flex-grow", px(9))], vec![]);
    let container = styled(
        &node,
        &[("display", keyword("flex"))],
        vec![child(1), hidden, child(2), child(1)],
    );
    let items = flex_items(&container);
    assert_eq!(items.len(), 3);
    assert_eq!(
        items.iter().map(|i| (i.flex_grow, i.flex_shrink, i.flex_basis)).collect::<Vec<_>>(),
        vec![(1, 1, Some(100)), (2, 1, Some(100)), (1, 1, Some(100))]
    );
    // 800 wide, three items of 100: 500 are free, and go 1 : 2 : 1.
    let boxes = layout_flex_children(&container, area(0, 0, 800, 600)).unwrap();
    assert_eq!(
        boxes.iter().map(|d| (d.content.x, d.content.width)).collect::<Vec<_>>(),
        vec![(0, 225), (225, 350), (575, 225)]
    );
}

#[test]
fn test_flex_children_follow_the_container() {
    let node = Node::element("div".to_string(), AttrMap::new(), vec![]);
    let child = || styled(&node, &[("flex-basis", px(100))], vec![]);
    let container = styled(
        &node,
        &[("display", keyword("inline-flex")), ("justify-content", keyword("space-between"))],
        vec![child(), child()],
    );
    let boxes = layout_flex_children(&container, area(0, 0, 800, 600)).unwrap();
    assert_eq!(boxes.iter().map(|d| d.content.x).collect::<Vec<_>>(), vec![0, 700]);
    let evenly = styled(
        &node,
        &[("display", keyword("flex")), ("justify-content", keyword("space-evenly"))],
        vec![child(), child()],
    );
    let boxes = layout_flex_children(&evenly, area(0, 0, 800, 600)).unwrap();
    assert_eq!(boxes.iter().map(|d| d.content.x).collect::<Vec<_>>(), vec![200, 500]);
    // A container without children has no boxes.
    let empty = styled(&node, &[("display", keyword("flex"))], vec![]);
    assert_eq!(layout_flex_children(&empty, area(0, 0, 800, 600)), Some(vec![]));
    assert!(flex_items(&empty).is_empty());
}

#[test]
fn test_flex_children_of_what_is_no_flex_container() {
    let node = Node::element("div".to_string(), AttrMap::new(), vec![]);
    let child = || styled(&node, &[("flex-basis", px(100))], vec![]);
    let block = styled(&node, &[("display", keyword("block"))], vec![child()]);
    assert_eq!(layout_flex_children(&block, area(0, 0, 800, 600)), None);
    let unset = styled(&node, &[], vec![child()]);
    assert_eq!(layout_flex_children(&unset, area(0, 0, 800, 600)), None);
    // A box or an item out of range.
    let flex = styled(&node, &[("display", keyword("flex"))], vec![child()]);
    assert_eq!(layout_flex_children(&flex, area(0, 0, i64::MAX, 600)), None);
    let extreme = styled(
        &node,
        &[("display", keyword("flex"))],
        vec![styled(&node, &[("flex-basis", px(i64::MAX))], vec![])],
    );
    assert_eq!(layout_flex_children(&extreme, area(0, 0, 800, 600)), None);
}

#[test]
fn test_grid_children_are_placed_in_the_tracks() {
    let node = Node::element("div".to_string(), AttrMap::new(), vec![]);
    let spanning = styled(
        &node,
        &[("grid-column-start", Value::Number(1)), ("grid-column-end", Value::Number(3))],
        vec![],
    );
    let hidden = styled(&node, &[("display", keyword("none"))], vec![]);
    let plain = styled(&node, &[], vec![]);
    let container = styled(
        &node,
        &[
            ("display", keyword("grid")),
            ("grid-template-columns", keyword("100px 100px 100px")),
            ("grid-template-rows", keyword("50px 50px")),
            ("column-gap", px(10)),
            ("row-gap", px(10)),
        ],
        vec![spanning, hidden, plain],
    );
    let items = grid_items(&container);
    assert_eq!(items.len(), 2);
    assert_eq!((items[0].column_start, items[0].column_span), (Some(0), Some(2)));
    assert_eq!((items[1].column_start, items[1].column_span), (None, Some(1)));
    let (grid, boxes) = layout_grid_children(&container, area(5, 7, 400, 200)).unwrap();
    assert_eq!(grid.columns.len(), 3);
    assert!(grid.columns.iter().all(|track| matches!(track, TrackSize::Fixed(100))));
    assert_eq!(grid.rows.len(), 2);
    assert!(grid.rows.iter().all(|track| matches!(track, TrackSize::Fixed(50))));
    assert_eq!((grid.column_gap, grid.row_gap), (10, 10));
    // The first item spans two columns: 100 + 10 + 100. The second is the second
    // item, and stands in the second column.
    assert_eq!(contents(&boxes), vec![(5, 7, 210, 50), (115, 7, 100, 50)]);
}

#[test]
fn test_grid_children_share_what_fractions_leave() {
    let node = Node::element("div".to_string(), AttrMap::new(), vec![]);
    let plain = || styled(&node, &[], vec![]);
    let container = styled(
        &node,
        &[("display", keyword("grid")), ("grid-template-columns", keyword("1fr 2fr"))],
        vec![plain(), plain()],
    );
    let (_, boxes) = layout_grid_children(&container, area(0, 0, 600, 100)).unwrap();
    assert_eq!(
        boxes.iter().map(|d| (d.content.x, d.content.width)).collect::<Vec<_>>(),
        vec![(0, 200), (200, 400)]
    );
    let block = styled(&node, &[("display", keyword("block"))], vec![plain()]);
    assert!(layout_grid_children(&block, area(0, 0, 600, 100)).is_none());
    assert!(layout_grid_children(&container, area(i64::MIN, 0, 600, 100)).is_none());
    let extreme = styled(
        &node,
        &[("display", keyword("grid")), ("column-gap", px(i64::MAX))],
        vec![plain()],
    );
    assert!(layout_grid_children(&extreme, area(0, 0, 600, 100)).is_none());
}
