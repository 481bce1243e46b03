// Block layout of a styled tree.

use browser_engine::css::{Unit, Value};
use browser_engine::dom::{AttrMap, Node};
use browser_engine::layout::{layout_tree, BoxType, Dimensions, EdgeSizes, LayoutBox, Rect};
use browser_engine::style::{PropertyMap, StyledNode};

fn px(n: i64) -> Value {
    Value::Length(n, Unit::Px)
}

fn keyword(word: &str) -> Value {
    Value::Keyword(word.to_string())
}

fn styled<'a>(node: &'a Node, values: &[(&str, Value)], children: Vec<StyledNode<'a>>) -> StyledNode<'a> {
    let mut specified_values = PropertyMap::new();
    for (name, value) in values {
        specified_values.insert(name.to_string(), value.clone());
    }
    StyledNode { node, specified_values, children }
}

fn viewport(width: i64, height: i64) -> Dimensions {
    let mut viewport = Dimensions::default();
    viewport.content.width = width;
    viewport.content.height = height;
    viewport
}

#[test]
fn test_layout_basic() {
    let html = Node::element("div".to_string(), AttrMap::new(), vec![]);
    let styled = styled(&html, &[("width", px(100)), ("height", px(50))], vec![]);

    let mut viewport = Dimensions::default();
    viewport.content.width = 800;
    viewport.content.height = 600;

    let layout = layout_tree(&styled, viewport);

    assert_eq!(layout.dimensions.content.width, 100);
    assert_eq!(layout.dimensions.content.height, 50);
}

#[test]
fn test_auto_width_takes_what_the_edges_leave() {
    let node = Node::element("div".to_string(), AttrMap::new(), vec![]);
    let root = styled(
        &node,
        &[
            ("display", keyword("block")),
            ("margin", px(10)),
            ("margin-left", px(30)),
            ("border-width", px(2)),
            ("padding-right", px(5)),
        ],
        vec![],
    );
    let mut area = viewport(800, 600);
    area.content.x = 100;
    area.content.y = 40;
    let layout = layout_tree(&root, area);
    let d = layout.dimensions;
    assert_eq!(d.margin, EdgeSizes { left: 30, right: 10, top: 10, bottom: 10 });
    assert_eq!(d.border, EdgeSizes { left: 2, right: 2, top: 2, bottom: 2 });
    assert_eq!(d.padding, EdgeSizes { left: 0, right: 5, top: 0, bottom: 0 });
    // 800 - (30 + 10 + 2 + 2 + 0 + 5)
    assert_eq!(d.content.width, 751);
    assert_eq!(d.content.x, 100 + 30 + 2);
    // the height of the viewport does not count: the root starts at its top
    assert_eq!(d.content.y, 40 + 10 + 2);
    assert_eq!(d.content.height, 0);
    assert!(matches!(layout.box_type, BoxType::BlockNode(_)));
}

#[test]
fn test_widths_are_never_negative() {
    let node = Node::element("div".to_string(), AttrMap::new(), vec![]);
    let wide_edges = styled(&node, &[("padding", px(500))], vec![]);
    assert_eq!(layout_tree(&wide_edges, viewport(800, 600)).dimensions.content.width, 0);
    let negative = styled(&node, &[("width", px(-20)), ("height", px(-5))], vec![]);
    let layout = layout_tree(&negative, viewport(800, 600));
    assert_eq!(layout.dimensions.content.width, 0);
    assert_eq!(layout.dimensions.content.height, 0);
    let auto = styled(&node, &[("width", keyword("auto")), ("margin-left", keyword("auto"))], vec![]);
    let layout = layout_tree(&auto, viewport(800, 600));
    // auto margins count as zero
    assert_eq!(layout.dimensions.content.width, 800);
    assert_eq!(layout.dimensions.content.x, 0);
    let em = styled(&node, &[("width", Value::Length(3, Unit::Em)), ("height", Value::Number(7))], vec![]);
    let layout = layout_tree(&em, viewport(800, 600));
    assert_eq!(layout.dimensions.content.width, 0);
    assert_eq!(layout.dimensions.content.height, 0);
}

#[test]
fn test_children_stack_in_document_order() {
    let node = Node::element("div".to_string(), AttrMap::new(), vec![]);
    let first = styled(&node, &[("height", px(30)), ("margin", px(5))], vec![]);
    let hidden = styled(
        &node,
        &[("display", keyword("none")), ("height", px(1000))],
        vec![styled(&node, &[("height", px(1000))], vec![])],
    );
    let second = styled(
        &node,
        &[("display", keyword("inline")), ("height", px(20)), ("padding-top", px(4)), ("width", px(50))],
        vec![],
    );
    let nested_child = styled(&node, &[("height", px(11)), ("border-width", px(1))], vec![]);
    let third = styled(&node, &[("display", keyword("flex")), ("margin-left", px(8))], vec![nested_child]);
    let root = styled(&node, &[("padding", px(10))], vec![first, hidden, second, third]);
    let mut area = viewport(400, 999);
    area.content.x = 1;
    area.content.y = 2;
    let layout = layout_tree(&root, area);

    assert_eq!(layout.children.len(), 3);
    assert_eq!(layout.dimensions.content, Rect { x: 11, y: 12, width: 380, height: 40 + 24 + 13 });
    let a = &layout.children[0];
    assert_eq!(a.dimensions.content, Rect { x: 16, y: 17, width: 370, height: 30 });
    assert_eq!(a.dimensions.margin_box().height, 40);
    let b = &layout.children[1];
    assert!(matches!(b.box_type, BoxType::InlineNode(_)));
    assert_eq!(b.dimensions.content, Rect { x: 11, y: 12 + 40 + 4, width: 50, height: 20 });
    let c = &layout.children[2];
    assert!(matches!(c.box_type, BoxType::BlockNode(_)));
    assert_eq!(c.dimensions.content, Rect { x: 19, y: 12 + 64, width: 372, height: 13 });
    assert_eq!(c.children.len(), 1);
    assert_eq!(c.children[0].dimensions.content, Rect { x: 20, y: 12 + 64 + 1, width: 370, height: 11 });
}

#[test]
fn test_explicit_height_overrides_children() {
    let node = Node::element("div".to_string(), AttrMap::new(), vec![]);
    let child = styled(&node, &[("height", px(300))], vec![]);
    let root = styled(&node, &[("height", px(100))], vec![child]);
    let layout = layout_tree(&root, viewport(200, 200));
    assert_eq!(layout.dimensions.content.height, 100);
    assert_eq!(layout.children[0].dimensions.content.height, 300);
    let follower = styled(&node, &[("height", px(1))], vec![]);
    let short = styled(&node, &[("height", px(10))], vec![styled(&node, &[("height", px(300))], vec![])]);
    let root = styled(&node, &[], vec![short, follower]);
    let layout = layout_tree(&root, viewport(200, 200));
    // the follower stands below the height that is set, not below the overflowing child
    assert_eq!(layout.children[1].dimensions.content.y, 10);
    assert_eq!(layout.dimensions.content.height, 11);
}

fn same_boxes(a: &LayoutBox, b: &LayoutBox) -> bool {
    a.dimensions == b.dimensions
        && a.children.len() == b.children.len()
        && a.children.iter().zip(b.children.iter()).all(|(x, y)| same_boxes(x, y))
}

#[test]
fn test_layout_tree_is_repeatable() {
    let node = Node::element("div".to_string(), AttrMap::new(), vec![]);
    let leaf = styled(&node, &[("height", px(30)), ("margin", px(5))], vec![]);
    let other = styled(&node, &[("height", px(12))], vec![]);
    let root = styled(&node, &[("padding", px(10))], vec![leaf, other]);
    let first = layout_tree(&root, viewport(400, 300));
    let second = layout_tree(&root, viewport(400, 300));
    assert!(same_boxes(&first, &second));
    // laying a box out again in the same containing block changes nothing
    let mut again = layout_tree(&root, viewport(400, 300));
    let mut area = viewport(400, 300);
    area.content.height = 0;
    again.layout(area);
    assert!(same_boxes(&first, &again));
}
