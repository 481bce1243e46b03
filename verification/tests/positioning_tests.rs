// Positioning: static, relative, absolute and fixed boxes.

use browser_engine::css::{Unit, Value};
use browser_engine::dom::Node;
use browser_engine::layout::positioning::{Offsets, Position, PositionedElement};
use browser_engine::layout::{Dimensions, Rect};
use browser_engine::style::{PropertyMap, StyledNode};

#[test]
fn test_position_default() {
    let pos = Position::default();
    assert_eq!(pos, Position::Static);
}

#[test]
fn test_positioned_element_default() {
    let elem = PositionedElement::default();
    assert_eq!(elem.position, Position::Static);
    assert!(!elem.is_positioned());
    assert_eq!(elem.z_index, 0);
}

#[test]
fn test_is_positioned() {
    let static_elem = PositionedElement {
        position: Position::Static,
        ..Default::default()
    };
    assert!(!static_elem.is_positioned());

    let relative_elem = PositionedElement {
        position: Position::Relative,
        ..Default::default()
    };
    assert!(relative_elem.is_positioned());

    let absolute_elem = PositionedElement {
        position: Position::Absolute,
        ..Default::default()
    };
    assert!(absolute_elem.is_positioned());
}

#[test]
fn test_relative_positioning() {
    let mut dims = Dimensions::default();
    dims.content.x = 100;
    dims.content.y = 100;
    dims.content.width = 50;
    dims.content.height = 50;

    let positioned = PositionedElement {
        position: Position::Relative,
        offsets: Offsets {
            top: Some(20),
            left: Some(30),
            bottom: None,
            right: None,
        },
        z_index: 0,
    };

    let viewport = Rect::default();
    let containing_block = Dimensions::default();
    positioned.apply_positioning(&mut dims, &containing_block, &viewport);

    assert_eq!(dims.content.x, 130); // 100 + 30
    assert_eq!(dims.content.y, 120); // 100 + 20
}

#[test]
fn test_absolute_positioning() {
    let mut dims = Dimensions::default();
    dims.content.width = 50;
    dims.content.height = 50;

    let mut containing_block = Dimensions::default();
    containing_block.content.x = 200;
    containing_block.content.y = 200;
    containing_block.content.width = 400;
    containing_block.content.height = 400;

    let positioned = PositionedElement {
        position: Position::Absolute,
        offsets: Offsets {
            top: Some(10),
            left: Some(20),
            bottom: None,
            right: None,
        },
        z_index: 0,
    };

    let viewport = Rect::default();
    positioned.apply_positioning(&mut dims, &containing_block, &viewport);

    assert_eq!(dims.content.x, 220); // 200 + 20
    assert_eq!(dims.content.y, 210); // 200 + 10
}

#[test]
fn test_absolute_positioning_right_bottom() {
    let mut dims = Dimensions::default();
    dims.content.width = 50;
    dims.content.height = 50;

    let mut containing_block = Dimensions::default();
    containing_block.content.x = 0;
    containing_block.content.y = 0;
    containing_block.content.width = 400;
    containing_block.content.height = 400;

    let positioned = PositionedElement {
        position: Position::Absolute,
        offsets: Offsets {
            top: None,
            left: None,
            bottom: Some(10),
            right: Some(20),
        },
        z_index: 0,
    };

    let viewport = Rect::default();
    positioned.apply_positioning(&mut dims, &containing_block, &viewport);

    // Right: 400 - 50 (width) - 20 = 330
    // Bottom: 400 - 50 (height) - 10 = 340
    assert_eq!(dims.content.x, 330);
    assert_eq!(dims.content.y, 340);
}

#[test]
fn test_fixed_positioning() {
    let mut dims = Dimensions::default();
    dims.content.width = 50;
    dims.content.height = 50;

    let viewport = Rect {
        x: 0,
        y: 0,
        width: 800,
        height: 600,
    };

    let positioned = PositionedElement {
        position: Position::Fixed,
        offsets: Offsets {
            top: Some(10),
            right: Some(10),
            bottom: None,
            left: None,
        },
        z_index: 0,
    };

    let containing_block = Dimensions::default();
    positioned.apply_positioning(&mut dims, &containing_block, &viewport);

    // Right: 800 - 50 (width) - 10 = 740
    assert_eq!(dims.content.x, 740);
    assert_eq!(dims.content.y, 10);
}

fn boxed(x: i64, y: i64, width: i64, height: i64) -> Dimensions {
    let mut dims = Dimensions::default();
    dims.content = Rect { x, y, width, height };
    dims
}

fn offsets(top: Option<i64>, right: Option<i64>, bottom: Option<i64>, left: Option<i64>) -> Offsets {
    Offsets { top, right, bottom, left }
}

#[test]
fn test_static_positioning_changes_nothing() {
    let mut dims = boxed(3, 4, 50, 60);
    dims.margin.left = 7;
    dims.padding.top = 2;
    let before = dims;
    let element = PositionedElement {
        position: Position::Static,
        offsets: offsets(Some(10), Some(20), Some(30), Some(40)),
        z_index: 5,
    };
    element.apply_positioning(&mut dims, &boxed(100, 100, 400, 400), &boxed(0, 0, 800, 600).content);
    assert_eq!(dims, before);
}

#[test]
fn test_relative_positioning_with_bottom_and_right() {
    let mut dims = boxed(100, 100, 50, 50);
    let element = PositionedElement {
        position: Position::Relative,
        offsets: offsets(None, Some(30), Some(20), None),
        z_index: 0,
    };
    element.apply_positioning(&mut dims, &Dimensions::default(), &Rect::default());
    assert_eq!((dims.content.x, dims.content.y), (70, 80));
    assert_eq!((dims.content.width, dims.content.height), (50, 50));
}

#[test]
fn test_left_and_top_win_over_right_and_bottom() {
    let all = offsets(Some(1), Some(2), Some(3), Some(4));
    let mut dims = boxed(10, 10, 50, 50);
    let relative = PositionedElement { position: Position::Relative, offsets: all, z_index: 0 };
    relative.apply_positioning(&mut dims, &Dimensions::default(), &Rect::default());
    assert_eq!((dims.content.x, dims.content.y), (14, 11));
    let absolute = PositionedElement { position: Position::Absolute, offsets: all, z_index: 0 };
    absolute.apply_positioning(&mut dims, &boxed(100, 200, 400, 400), &Rect::default());
    assert_eq!((dims.content.x, dims.content.y), (104, 201));
}

#[test]
fn test_sticky_is_laid_out_as_relative() {
    let mut sticky = boxed(5, 5, 10, 10);
    let mut relative = sticky;
    let some = offsets(Some(7), None, None, Some(-2));
    PositionedElement { position: Position::Sticky, offsets: some, z_index: 0 }.apply_positioning(
        &mut sticky,
        &boxed(100, 100, 400, 400),
        &Rect::default(),
    );
    PositionedElement { position: Position::Relative, offsets: some, z_index: 0 }
        .apply_positioning(&mut relative, &boxed(100, 100, 400, 400), &Rect::default());
    assert_eq!(sticky, relative);
    assert_eq!((sticky.content.x, sticky.content.y), (3, 12));
}

#[test]
fn test_absolute_without_offsets_goes_to_the_origin_of_the_containing_block() {
    let mut dims = boxed(77, 88, 50, 50);
    let element = PositionedElement { position: Position::Absolute, ..Default::default() };
    element.apply_positioning(&mut dims, &boxed(200, 300, 400, 400), &boxed(1, 2, 3, 4).content);
    assert_eq!((dims.content.x, dims.content.y), (200, 300));
    let fixed = PositionedElement {
        position: Position::Fixed,
        offsets: offsets(None, None, Some(10), None),
        z_index: 0,
    };
    fixed.apply_positioning(&mut dims, &boxed(200, 300, 400, 400), &boxed(5, 5, 800, 600).content);
    assert_eq!((dims.content.x, dims.content.y), (5, 5 + 600 - 50 - 10));
}

#[test]
fn test_positioned_element_from_styled_node() {
    let node = Node::text("x".to_string());
    let mut specified_values = PropertyMap::new();
    specified_values.insert("position".to_string(), Value::Keyword("fixed".to_string()));
    specified_values.insert("top".to_string(), Value::Length(12, Unit::Px));
    specified_values.insert("left".to_string(), Value::Keyword("auto".to_string()));
    specified_values.insert("right".to_string(), Value::Length(3, Unit::Em));
    specified_values.insert("z-index".to_string(), Value::Number(9_000_000_000));
    let styled = StyledNode { node: &node, specified_values, children: vec![] };
    let element = PositionedElement::from_styled_node(&styled);
    assert_eq!(element.position, Position::Fixed);
    assert_eq!(element.offsets.top, Some(12));
    assert_eq!(element.offsets.left, None);
    assert_eq!(element.offsets.right, None);
    assert_eq!(element.offsets.bottom, None);
    assert_eq!(element.z_index, i32::MAX);
    assert!(element.is_positioned());
    let plain = StyledNode { node: &node, specified_values: PropertyMap::new(), children: vec![] };
    let element = PositionedElement::from_styled_node(&plain);
    assert_eq!(element.position, Position::Static);
    assert_eq!(element.z_index, 0);
}

#[test]
fn test_checked_positioning_leaves_what_is_out_of_range() {
    let element = PositionedElement {
        position: Position::Absolute,
        offsets: offsets(None, Some(20), Some(10), None),
        z_index: 0,
    };
    let containing = boxed(0, 0, 400, 400);
    let viewport = Rect::default();
    let mut dims = boxed(1, 2, 50, 50);
    assert!(element.try_apply_positioning(&mut dims, &containing, &viewport));
    assert_eq!((dims.content.x, dims.content.y), (330, 340));
    // A box too far out is left as it is.
    let mut far = boxed(i64::MAX, 0, 50, 50);
    assert!(!element.try_apply_positioning(&mut far, &containing, &viewport));
    assert_eq!(far, boxed(i64::MAX, 0, 50, 50));
    // So is any box where the containing block, the viewport or an offset is.
    let mut dims = boxed(1, 2, 50, 50);
    assert!(!element.try_apply_positioning(&mut dims, &boxed(0, i64::MIN, 1, 1), &viewport));
    assert!(!element.try_apply_positioning(
        &mut dims,
        &containing,
        &Rect { x: 0, y: 0, width: i64::MAX, height: 0 }
    ));
    let extreme = PositionedElement {
        position: Position::Relative,
        offsets: offsets(Some(i64::MAX), None, None, None),
        z_index: 0,
    };
    assert!(!extreme.try_apply_positioning(&mut dims, &containing, &viewport));
    assert_eq!(dims, boxed(1, 2, 50, 50));
    // Static positioning within range is applied, and changes nothing.
    let fixed = PositionedElement {
        position: Position::Static,
        offsets: offsets(Some(1), None, None, None),
        z_index: 0,
    };
    assert!(fixed.try_apply_positioning(&mut dims, &containing, &viewport));
    assert_eq!(dims, boxed(1, 2, 50, 50));
}
