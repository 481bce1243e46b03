// The box model: content, padding, border and margin boxes.

use browser_engine::layout::{Dimensions, EdgeSizes, Rect};

fn contains(outer: Rect, inner: Rect) -> bool {
    outer.x <= inner.x
        && outer.y <= inner.y
        && inner.x + inner.width <= outer.x + outer.width
        && inner.y + inner.height <= outer.y + outer.height
}

#[test]
fn test_expanded_by() {
    let rect = Rect { x: 10, y: 20, width: 100, height: 50 };
    let edge = EdgeSizes { left: 1, right: 2, top: 3, bottom: 4 };
    assert_eq!(rect.expanded_by(edge), Rect { x: 9, y: 17, width: 103, height: 57 });
    assert_eq!(rect.expanded_by(EdgeSizes::default()), rect);
    let negative = EdgeSizes { left: -5, right: -5, top: 0, bottom: 0 };
    assert_eq!(rect.expanded_by(negative), Rect { x: 15, y: 20, width: 90, height: 50 });
}

#[test]
fn test_boxes_of_dimensions() {
    let d = Dimensions {
        content: Rect { x: 100, y: 200, width: 300, height: 40 },
        padding: EdgeSizes { left: 1, right: 2, top: 3, bottom: 4 },
        border: EdgeSizes { left: 10, right: 20, top: 30, bottom: 40 },
        margin: EdgeSizes { left: 5, right: 6, top: 7, bottom: 8 },
    };
    assert_eq!(d.padding_box(), Rect { x: 99, y: 197, width: 303, height: 47 });
    assert_eq!(d.border_box(), Rect { x: 89, y: 167, width: 333, height: 117 });
    assert_eq!(d.margin_box(), Rect { x: 84, y: 160, width: 344, height: 132 });
}

#[test]
fn test_boxes_are_nested_and_areas_grow() {
    let edges = [0, 1, 7, 1000];
    for &a in &edges {
        for &b in &edges {
            for &c in &edges {
                let d = Dimensions {
                    content: Rect { x: -3, y: 4, width: 10, height: 0 },
                    padding: EdgeSizes { left: a, right: b, top: c, bottom: a },
                    border: EdgeSizes { left: b, right: c, top: a, bottom: b },
                    margin: EdgeSizes { left: c, right: a, top: b, bottom: c },
                };
                let boxes = [d.content, d.padding_box(), d.border_box(), d.margin_box()];
                for pair in boxes.windows(2) {
                    assert!(contains(pair[1], pair[0]));
                    assert!(pair[0].width * pair[0].height <= pair[1].width * pair[1].height);
                }
            }
        }
    }
}

#[test]
fn test_defaults_are_zero() {
    let d = Dimensions::default();
    assert_eq!(d.content, Rect { x: 0, y: 0, width: 0, height: 0 });
    assert_eq!(d.margin, EdgeSizes { left: 0, right: 0, top: 0, bottom: 0 });
    assert_eq!(d.margin_box(), Rect::default());
}
