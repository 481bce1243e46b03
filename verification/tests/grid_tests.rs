// Grid layout: track sizes, placement and spans.

use browser_engine::css::{Unit, Value};
use browser_engine::dom::Node;
use browser_engine::layout::grid::{GridContainer, GridItem, TrackSize};
use browser_engine::layout::Dimensions;
use browser_engine::style::{PropertyMap, StyledNode};

fn grid_area(width: i64, height: i64) -> Dimensions {
    let mut dims = Dimensions::default();
    dims.content.width = width;
    dims.content.height = height;
    dims
}

#[test]
fn test_grid_container_default() {
    let grid = GridContainer::default();
    assert_eq!(grid.columns.len(), 1);
    assert_eq!(grid.rows.len(), 1);
    assert_eq!(grid.column_gap, 0);
    assert_eq!(grid.row_gap, 0);
}

#[test]
fn test_simple_grid_layout() {
    let grid = GridContainer {
        columns: vec![TrackSize::Fixed(100), TrackSize::Fixed(200)],
        rows: vec![TrackSize::Fixed(50), TrackSize::Fixed(50)],
        column_gap: 10,
        row_gap: 10,
    };

    let items = vec![
        GridItem::default(),
        GridItem::default(),
        GridItem::default(),
    ];

    let container_dims = grid_area(400, 300);
    let result = grid.layout(container_dims, &items);

    assert_eq!(result.len(), 3);

    // First item: column 0, row 0
    assert_eq!(result[0].content.x, 0);
    assert_eq!(result[0].content.y, 0);
    assert_eq!(result[0].content.width, 100);
    assert_eq!(result[0].content.height, 50);

    // Second item: column 1, row 0
    assert_eq!(result[1].content.x, 110); // 100 + 10 gap
    assert_eq!(result[1].content.y, 0);
    assert_eq!(result[1].content.width, 200);
    assert_eq!(result[1].content.height, 50);

    // Third item: column 0, row 1
    assert_eq!(result[2].content.x, 0);
    assert_eq!(result[2].content.y, 60); // 50 + 10 gap
    assert_eq!(result[2].content.width, 100);
    assert_eq!(result[2].content.height, 50);
}

#[test]
fn test_fr_tracks() {
    let grid = GridContainer {
        columns: vec![TrackSize::Fr(1), TrackSize::Fr(2)],
        rows: vec![TrackSize::Fixed(100)],
        column_gap: 0,
        row_gap: 0,
    };

    let items = vec![GridItem::default(), GridItem::default()];
    let container_dims = grid_area(600, 300);
    let result = grid.layout(container_dims, &items);

    // 1fr gets 200px, 2fr gets 400px (total 600px)
    assert_eq!(result[0].content.width, 200);
    assert_eq!(result[1].content.width, 400);
}

#[test]
fn test_grid_spanning() {
    let grid = GridContainer {
        columns: vec![
            TrackSize::Fixed(100),
            TrackSize::Fixed(100),
            TrackSize::Fixed(100),
        ],
        rows: vec![TrackSize::Fixed(50), TrackSize::Fixed(50)],
        column_gap: 10,
        row_gap: 10,
    };

    let items = vec![
        GridItem {
            column_start: Some(0),
            row_start: Some(0),
            column_span: Some(2), // Span 2 columns
            row_span: Some(1),
        },
    ];

    let container_dims = grid_area(400, 200);
    let result = grid.layout(container_dims, &items);

    // Item spans 2 columns: 100 + 10 (gap) + 100 = 210
    assert_eq!(result[0].content.width, 210);
    assert_eq!(result[0].content.height, 50);
}

#[test]
fn test_grid_item_default() {
    let item = GridItem::default();
    assert!(item.column_start.is_none());
    assert!(item.row_start.is_none());
    assert!(item.column_span.is_none());
    assert!(item.row_span.is_none());
}
#[test]
fn test_parse_track_size() {
    assert!(matches!(
        GridContainer::parse_track_size("100px"),
        Some(TrackSize::Fixed(100))
    ));
    assert!(matches!(
        GridContainer::parse_track_size("2fr"),
        Some(TrackSize::Fr(2))
    ));
    assert!(matches!(
        GridContainer::parse_track_size("auto"),
        Some(TrackSize::Auto)
    ));
}


fn keyword(word: &str) -> Value {
    Value::Keyword(word.to_string())
}

fn styled<'a>(node: &'a Node, values: &[(&str, Value)]) -> StyledNode<'a> {
    let mut specified_values = PropertyMap::new();
    for (name, value) in values {
        specified_values.insert(name.to_string(), value.clone());
    }
    StyledNode { node, specified_values, children: vec![] }
}

#[test]
fn test_track_size_words() {
    assert!(matches!(GridContainer::parse_track_size("-5px"), Some(TrackSize::Fixed(-5))));
    assert!(matches!(GridContainer::parse_track_size("+7fr"), Some(TrackSize::Fr(7))));
    assert!(matches!(GridContainer::parse_track_size("10pxpx"), Some(TrackSize::Fixed(10))));
    assert!(GridContainer::parse_track_size("px").is_none());
    assert!(GridContainer::parse_track_size("1.5fr").is_none());
    assert!(GridContainer::parse_track_size("100").is_none());
    assert!(GridContainer::parse_track_size("AUTO").is_none());
    assert!(GridContainer::parse_track_size("99999999999999999999px").is_none());
    assert!(matches!(
        GridContainer::parse_track_size("9223372036854775807px"),
        Some(TrackSize::Fixed(i64::MAX))
    ));
}

#[test]
fn test_auto_tracks_and_leftover_space() {
    let grid = GridContainer {
        columns: vec![TrackSize::Auto, TrackSize::Fr(1), TrackSize::Fixed(50), TrackSize::Fr(3)],
        rows: vec![],
        column_gap: 10,
        row_gap: 0,
    };
    let items = vec![GridItem::default(); 4];
    let result = grid.layout(grid_area(500, 80), &items);
    // 500 - 3 gaps of 10 - 100 (auto) - 50 (fixed) = 320 for four weights
    let widths: Vec<i64> = result.iter().map(|d| d.content.width).collect();
    assert_eq!(widths, vec![100, 80, 50, 240]);
    let xs: Vec<i64> = result.iter().map(|d| d.content.x).collect();
    assert_eq!(xs, vec![0, 110, 200, 260]);
    // no row tracks: one row that takes the whole height
    assert!(result.iter().all(|d| d.content.height == 80 && d.content.y == 0));
}

#[test]
fn test_fr_tracks_round_down_and_floor_at_zero() {
    let grid = GridContainer {
        columns: vec![TrackSize::Fr(1), TrackSize::Fr(1), TrackSize::Fr(1)],
        rows: vec![TrackSize::Fixed(10)],
        column_gap: 0,
        row_gap: 0,
    };
    let items = vec![GridItem::default(); 3];
    let result = grid.layout(grid_area(100, 10), &items);
    assert_eq!(result[0].content.width, 33);
    assert_eq!(result[1].content.width, 33);
    assert_eq!(result[2].content.x, 66);
    let crowded = GridContainer {
        columns: vec![TrackSize::Fixed(300), TrackSize::Fr(2), TrackSize::Fr(-1)],
        rows: vec![TrackSize::Fixed(10)],
        column_gap: 0,
        row_gap: 0,
    };
    let result = crowded.layout(grid_area(100, 10), &items);
    assert_eq!(result[0].content.width, 300);
    assert_eq!(result[1].content.width, 0);
    assert_eq!(result[2].content.width, 0);
    let weightless = GridContainer {
        columns: vec![TrackSize::Fr(0), TrackSize::Fr(-4)],
        rows: vec![TrackSize::Fixed(10)],
        column_gap: 0,
        row_gap: 0,
    };
    let result = weightless.layout(grid_area(100, 10), &items);
    assert_eq!(result[0].content.width, 0);
    assert_eq!(result[1].content.width, 0);
}

#[test]
fn test_spans_and_starts_are_clamped() {
    let grid = GridContainer {
        columns: vec![TrackSize::Fixed(100), TrackSize::Fixed(100), TrackSize::Fixed(100)],
        rows: vec![TrackSize::Fixed(50), TrackSize::Fixed(50)],
        column_gap: 10,
        row_gap: 10,
    };
    let mut offset = grid_area(400, 200);
    offset.content.x = 7;
    offset.content.y = 9;
    let items = vec![
        GridItem { column_start: Some(1), row_start: Some(0), column_span: Some(9), row_span: Some(9) },
        GridItem { column_start: Some(8), row_start: Some(1), column_span: Some(2), row_span: Some(0) },
        GridItem { column_start: None, row_start: Some(5), column_span: None, row_span: None },
    ];
    let result = grid.layout(offset, &items);
    // spans end at the last track
    assert_eq!(result[0].content.x, 7 + 110);
    assert_eq!(result[0].content.width, 210);
    assert_eq!(result[0].content.height, 110);
    // a start past the last column is the last column; a span of zero is empty
    assert_eq!(result[1].content.x, 7 + 220);
    assert_eq!(result[1].content.width, 100);
    assert_eq!(result[1].content.y, 9 + 60);
    assert_eq!(result[1].content.height, 0);
    // a row past the last row: below all rows, one gap for each index
    assert_eq!(result[2].content.x, 7 + 220);
    assert_eq!(result[2].content.y, 9 + 100 + 50);
    assert_eq!(result[2].content.height, 0);
}

#[test]
fn test_grid_container_from_styled_node() {
    let node = Node::text("x".to_string());
    let plain = styled(&node, &[("display", keyword("block"))]);
    assert!(GridContainer::from_styled_node(&plain).is_none());
    let unset = styled(&node, &[]);
    assert!(GridContainer::from_styled_node(&unset).is_none());
    let grid = styled(
        &node,
        &[
            ("display", keyword("inline-grid")),
            ("grid-template-columns", keyword("200px  1fr bogus\t2fr auto")),
            ("column-gap", Value::Length(12, Unit::Px)),
            ("row-gap", Value::Length(3, Unit::Em)),
        ],
    );
    let container = GridContainer::from_styled_node(&grid).unwrap();
    assert_eq!(container.columns.len(), 4);
    assert!(matches!(container.columns[0], TrackSize::Fixed(200)));
    assert!(matches!(container.columns[1], TrackSize::Fr(1)));
    assert!(matches!(container.columns[2], TrackSize::Fr(2)));
    assert!(matches!(container.columns[3], TrackSize::Auto));
    assert_eq!(container.rows.len(), 1);
    assert!(matches!(container.rows[0], TrackSize::Auto));
    assert_eq!(container.column_gap, 12);
    assert_eq!(container.row_gap, 0);
}

#[test]
fn test_grid_item_from_styled_node() {
    let node = Node::text("x".to_string());
    let plain = GridItem::from_styled_node(&styled(&node, &[]));
    assert_eq!(plain.column_start, None);
    assert_eq!(plain.row_start, None);
    assert_eq!(plain.column_span, Some(1));
    assert_eq!(plain.row_span, Some(1));
    let placed = GridItem::from_styled_node(&styled(
        &node,
        &[
            ("grid-column-start", Value::Number(2)),
            ("grid-column-end", Value::Number(5)),
            ("grid-row-start", Value::Number(-3)),
            ("grid-row-end", keyword("span 4")),
        ],
    ));
    // lines count from one in the style and from zero in the item
    assert_eq!(placed.column_start, Some(1));
    assert_eq!(placed.column_span, Some(3));
    assert_eq!(placed.row_start, Some(0));
    assert_eq!(placed.row_span, Some(4));
    let odd = GridItem::from_styled_node(&styled(
        &node,
        &[
            ("grid-column-start", Value::Length(4, Unit::Px)),
            ("grid-column-end", Value::Number(4)),
            ("grid-row-end", keyword("span many")),
        ],
    ));
    assert_eq!(odd.column_start, Some(3));
    assert_eq!(odd.column_span, Some(1));
    assert_eq!(odd.row_span, None);
}
