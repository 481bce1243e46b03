// Flexbox layout: rows, columns, growing, shrinking, alignment and wrapping.

use browser_engine::layout::flexbox::{
    AlignItems, FlexContainer, FlexDirection, FlexItem, FlexWrap, JustifyContent,
};
use browser_engine::layout::Dimensions;

/// Helper to create a basic container dimensions
fn flex_area(width: i64, height: i64) -> Dimensions {
    let mut dims = Dimensions::default();
    dims.content.width = width;
    dims.content.height = height;
    dims
}

/// Helper to create a flex item with specific properties
fn item(flex_grow: i64, flex_shrink: i64, flex_basis: Option<i64>) -> FlexItem {
    FlexItem {
        flex_grow,
        flex_shrink,
        flex_basis,
        min_size: None,
        max_size: None,
    }
}

#[test]
fn test_flex_row_basic() {
    let flex_container = FlexContainer {
        direction: FlexDirection::Row,
        wrap: FlexWrap::NoWrap,
        justify_content: JustifyContent::FlexStart,
        align_items: AlignItems::Stretch,
    };

    let items = vec![
        item(0, 1, Some(100)),
        item(0, 1, Some(150)),
        item(0, 1, Some(200)),
    ];

    let container_dims = flex_area(800, 600);
    let result = flex_container.layout(container_dims, &items);

    assert_eq!(result.len(), 3);
    
    // Items should be positioned left to right
    assert_eq!(result[0].content.x, 0);
    assert_eq!(result[0].content.width, 100);
    
    assert_eq!(result[1].content.x, 100);
    assert_eq!(result[1].content.width, 150);
    
    assert_eq!(result[2].content.x, 250);
    assert_eq!(result[2].content.width, 200);
}

#[test]
fn test_flex_column_basic() {
    let flex_container = FlexContainer {
        direction: FlexDirection::Column,
        wrap: FlexWrap::NoWrap,
        justify_content: JustifyContent::FlexStart,
        align_items: AlignItems::Stretch,
    };

    let items = vec![
        item(0, 1, Some(100)),
        item(0, 1, Some(150)),
    ];

    let container_dims = flex_area(800, 600);
    let result = flex_container.layout(container_dims, &items);

    assert_eq!(result.len(), 2);
    
    // Items should be stacked vertically (main axis is height)
    assert_eq!(result[0].content.y, 0);
    assert_eq!(result[0].content.height, 100);
    
    assert_eq!(result[1].content.y, 100);
    assert_eq!(result[1].content.height, 150);
}

#[test]
fn test_flex_grow() {
    let flex_container = FlexContainer {
        direction: FlexDirection::Row,
        wrap: FlexWrap::NoWrap,
        justify_content: JustifyContent::FlexStart,
        align_items: AlignItems::Stretch,
    };

    let items = vec![
        item(1, 1, Some(100)), // flex-grow: 1
        item(2, 1, Some(100)), // flex-grow: 2
        item(1, 1, Some(100)), // flex-grow: 1
    ];

    let container_dims = flex_area(800, 600);
    let result = flex_container.layout(container_dims, &items);

    // Total basis: 300px, available space: 800px
    // Free space: 500px
    // Total flex-grow: 4
    // Item 0 gets: 100 + (500 * 1/4) = 225
    // Item 1 gets: 100 + (500 * 2/4) = 350
    // Item 2 gets: 100 + (500 * 1/4) = 225

    assert_eq!(result[0].content.width, 225);
    assert_eq!(result[1].content.width, 350);
    assert_eq!(result[2].content.width, 225);
}

#[test]
fn test_flex_shrink() {
    let flex_container = FlexContainer {
        direction: FlexDirection::Row,
        wrap: FlexWrap::NoWrap,
        justify_content: JustifyContent::FlexStart,
        align_items: AlignItems::Stretch,
    };

    let items = vec![
        item(0, 1, Some(400)), // flex-shrink: 1
        item(0, 2, Some(400)), // flex-shrink: 2
        item(0, 1, Some(400)), // flex-shrink: 1
    ];

    let container_dims = flex_area(800, 600);
    let result = flex_container.layout(container_dims, &items);

    // Total basis: 1200px, available space: 800px
    // Overflow: -400px
    // Total flex-shrink: 4
    // Items should shrink proportionally
    assert!(result[0].content.width < 400);
    assert!(result[1].content.width < 400);
    assert!(result[2].content.width < 400);
    
    // Item 1 should shrink more (flex-shrink: 2)
    assert!(result[1].content.width < result[0].content.width);
}

#[test]
fn test_justify_content_flex_end() {
    let flex_container = FlexContainer {
        direction: FlexDirection::Row,
        wrap: FlexWrap::NoWrap,
        justify_content: JustifyContent::FlexEnd,
        align_items: AlignItems::Stretch,
    };

    let items = vec![
        item(0, 1, Some(100)),
        item(0, 1, Some(100)),
    ];

    let container_dims = flex_area(800, 600);
    let result = flex_container.layout(container_dims, &items);

    // Items should be aligned to the right
    // Free space: 800 - 200 = 600
    assert_eq!(result[0].content.x, 600);
    assert_eq!(result[1].content.x, 700);
}

#[test]
fn test_justify_content_center() {
    let flex_container = FlexContainer {
        direction: FlexDirection::Row,
        wrap: FlexWrap::NoWrap,
        justify_content: JustifyContent::Center,
        align_items: AlignItems::Stretch,
    };

    let items = vec![
        item(0, 1, Some(100)),
        item(0, 1, Some(100)),
    ];

    let container_dims = flex_area(800, 600);
    let result = flex_container.layout(container_dims, &items);

    // Items should be centered
    // Free space: 800 - 200 = 600
    // Offset: 600 / 2 = 300
    assert_eq!(result[0].content.x, 300);
    assert_eq!(result[1].content.x, 400);
}

#[test]
fn test_justify_content_space_between() {
    let flex_container = FlexContainer {
        direction: FlexDirection::Row,
        wrap: FlexWrap::NoWrap,
        justify_content: JustifyContent::SpaceBetween,
        align_items: AlignItems::Stretch,
    };

    let items = vec![
        item(0, 1, Some(100)),
        item(0, 1, Some(100)),
        item(0, 1, Some(100)),
    ];

    let container_dims = flex_area(800, 600);
    let result = flex_container.layout(container_dims, &items);

    // Free space: 800 - 300 = 500
    // Gaps: 500 / 2 = 250 (between 3 items)
    assert_eq!(result[0].content.x, 0);
    assert_eq!(result[1].content.x, 350); // 100 + 250
    assert_eq!(result[2].content.x, 700); // 350 + 100 + 250
}

#[test]
fn test_justify_content_space_around() {
    let flex_container = FlexContainer {
        direction: FlexDirection::Row,
        wrap: FlexWrap::NoWrap,
        justify_content: JustifyContent::SpaceAround,
        align_items: AlignItems::Stretch,
    };

    let items = vec![
        item(0, 1, Some(100)),
        item(0, 1, Some(100)),
    ];

    let container_dims = flex_area(800, 600);
    let result = flex_container.layout(container_dims, &items);

    // Free space: 800 - 200 = 600
    // Gap per item: 600 / 2 = 300
    // Half gap on each side: 150
    assert_eq!(result[0].content.x, 150);
    assert_eq!(result[1].content.x, 550); // 150 + 100 + 300
}

#[test]
fn test_justify_content_space_evenly() {
    let flex_container = FlexContainer {
        direction: FlexDirection::Row,
        wrap: FlexWrap::NoWrap,
        justify_content: JustifyContent::SpaceEvenly,
        align_items: AlignItems::Stretch,
    };

    let items = vec![
        item(0, 1, Some(100)),
        item(0, 1, Some(100)),
    ];

    let container_dims = flex_area(800, 600);
    let result = flex_container.layout(container_dims, &items);

    // Free space: 800 - 200 = 600
    // 3 gaps (before, between, after): 600 / 3 = 200
    assert_eq!(result[0].content.x, 200);
    assert_eq!(result[1].content.x, 500); // 200 + 100 + 200
}

#[test]
fn test_row_reverse() {
    let flex_container = FlexContainer {
        direction: FlexDirection::RowReverse,
        wrap: FlexWrap::NoWrap,
        justify_content: JustifyContent::FlexStart,
        align_items: AlignItems::Stretch,
    };

    let items = vec![
        item(0, 1, Some(100)),
        item(0, 1, Some(150)),
    ];

    let container_dims = flex_area(800, 600);
    let result = flex_container.layout(container_dims, &items);

    // Items should be positioned right to left
    // Item 0 should be at the right
    assert!(result[0].content.x > result[1].content.x);
}

#[test]
fn test_column_reverse() {
    let flex_container = FlexContainer {
        direction: FlexDirection::ColumnReverse,
        wrap: FlexWrap::NoWrap,
        justify_content: JustifyContent::FlexStart,
        align_items: AlignItems::Stretch,
    };

    let items = vec![
        item(0, 1, Some(100)),
        item(0, 1, Some(150)),
    ];

    let container_dims = flex_area(800, 600);
    let result = flex_container.layout(container_dims, &items);

    // Items should be positioned bottom to top
    // Item 0 should be lower (higher y)
    assert!(result[0].content.y > result[1].content.y);
}

#[test]
fn test_empty_flex_area() {
    let flex_container = FlexContainer::default();
    let items: Vec<FlexItem> = vec![];
    let container_dims = flex_area(800, 600);
    
    let result = flex_container.layout(container_dims, &items);
    assert_eq!(result.len(), 0);
}

#[test]
fn test_single_item() {
    let flex_container = FlexContainer {
        direction: FlexDirection::Row,
        wrap: FlexWrap::NoWrap,
        justify_content: JustifyContent::Center,
        align_items: AlignItems::Center,
    };

    let items = vec![item(0, 1, Some(200))];
    let container_dims = flex_area(800, 600);
    
    let result = flex_container.layout(container_dims, &items);
    
    assert_eq!(result.len(), 1);
    // Should be centered: (800 - 200) / 2 = 300
    assert_eq!(result[0].content.x, 300);
}

#[test]
fn test_wrap_basic() {
    let flex_container = FlexContainer {
        direction: FlexDirection::Row,
        wrap: FlexWrap::Wrap,
        justify_content: JustifyContent::FlexStart,
        align_items: AlignItems::Stretch,
    };

    let items = vec![
        item(0, 1, Some(300)),
        item(0, 1, Some(300)),
        item(0, 1, Some(300)), // Should wrap to next line
    ];

    let container_dims = flex_area(700, 600);
    let result = flex_container.layout(container_dims, &items);

    assert_eq!(result.len(), 3);
    
    // First two items on first line
    assert_eq!(result[0].content.y, result[1].content.y);
    
    // Third item should be on second line (different y)
    assert!(result[2].content.y > result[0].content.y);
}

#[test]
fn test_min_size_constraint() {
    let flex_container = FlexContainer {
        direction: FlexDirection::Row,
        wrap: FlexWrap::NoWrap,
        justify_content: JustifyContent::FlexStart,
        align_items: AlignItems::Stretch,
    };

    let items = vec![
        FlexItem {
            flex_grow: 0,
            flex_shrink: 1,
            flex_basis: Some(400),
            min_size: Some(200), // Should not shrink below 200
            max_size: None,
        },
    ];

    let container_dims = flex_area(100, 600); // Very narrow
    let result = flex_container.layout(container_dims, &items);

    // Should respect min-size even in overflow
    assert!(result[0].content.width >= 200);
}

#[test]
fn test_max_size_constraint() {
    let flex_container = FlexContainer {
        direction: FlexDirection::Row,
        wrap: FlexWrap::NoWrap,
        justify_content: JustifyContent::FlexStart,
        align_items: AlignItems::Stretch,
    };

    let items = vec![
        FlexItem {
            flex_grow: 1,
            flex_shrink: 1,
            flex_basis: Some(100),
            min_size: None,
            max_size: Some(300), // Should not grow beyond 300
        },
    ];

    let container_dims = flex_area(1000, 600); // Plenty of space
    let result = flex_container.layout(container_dims, &items);

    // Should respect max-size even with flex-grow
    assert!(result[0].content.width <= 300);
}

#[test]
fn test_align_items_flex_start() {
    let flex_container = FlexContainer {
        direction: FlexDirection::Row,
        wrap: FlexWrap::NoWrap,
        justify_content: JustifyContent::FlexStart,
        align_items: AlignItems::FlexStart,
    };

    let items = vec![
        item(0, 1, Some(100)),
        item(0, 1, Some(150)),
    ];

    let container_dims = flex_area(800, 600);
    let result = flex_container.layout(container_dims, &items);

    // Items should be aligned to top (y = 0)
    assert_eq!(result[0].content.y, 0);
    assert_eq!(result[1].content.y, 0);
}

#[test]
fn test_align_items_flex_end() {
    let flex_container = FlexContainer {
        direction: FlexDirection::Row,
        wrap: FlexWrap::NoWrap,
        justify_content: JustifyContent::FlexStart,
        align_items: AlignItems::FlexEnd,
    };

    let items = vec![
        item(0, 1, Some(100)),
        item(0, 1, Some(150)),
    ];

    let container_dims = flex_area(800, 600);
    let result = flex_container.layout(container_dims, &items);

    // Items should be aligned to bottom
    // Both should have same y (at the end)
    assert!(result[0].content.y > 0);
    assert!(result[1].content.y > 0);
}

#[test]
fn test_align_items_center() {
    let flex_container = FlexContainer {
        direction: FlexDirection::Row,
        wrap: FlexWrap::NoWrap,
        justify_content: JustifyContent::FlexStart,
        align_items: AlignItems::Center,
    };

    let items = vec![
        item(0, 1, Some(100)),
    ];

    let container_dims = flex_area(800, 600);
    let result = flex_container.layout(container_dims, &items);

    // Item should be vertically centered
    // With cross size 0 (not calculated yet), position should be centered in line
    assert!(result[0].content.y >= 0);
}

#[test]
fn test_zero_flex_basis() {
    let flex_container = FlexContainer {
        direction: FlexDirection::Row,
        wrap: FlexWrap::NoWrap,
        justify_content: JustifyContent::FlexStart,
        align_items: AlignItems::Stretch,
    };

    let items = vec![
        item(1, 1, Some(0)), // flex-basis: 0
        item(1, 1, Some(0)),
    ];

    let container_dims = flex_area(800, 600);
    let result = flex_container.layout(container_dims, &items);

    // Both items should grow equally from 0
    assert_eq!(result[0].content.width, 400);
    assert_eq!(result[1].content.width, 400);
}

#[test]
fn test_flex_container_default() {
    let container = FlexContainer::default();
    assert_eq!(container.direction, FlexDirection::Row);
    assert_eq!(container.wrap, FlexWrap::NoWrap);
    assert_eq!(container.justify_content, JustifyContent::FlexStart);
    assert_eq!(container.align_items, AlignItems::Stretch);
}

#[test]
fn test_flex_item_default() {
    let item = FlexItem::default();
    assert_eq!(item.flex_grow, 0);
    assert_eq!(item.flex_shrink, 1);
    assert!(item.flex_basis.is_none());
}

fn row(justify_content: JustifyContent) -> FlexContainer {
    FlexContainer {
        direction: FlexDirection::Row,
        wrap: FlexWrap::NoWrap,
        justify_content,
        align_items: AlignItems::Stretch,
    }
}

fn widths(result: &[Dimensions]) -> Vec<i64> {
    result.iter().map(|d| d.content.width).collect()
}

fn xs(result: &[Dimensions]) -> Vec<i64> {
    result.iter().map(|d| d.content.x).collect()
}

#[test]
fn test_grow_fills_the_container() {
    let items = vec![item(1, 1, Some(50)), item(3, 1, Some(150)), item(0, 1, Some(100))];
    let result = row(JustifyContent::FlexStart).layout(flex_area(700, 10), &items);
    // 400 free, shares 100, 300 and 0
    assert_eq!(widths(&result), vec![150, 450, 100]);
    assert_eq!(widths(&result).iter().sum::<i64>(), 700);
    // shares that do not divide evenly round down: the sizes fall short by under one unit each
    let thirds = vec![item(1, 1, Some(0)), item(1, 1, Some(0)), item(1, 1, Some(0))];
    let result = row(JustifyContent::FlexStart).layout(flex_area(100, 10), &thirds);
    assert_eq!(widths(&result), vec![33, 33, 33]);
}

#[test]
fn test_larger_shrink_factor_never_ends_up_wider() {
    for shrink in 0..6 {
        let items = vec![item(0, shrink, Some(300)), item(0, shrink + 1, Some(300)), item(0, 9, Some(900))];
        let result = row(JustifyContent::FlexStart).layout(flex_area(500, 10), &items);
        assert!(result[1].content.width <= result[0].content.width);
    }
    let items = vec![item(0, 1, Some(400)), item(0, 3, Some(400))];
    let result = row(JustifyContent::FlexStart).layout(flex_area(400, 10), &items);
    assert_eq!(widths(&result), vec![300, 100]);
}

#[test]
fn test_shrunk_sizes_stop_at_zero() {
    let items = vec![item(0, 9, Some(10)), item(0, 1, Some(1000))];
    let result = row(JustifyContent::FlexStart).layout(flex_area(100, 10), &items);
    // the overflow of 910 would take 819 from the first item
    assert_eq!(widths(&result), vec![0, 909]);
    assert_eq!(xs(&result), vec![0, 0]);
}

#[test]
fn test_negative_factors_count_as_zero() {
    let items = vec![item(-5, -5, Some(100)), item(1, 1, Some(100))];
    let grown = row(JustifyContent::FlexStart).layout(flex_area(300, 10), &items);
    assert_eq!(widths(&grown), vec![100, 200]);
    let shrunk = row(JustifyContent::FlexStart).layout(flex_area(150, 10), &items);
    assert_eq!(widths(&shrunk), vec![100, 50]);
}

#[test]
fn test_no_factors_no_distribution() {
    let items = vec![item(0, 0, Some(100)), item(0, 0, Some(100))];
    let roomy = row(JustifyContent::FlexStart).layout(flex_area(500, 10), &items);
    assert_eq!(widths(&roomy), vec![100, 100]);
    let tight = row(JustifyContent::FlexStart).layout(flex_area(50, 10), &items);
    assert_eq!(widths(&tight), vec![100, 100]);
}

#[test]
fn test_limits_apply_before_and_after_flexing() {
    let limited = FlexItem {
        flex_grow: 1,
        flex_shrink: 1,
        flex_basis: Some(50),
        min_size: Some(80),
        max_size: Some(120),
    };
    let items = vec![limited, item(1, 1, Some(100))];
    // hypothetical sizes 80 and 100, 220 free: 190 is cut back to 120
    let result = row(JustifyContent::FlexStart).layout(flex_area(400, 10), &items);
    assert_eq!(widths(&result), vec![120, 210]);
    assert_eq!(xs(&result), vec![0, 120]);
    // where the limits cross, the upper one wins
    let crossed = FlexItem {
        flex_grow: 0,
        flex_shrink: 0,
        flex_basis: Some(10),
        min_size: Some(90),
        max_size: Some(30),
    };
    let result = row(JustifyContent::FlexStart).layout(flex_area(400, 10), &[crossed]);
    assert_eq!(widths(&result), vec![30]);
    // no basis counts as zero
    let result = row(JustifyContent::FlexStart).layout(flex_area(400, 10), &[FlexItem::default()]);
    assert_eq!(widths(&result), vec![0]);
}

#[test]
fn test_space_between_gaps_are_equal_and_fill_the_line() {
    let items = vec![item(0, 1, Some(100)), item(0, 1, Some(50)), item(0, 1, Some(150)), item(0, 1, Some(100))];
    let result = row(JustifyContent::SpaceBetween).layout(flex_area(1000, 10), &items);
    assert_eq!(xs(&result), vec![0, 300, 550, 900]);
    let gaps: Vec<i64> = (1..4)
        .map(|i| result[i].content.x - (result[i - 1].content.x + result[i - 1].content.width))
        .collect();
    assert_eq!(gaps, vec![200, 200, 200]);
    assert_eq!(gaps.iter().sum::<i64>(), 600);
    assert_eq!(result[3].content.x + result[3].content.width, 1000);
    // one item: no gap
    let result = row(JustifyContent::SpaceBetween).layout(flex_area(1000, 10), &items[..1]);
    assert_eq!(xs(&result), vec![0]);
    // a free space that does not divide evenly: the gaps round down
    let result = row(JustifyContent::SpaceBetween).layout(flex_area(401, 10), &items);
    assert_eq!(xs(&result), vec![0, 100, 150, 300]);
}

#[test]
fn test_space_evenly_and_space_around_gaps() {
    let items = vec![item(0, 1, Some(100)), item(0, 1, Some(100)), item(0, 1, Some(100))];
    let evenly = row(JustifyContent::SpaceEvenly).layout(flex_area(700, 10), &items);
    // four gaps of 100
    assert_eq!(xs(&evenly), vec![100, 300, 500]);
    assert_eq!(700 - (evenly[2].content.x + evenly[2].content.width), 100);
    let around = row(JustifyContent::SpaceAround).layout(flex_area(900, 10), &items);
    // gaps of 200 between the items, half of that at both ends
    assert_eq!(xs(&around), vec![100, 400, 700]);
    assert_eq!(900 - (around[2].content.x + around[2].content.width), 100);
}

#[test]
fn test_justify_with_negative_free_space() {
    let items = vec![item(0, 0, Some(300)), item(0, 0, Some(300))];
    let end = row(JustifyContent::FlexEnd).layout(flex_area(500, 10), &items);
    assert_eq!(xs(&end), vec![-100, 200]);
    let center = row(JustifyContent::Center).layout(flex_area(501, 10), &items);
    // half of -99, rounded down
    assert_eq!(xs(&center), vec![-50, 250]);
    let between = row(JustifyContent::SpaceBetween).layout(flex_area(500, 10), &items);
    assert_eq!(xs(&between), vec![0, 200]);
}

#[test]
fn test_reverse_mirrors_positions() {
    let items = vec![item(0, 1, Some(100)), item(0, 1, Some(150))];
    let mut container = row(JustifyContent::FlexStart);
    container.direction = FlexDirection::RowReverse;
    let result = container.layout(flex_area(800, 600), &items);
    assert_eq!(xs(&result), vec![700, 550]);
    container.direction = FlexDirection::ColumnReverse;
    container.justify_content = JustifyContent::FlexEnd;
    let result = container.layout(flex_area(800, 600), &items);
    let ys: Vec<i64> = result.iter().map(|d| d.content.y).collect();
    // packed at the end of the axis, which is the top when reversed
    assert_eq!(ys, vec![150, 0]);
    assert_eq!(result[0].content.height, 100);
    assert_eq!(result[0].content.width, 800);
}

#[test]
fn test_wrap_breaks_lines_greedily() {
    let mut container = row(JustifyContent::FlexStart);
    container.wrap = FlexWrap::Wrap;
    let items = vec![
        item(0, 1, Some(300)),
        item(1, 1, Some(200)),
        item(0, 1, Some(900)),
        item(0, 0, Some(100)),
        item(0, 0, Some(400)),
    ];
    let result = container.layout(flex_area(500, 600), &items);
    // lines: [0, 1], [2], [3, 4]; an item wider than the container has a line of its own
    let ys: Vec<i64> = result.iter().map(|d| d.content.y).collect();
    assert_eq!(ys, vec![0, 0, 200, 400, 400]);
    assert_eq!(widths(&result), vec![300, 200, 500, 100, 400]);
    assert_eq!(xs(&result), vec![0, 300, 0, 0, 100]);
    assert!(result.iter().all(|d| d.content.height == 200));
    container.wrap = FlexWrap::WrapReverse;
    let reversed = container.layout(flex_area(500, 600), &items);
    assert_eq!(reversed, result);
}

#[test]
fn test_cross_axis_alignment() {
    let items = vec![item(0, 1, Some(100))];
    let mut container = row(JustifyContent::FlexStart);
    let stretch = container.layout(flex_area(800, 601), &items);
    assert_eq!((stretch[0].content.y, stretch[0].content.height), (0, 601));
    container.align_items = AlignItems::FlexEnd;
    let end = container.layout(flex_area(800, 601), &items);
    assert_eq!((end[0].content.y, end[0].content.height), (601, 0));
    container.align_items = AlignItems::Center;
    let center = container.layout(flex_area(800, 601), &items);
    assert_eq!((center[0].content.y, center[0].content.height), (300, 0));
    container.align_items = AlignItems::Baseline;
    let baseline = container.layout(flex_area(800, 601), &items);
    assert_eq!((baseline[0].content.y, baseline[0].content.height), (0, 0));
    container.align_items = AlignItems::Stretch;
    let flat = container.layout(flex_area(800, -5), &items);
    assert_eq!((flat[0].content.y, flat[0].content.height), (0, 0));
    container.direction = FlexDirection::Column;
    let column = container.layout(flex_area(800, 600), &items);
    assert_eq!((column[0].content.x, column[0].content.width), (0, 800));
    assert_eq!((column[0].content.y, column[0].content.height), (0, 100));
}

#[test]
fn test_layout_is_repeatable() {
    let items = vec![item(1, 1, Some(100)), item(2, 3, Some(250)), item(0, 1, None)];
    let container = row(JustifyContent::SpaceAround);
    let first = container.layout(flex_area(640, 480), &items);
    let second = container.layout(flex_area(640, 480), &items);
    assert_eq!(first, second);
}

#[test]
fn test_empty_container() {
    let flex_container = FlexContainer::default();
    let items: Vec<FlexItem> = vec![];
    let container_dims = flex_area(800, 600);

    let result = flex_container.layout(container_dims, &items);
    assert_eq!(result.len(), 0);
}
