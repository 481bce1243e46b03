// How far the content of a window is scrolled.

use browser_engine::window::scroll::ScrollState;

#[test]
fn test_scroll_state_default() {
    let state = ScrollState::default();
    assert_eq!(state.offset_x, 0);
    assert_eq!(state.offset_y, 0);
}

#[test]
fn test_scroll_clamping() {
    let mut state = ScrollState::new(800, 600);
    state.set_content_size(1000, 1200);

    // Can scroll vertically
    assert!(state.can_scroll_y());

    // Scroll beyond max
    state.scroll_to(0, 1000);
    assert_eq!(state.offset_y, 600); // Clamped to max (1200 - 600)

    // Scroll negative
    state.scroll_to(0, -100);
    assert_eq!(state.offset_y, 0); // Clamped to min
}

#[test]
fn test_scroll_by() {
    let mut state = ScrollState::new(800, 600);
    state.set_content_size(800, 1200);

    state.scroll_by(0, 100);
    assert_eq!(state.offset_y, 100);

    state.scroll_by(0, -50);
    assert_eq!(state.offset_y, 50);
}

#[test]
fn test_apply_offset() {
    let mut state = ScrollState::default();
    state.offset_y = 100;

    let (x, y) = state.apply_offset(50, 200);
    assert_eq!(x, 50);
    assert_eq!(y, 100); // 200 - 100 offset
}

#[test]
fn test_content_that_fits_cannot_be_scrolled() {
    let mut state = ScrollState::new(800, 600);
    state.set_content_size(800, 500);
    assert!(!state.can_scroll_x());
    assert!(!state.can_scroll_y());
    state.scroll_to(50, 50);
    assert_eq!((state.offset_x, state.offset_y), (0, 0));
    state.scroll_by(i64::from(7), 9);
    assert_eq!((state.offset_x, state.offset_y), (0, 0));
}

#[test]
fn test_resizing_clamps_the_offsets_again() {
    let mut state = ScrollState::new(100, 100);
    state.set_content_size(300, 400);
    state.scroll_to(200, 300);
    assert_eq!((state.offset_x, state.offset_y), (200, 300));
    state.set_viewport_size(250, 150);
    assert_eq!((state.offset_x, state.offset_y), (50, 250));
    state.set_content_size(260, 100);
    assert_eq!((state.offset_x, state.offset_y), (10, 0));
    assert!(state.can_scroll_x());
    assert_eq!(state.apply_offset(0, 0), (-10, 0));
}

#[test]
fn test_scroll_percentage_in_thousandths() {
    let mut state = ScrollState::default();
    state.content_height = 1000;
    state.viewport_height = 400;
    state.offset_y = 0;
    assert_eq!(state.scroll_percentage_y(), 0);
    state.offset_y = 150;
    assert_eq!(state.scroll_percentage_y(), 250);
    state.offset_y = 600;
    assert_eq!(state.scroll_percentage_y(), 1000);
    // A third, rounded down.
    state.offset_y = 200;
    assert_eq!(state.scroll_percentage_y(), 333);
    // An offset that was not clamped.
    state.offset_y = -1;
    assert_eq!(state.scroll_percentage_y(), -2);
    // Content that fits cannot be scrolled.
    state.viewport_height = 1000;
    state.offset_y = 50;
    assert_eq!(state.scroll_percentage_y(), 0);
}
