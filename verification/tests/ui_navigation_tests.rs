// The history of a tab and the navigation buttons.

use browser_engine::layout::Rect;
use browser_engine::ui::navigation::{NavButton, NavigationButtons, NavigationState};

#[test]
fn test_navigation_state() {
    let mut nav = NavigationState::new();
    assert_eq!(nav.current_url(), "about:blank");
    assert!(!nav.can_go_back());
    assert!(!nav.can_go_forward());
}

#[test]
fn test_navigate_forward() {
    let mut nav = NavigationState::new();
    nav.navigate("https://example.com".to_string());
    assert_eq!(nav.current_url(), "https://example.com");
    assert!(nav.can_go_back());
}

#[test]
fn test_go_back() {
    let mut nav = NavigationState::new();
    nav.navigate("https://example.com".to_string());
    nav.navigate("https://example.org".to_string());

    let url = nav.go_back();
    assert_eq!(url, Some("https://example.com".to_string()));
    assert_eq!(nav.current_url(), "https://example.com");
}

#[test]
fn test_go_forward() {
    let mut nav = NavigationState::new();
    nav.navigate("https://example.com".to_string());
    nav.navigate("https://example.org".to_string());
    nav.go_back();

    let url = nav.go_forward();
    assert_eq!(url, Some("https://example.org".to_string()));
    assert_eq!(nav.current_url(), "https://example.org");
}

#[test]
fn test_navigation_buttons() {
    let mut buttons = NavigationButtons::new();

    // Test back button hit
    let hit = buttons.hit_test(20, 25);
    assert_eq!(hit, Some(NavButton::Back));
    assert_eq!(buttons.hovered(), Some(NavButton::Back));

    // Test forward button hit
    let hit = buttons.hit_test(60, 25);
    assert_eq!(hit, Some(NavButton::Forward));

    // Test miss
    let hit = buttons.hit_test(500, 25);
    assert_eq!(hit, None);
}

#[test]
fn test_navigating_forgets_the_way_forward() {
    let mut nav = NavigationState::default();
    nav.navigate("a".to_string());
    nav.navigate("b".to_string());
    nav.navigate("c".to_string());
    assert_eq!(nav.go_back(), Some("b".to_string()));
    assert_eq!(nav.go_back(), Some("a".to_string()));
    nav.navigate("d".to_string());
    assert!(!nav.can_go_forward());
    assert_eq!(nav.go_forward(), None);
    assert_eq!(nav.current_url(), "d");
    assert_eq!(nav.go_back(), Some("a".to_string()));
    assert_eq!(nav.go_back(), Some("about:blank".to_string()));
    assert_eq!(nav.go_back(), None);
    assert_eq!(nav.current_url(), "about:blank");
    assert_eq!(nav.go_forward(), Some("a".to_string()));
    assert_eq!(nav.go_forward(), Some("d".to_string()));
}

#[test]
fn test_button_bounds_include_their_edges() {
    let mut buttons = NavigationButtons::default();
    assert_eq!(*buttons.button_bounds(NavButton::Back), Rect { x: 10, y: 15, width: 30, height: 30 });
    assert_eq!(*buttons.button_bounds(NavButton::Forward), Rect { x: 50, y: 15, width: 30, height: 30 });
    assert_eq!(*buttons.button_bounds(NavButton::Refresh), Rect { x: 90, y: 15, width: 30, height: 30 });
    assert_eq!(buttons.hit_test(10, 15), Some(NavButton::Back));
    assert_eq!(buttons.hit_test(40, 45), Some(NavButton::Back));
    assert_eq!(buttons.hit_test(41, 45), None);
    assert_eq!(buttons.hovered(), None);
    assert_eq!(buttons.hit_test(120, 45), Some(NavButton::Refresh));
    assert_eq!(buttons.hit_test(120, 46), None);
    assert_eq!(buttons.hit_test(9, 20), None);
    assert_eq!(buttons.hit_test(i64::MIN, i64::MAX), None);
    buttons.hit_test(95, 20);
    assert_eq!(buttons.hovered(), Some(NavButton::Refresh));
    buttons.clear_hover();
    assert_eq!(buttons.hovered(), None);
}
