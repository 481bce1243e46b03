// The browser chrome: address bar, input state and the bar as a whole.

use browser_engine::layout::Rect;
use browser_engine::ui::address_bar::AddressBar;
use browser_engine::ui::input_handler::{
    ElementState, InputHandler, KeyCode, MouseButton, PhysicalKey,
};
use browser_engine::ui::BrowserUI;

#[test]
fn test_ui_creation() {
    let ui = BrowserUI::new(800);
    assert_eq!(ui.chrome_height, 60);
    assert_eq!(ui.bounds.width, 800);
}

#[test]
fn test_content_viewport() {
    let ui = BrowserUI::new(800);
    let viewport = ui.content_viewport();
    assert_eq!(viewport.y, 60);
    assert_eq!(viewport.width, 800);
}

#[test]
fn mod_test_contains_point() {
    let ui = BrowserUI::new(800);
    assert!(ui.contains_point(100, 30)); // In chrome
    assert!(!ui.contains_point(100, 100)); // Below chrome
}

#[test]
fn test_ui_resize_leaves_room_for_the_buttons() {
    let mut ui = BrowserUI::new(800);
    assert!(ui.is_well_formed());
    assert_eq!(ui.bounds, Rect { x: 0, y: 0, width: 800, height: 60 });
    assert_eq!(ui.content_viewport(), Rect { x: 0, y: 60, width: 800, height: 0 });
    ui.resize(1024, 768);
    assert_eq!(ui.bounds, Rect { x: 0, y: 0, width: 1024, height: 768 });
    assert_eq!(ui.address_bar.bounds(), &Rect { x: 120, y: 10, width: 824, height: 40 });
    assert_eq!(ui.content_viewport(), Rect { x: 0, y: 60, width: 1024, height: 708 });
    assert!(ui.contains_point(5000, 59));
    assert!(!ui.contains_point(0, 60));
    assert!(ui.contains_point(0, -1));
    ui.chrome_height = i64::MAX;
    assert!(!ui.is_well_formed());
}

#[test]
fn test_address_bar_creation() {
    let bar = AddressBar::new();
    assert_eq!(bar.url(), "about:blank");
    assert!(!bar.is_focused());
    assert!(!bar.is_loading());
}

#[test]
fn test_url_operations() {
    let mut bar = AddressBar::new();
    bar.set_url("https://example.com".to_string());
    assert_eq!(bar.url(), "https://example.com");
}

#[test]
fn test_focus_operations() {
    let mut bar = AddressBar::new();
    bar.set_focused(true);
    assert!(bar.is_focused());

    bar.set_focused(false);
    assert!(!bar.is_focused());
}

#[test]
fn test_loading_progress() {
    let mut bar = AddressBar::new();
    bar.set_loading(true);
    assert!(bar.is_loading());

    bar.set_progress(500);
    assert_eq!(bar.progress(), 500);

    bar.set_loading(false);
    assert_eq!(bar.progress(), 0);
}

#[test]
fn test_progress_is_held_in_range() {
    let mut bar = AddressBar::default();
    assert_eq!(bar.progress(), 0);
    bar.set_progress(1001);
    assert_eq!(bar.progress(), 1000);
    bar.set_progress(-1);
    assert_eq!(bar.progress(), 0);
    bar.set_progress(1000);
    assert_eq!(bar.progress(), 1000);
    // Loading that goes on keeps the progress.
    bar.set_loading(true);
    assert_eq!(bar.progress(), 1000);
}

#[test]
fn test_input_handling() {
    let mut bar = AddressBar::new();
    bar.set_focused(true);
    bar.clear();

    bar.insert_char('h');
    bar.insert_char('i');
    assert_eq!(bar.url(), "hi");

    bar.backspace();
    assert_eq!(bar.url(), "h");
}

#[test]
fn test_typing_needs_the_focus() {
    let mut bar = AddressBar::new();
    bar.insert_char('x');
    bar.backspace();
    bar.clear();
    assert_eq!(bar.url(), "about:blank");
    bar.update_url("é".to_string());
    bar.set_focused(true);
    bar.insert_char('ü');
    assert_eq!(bar.url(), "éü");
    bar.backspace();
    bar.backspace();
    assert_eq!(bar.url(), "");
    bar.backspace();
    assert_eq!(bar.url(), "");
    assert!(bar.is_focused());
}

#[test]
fn address_bar_test_contains_point() {
    let bar = AddressBar::new();

    // Within bounds
    assert!(bar.contains_point(300, 30));

    // Outside bounds
    assert!(!bar.contains_point(50, 30));
}

#[test]
fn test_address_bar_edges_belong_to_it() {
    let mut bar = AddressBar::new();
    assert_eq!(bar.bounds(), &Rect { x: 120, y: 10, width: 560, height: 40 });
    assert!(bar.contains_point(120, 10));
    assert!(bar.contains_point(680, 50));
    assert!(!bar.contains_point(681, 50));
    assert!(!bar.contains_point(680, 51));
    assert!(!bar.contains_point(119, 10));
    assert!(!bar.contains_point(120, 9));
    bar.set_width(i64::MAX);
    assert!(bar.contains_point(i64::MAX, 20));
    bar.set_width(-1);
    assert!(!bar.contains_point(120, 20));
}

#[test]
fn test_input_handler_creation() {
    let handler = InputHandler::new();
    assert_eq!(handler.mouse_position(), (0, 0));
    assert!(!handler.is_left_button_down());
}

#[test]
fn test_mouse_position() {
    let mut handler = InputHandler::new();
    handler.update_mouse_position(100, 200);
    assert_eq!(handler.mouse_position(), (100, 200));
}

#[test]
fn test_mouse_button() {
    let mut handler = InputHandler::new();

    handler.handle_mouse_button(MouseButton::Left, ElementState::Pressed);
    assert!(handler.is_left_button_down());

    handler.handle_mouse_button(MouseButton::Left, ElementState::Released);
    assert!(!handler.is_left_button_down());
}

#[test]
fn test_other_buttons_are_not_followed() {
    let mut handler = InputHandler::default();
    handler.handle_mouse_button(MouseButton::Right, ElementState::Pressed);
    handler.handle_mouse_button(MouseButton::Other(7), ElementState::Pressed);
    assert!(!handler.is_left_button_down());
    handler.handle_mouse_button(MouseButton::Left, ElementState::Pressed);
    handler.handle_mouse_button(MouseButton::Middle, ElementState::Released);
    assert!(handler.is_left_button_down());
}

#[test]
fn test_modifier_keys() {
    let mut handler = InputHandler::new();

    handler.handle_keyboard(PhysicalKey::Code(KeyCode::ShiftLeft), ElementState::Pressed);
    assert!(handler.is_shift_pressed());

    handler.handle_keyboard(PhysicalKey::Code(KeyCode::ControlLeft), ElementState::Pressed);
    assert!(handler.is_ctrl_pressed());

    handler.handle_keyboard(PhysicalKey::Code(KeyCode::AltLeft), ElementState::Pressed);
    assert!(handler.is_alt_pressed());
}

#[test]
fn test_each_modifier_follows_either_of_its_keys() {
    let mut handler = InputHandler::new();
    handler.handle_keyboard(PhysicalKey::Code(KeyCode::ShiftRight), ElementState::Pressed);
    handler.handle_keyboard(PhysicalKey::Code(KeyCode::AltRight), ElementState::Pressed);
    assert!(handler.is_shift_pressed());
    assert!(!handler.is_ctrl_pressed());
    assert!(handler.is_alt_pressed());
    handler.handle_keyboard(PhysicalKey::Code(KeyCode::ShiftLeft), ElementState::Released);
    handler.handle_keyboard(PhysicalKey::Code(KeyCode::ControlRight), ElementState::Pressed);
    handler.handle_keyboard(PhysicalKey::Code(KeyCode::Other), ElementState::Released);
    handler.handle_keyboard(PhysicalKey::Unidentified, ElementState::Released);
    assert!(!handler.is_shift_pressed());
    assert!(handler.is_ctrl_pressed());
    assert!(handler.is_alt_pressed());
}

#[test]
fn test_reset() {
    let mut handler = InputHandler::new();

    handler.handle_mouse_button(MouseButton::Left, ElementState::Pressed);
    handler.handle_keyboard(PhysicalKey::Code(KeyCode::ShiftLeft), ElementState::Pressed);
    handler.update_mouse_position(3, 4);

    handler.reset();

    assert!(!handler.is_left_button_down());
    assert!(!handler.is_shift_pressed());
    assert_eq!(handler.mouse_position(), (3, 4));
}
