// Event listeners, by event type.

use browser_engine::js::event_handler::{EventHandler, EventType};

#[test]
fn test_event_type_from_str() {
    assert_eq!(EventType::from_str("click"), Some(EventType::Click));
    assert_eq!(EventType::from_str("keydown"), Some(EventType::KeyDown));
    assert_eq!(EventType::from_str("invalid"), None);
}

#[test]
fn test_event_handler_creation() {
    let handler = EventHandler::new();
    assert!(!handler.has_listeners(&EventType::Click));
}

#[test]
fn test_add_listener() {
    let mut handler = EventHandler::new();
    handler
        .add_listener(EventType::Click, "console.log('clicked')".to_string())
        .unwrap();
    assert!(handler.has_listeners(&EventType::Click));
}

#[test]
fn test_get_handlers() {
    let mut handler = EventHandler::new();
    handler
        .add_listener(EventType::Click, "handler1()".to_string())
        .unwrap();
    handler
        .add_listener(EventType::Click, "handler2()".to_string())
        .unwrap();

    let handlers = handler.get_handlers(&EventType::Click);
    assert_eq!(handlers.len(), 2);
}

#[test]
fn test_remove_listener() {
    let mut handler = EventHandler::new();
    handler
        .add_listener(EventType::Click, "handler()".to_string())
        .unwrap();

    assert!(handler.remove_listener(EventType::Click, "handler()"));
    assert!(!handler.has_listeners(&EventType::Click));
}

#[test]
fn test_clear_all() {
    let mut handler = EventHandler::new();
    handler
        .add_listener(EventType::Click, "handler()".to_string())
        .unwrap();
    handler
        .add_listener(EventType::KeyDown, "handler()".to_string())
        .unwrap();

    handler.clear_all();
    assert!(!handler.has_listeners(&EventType::Click));
    assert!(!handler.has_listeners(&EventType::KeyDown));
}

#[test]
fn test_event_type_names() {
    let types = [
        (EventType::Click, "click"),
        (EventType::MouseDown, "mousedown"),
        (EventType::MouseUp, "mouseup"),
        (EventType::MouseMove, "mousemove"),
        (EventType::KeyDown, "keydown"),
        (EventType::KeyUp, "keyup"),
        (EventType::KeyPress, "keypress"),
        (EventType::Load, "load"),
        (EventType::DOMContentLoaded, "DOMContentLoaded"),
        (EventType::Resize, "resize"),
        (EventType::Scroll, "scroll"),
    ];
    for (event_type, name) in types {
        assert_eq!(event_type.as_str(), name);
        assert_eq!(EventType::from_str(name), Some(event_type));
        assert_eq!(EventType::from_str(&name.to_uppercase()), Some(event_type));
    }
    assert_eq!(EventType::from_lowercase("Click"), None);
    assert_eq!(EventType::from_str(""), None);
}

#[test]
fn test_listeners_keep_their_order_and_their_type() {
    let mut handler = EventHandler::default();
    for callback in ["a()", "b()", "a()", "c()"] {
        handler.add_listener(EventType::Scroll, callback.to_string()).unwrap();
    }
    handler.add_listener(EventType::Load, "a()".to_string()).unwrap();
    assert!(handler.remove_listener(EventType::Scroll, "a()"));
    assert_eq!(handler.get_handlers(&EventType::Scroll), vec!["b()", "a()", "c()"]);
    assert!(!handler.remove_listener(EventType::Scroll, "d()"));
    assert!(!handler.remove_listener(EventType::Resize, "a()"));
    assert_eq!(handler.get_handlers(&EventType::Load), vec!["a()"]);
    assert_eq!(handler.get_handlers(&EventType::Click), Vec::<String>::new());
    handler.clear_event(EventType::Scroll);
    assert!(!handler.has_listeners(&EventType::Scroll));
    assert!(handler.has_listeners(&EventType::Load));
}
