// The document and the listeners as the page's scripts reach them.

use browser_engine::dom::{AttrMap, Node};
use browser_engine::js::dom_bindings::DomBindings;
use browser_engine::js::event_handler::EventType;
use browser_engine::js::{JsContext, JsError};

fn document() -> Node {
    let mut attributes = AttrMap::new();
    attributes.insert("id".to_string(), "main".to_string());
    Node::element(
        "div".to_string(),
        AttrMap::new(),
        vec![Node::element("p".to_string(), attributes, vec![Node::text("x".to_string())])],
    )
}

#[test]
fn test_dom_bindings_creation() {
    let bindings = DomBindings::new();
    assert!(bindings.dom_tree.is_none());
}

#[test]
fn test_dom_bindings_hand_nothing_out() {
    let mut bindings = DomBindings::default();
    assert!(bindings.get_element_by_id("main").is_none());
    bindings.bind_dom_tree(document());
    assert!(bindings.dom_tree.is_some());
    assert!(bindings.get_element_by_id("main").is_none());
    assert!(bindings.get_element_by_id("other").is_none());
    assert!(bindings.query_selector("#main").is_none());
    assert!(bindings.get_inner_html("main").is_none());
    assert_eq!(bindings.create_element("span"), Ok(()));
    assert_eq!(bindings.set_inner_html("main", "<b>y</b>"), Ok(()));
    assert_eq!(bindings.dom_tree.as_ref().unwrap().children.len(), 1);
}

#[test]
fn test_js_context_creation() {
    let ctx = JsContext::new();
    assert!(ctx.is_enabled());
}

#[test]
fn test_enable_disable() {
    let mut ctx = JsContext::new();
    ctx.set_enabled(false);
    assert!(!ctx.is_enabled());

    let result = ctx.check_enabled();
    assert!(result.is_err());
}

#[test]
fn test_js_context_keeps_listeners_and_document() {
    let mut ctx = JsContext::default();
    assert_eq!(ctx.check_enabled(), Ok(()));
    assert!(ctx.dom_bindings().dom_tree.is_none());
    ctx.bind_dom(document());
    assert!(ctx.dom_bindings().dom_tree.is_some());
    assert_eq!(ctx.add_event_listener(EventType::Click, "a()".to_string()), Ok(()));
    assert_eq!(ctx.add_event_listener(EventType::Load, "b()".to_string()), Ok(()));
    assert_eq!(ctx.add_event_listener(EventType::Click, "c()".to_string()), Ok(()));
    assert_eq!(ctx.handlers_to_run(EventType::Click), vec!["a()", "c()"]);
    assert_eq!(ctx.handlers_to_run(EventType::Load), vec!["b()"]);
    assert!(ctx.handlers_to_run(EventType::KeyDown).is_empty());
    ctx.set_enabled(false);
    assert_eq!(ctx.check_enabled(), Err(JsError::ExecutionDisabled));
    assert_eq!(ctx.handlers_to_run(EventType::Click).len(), 2);
    ctx.set_enabled(true);
    assert_eq!(ctx.check_enabled(), Ok(()));
}

#[test]
fn test_js_errors_say_what_failed() {
    assert_eq!(JsError::SyntaxError("x".to_string()).to_string(), "SyntaxError: x");
    assert_eq!(JsError::ReferenceError("y is not defined".to_string()).to_string(), "ReferenceError: y is not defined");
    assert_eq!(JsError::TypeError(String::new()).to_string(), "TypeError: ");
    assert_eq!(JsError::RuntimeError("z".to_string()).to_string(), "RuntimeError: z");
    assert_eq!(JsError::ExecutionDisabled.to_string(), "JavaScript execution is disabled");
}
