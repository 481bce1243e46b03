//! What the page's scripts see: the document, event listeners and errors.
//! Running a script is left to the caller.

use vstd::prelude::*;
use crate::dom::Node;
use crate::js::dom_bindings::DomBindings;
use crate::js::event_handler::{EventHandler, EventType};
use crate::text::views;

pub mod dom_bindings;
pub mod event_handler;

verus! {

/// JavaScript error types
#[derive(Debug, Clone, PartialEq, Eq)]
pub enum JsError {
    SyntaxError(String),
    ReferenceError(String),
    TypeError(String),
    RuntimeError(String),
    ExecutionDisabled,
}

impl JsError {
    /// The text of the error: its kind, and behind a colon its message
    /// where it has one.
    pub fn to_string(&self) -> (text: String)
        ensures
            text@ == match *self {
                JsError::SyntaxError(msg) => "SyntaxError: "@ + msg@,
                JsError::ReferenceError(msg) => "ReferenceError: "@ + msg@,
                JsError::TypeError(msg) => "TypeError: "@ + msg@,
                JsError::RuntimeError(msg) => "RuntimeError: "@ + msg@,
                JsError::ExecutionDisabled => "JavaScript execution is disabled"@,
            },
    {
        match self {
            JsError::SyntaxError(msg) => String::from_str("SyntaxError: ").concat(msg.as_str()),
            JsError::ReferenceError(msg) => String::from_str("ReferenceError: ").concat(
                msg.as_str(),
            ),
            JsError::TypeError(msg) => String::from_str("TypeError: ").concat(msg.as_str()),
            JsError::RuntimeError(msg) => String::from_str("RuntimeError: ").concat(msg.as_str()),
            JsError::ExecutionDisabled => String::from_str("JavaScript execution is disabled"),
        }
    }
}

/// JavaScript execution context for a page
pub struct JsContext {
    /// DOM bindings
    pub dom_bindings: DomBindings,
    /// Event handlers
    pub event_handler: EventHandler,
    /// Execution enabled
    pub enabled: bool,
}

impl JsContext {
    /// Whether the context's event handlers are in order.
    pub open spec fn wf(&self) -> bool {
        self.event_handler.wf()
    }

    /// Create a new JavaScript context: execution is enabled, no tree is
    /// bound and nothing listens.
    pub fn new() -> (context: Self)
        ensures
            context.wf(),
            context.enabled,
            context.dom_bindings.dom_tree.is_none(),
            forall|t: EventType|
                #[trigger] context.event_handler.handlers(t) == Seq::<Seq<char>>::empty(),
    {
        JsContext {
            dom_bindings: DomBindings::new(),
            event_handler: EventHandler::new(),
            enabled: true,
        }
    }

    /// Whether code may be executed: an error where execution is
    /// disabled.
    pub fn check_enabled(&self) -> (allowed: Result<(), JsError>)
        ensures
            self.enabled ==> allowed.is_ok(),
            !self.enabled ==> allowed == Err::<(), JsError>(JsError::ExecutionDisabled),
    {
        if !self.enabled {
            return Err(JsError::ExecutionDisabled);
        }
        Ok(())
    }

    /// Bind a DOM tree to the JavaScript context
    pub fn bind_dom(&mut self, dom: Node)
        ensures
            final(self).dom_bindings.dom_tree == Some(dom),
            final(self).event_handler == old(self).event_handler,
            final(self).enabled == old(self).enabled,
    {
        self.dom_bindings.bind_dom_tree(dom);
    }

    /// Register an event listener, behind the listeners for the same
    /// event type.
    pub fn add_event_listener(&mut self, event_type: EventType, callback: String) -> (done: Result<
        (),
        JsError,
    >)
        requires
            old(self).wf(),
        ensures
            final(self).wf(),
            done.is_ok(),
            final(self).enabled == old(self).enabled,
            final(self).dom_bindings == old(self).dom_bindings,
            final(self).event_handler.handlers(event_type) == old(self).event_handler.handlers(
                event_type,
            ).push(callback@),
            forall|t: EventType|
                t != event_type ==> #[trigger] final(self).event_handler.handlers(t) == old(self).event_handler.handlers(t),
    {
        self.event_handler.add_listener(event_type, callback)
    }

    /// The code to execute when an event is dispatched: the callbacks
    /// that listen for the event type, in the order in which they were
    /// added.
    pub fn handlers_to_run(&self, event_type: EventType) -> (handlers: Vec<String>)
        requires
            self.wf(),
        ensures
            views(handlers@) == self.event_handler.handlers(event_type),
    {
        self.event_handler.get_handlers(&event_type)
    }

    /// Enable or disable JavaScript execution
    pub fn set_enabled(&mut self, enabled: bool)
        ensures
            final(self).enabled == enabled,
            final(self).dom_bindings == old(self).dom_bindings,
            final(self).event_handler == old(self).event_handler,
    {
        self.enabled = enabled;
    }

    /// Check if JavaScript execution is enabled
    pub fn is_enabled(&self) -> (enabled: bool)
        ensures
            enabled == self.enabled,
    {
        self.enabled
    }

    /// Get a reference to the DOM bindings
    pub fn dom_bindings(&self) -> (bindings: &DomBindings)
        ensures
            *bindings == self.dom_bindings,
    {
        &self.dom_bindings
    }
}

impl Default for JsContext {
    fn default() -> (context: Self)
        ensures
            context.wf(),
            context.enabled,
            context.dom_bindings.dom_tree.is_none(),
    {
        JsContext::new()
    }
}

} // verus!
