//! Event listeners, by event type.

use vstd::prelude::*;
use crate::js::JsError;
use crate::text::{lowercase, str_eq, to_lowercase, views};

verus! {

/// JavaScript event types
#[derive(Debug, Clone, Copy, PartialEq, Eq, Hash, Structural)]
pub enum EventType {
    Click,
    MouseDown,
    MouseUp,
    MouseMove,
    KeyDown,
    KeyUp,
    KeyPress,
    Load,
    DOMContentLoaded,
    Resize,
    Scroll,
}

/// The number of event types.
pub const EVENT_TYPE_COUNT: usize = 11;

/// The event type that a lower-case word names.
pub open spec fn event_type_of(word: Seq<char>) -> Option<EventType> {
    if word == "click"@ {
        Some(EventType::Click)
    } else if word == "mousedown"@ {
        Some(EventType::MouseDown)
    } else if word == "mouseup"@ {
        Some(EventType::MouseUp)
    } else if word == "mousemove"@ {
        Some(EventType::MouseMove)
    } else if word == "keydown"@ {
        Some(EventType::KeyDown)
    } else if word == "keyup"@ {
        Some(EventType::KeyUp)
    } else if word == "keypress"@ {
        Some(EventType::KeyPress)
    } else if word == "load"@ {
        Some(EventType::Load)
    } else if word == "domcontentloaded"@ {
        Some(EventType::DOMContentLoaded)
    } else if word == "resize"@ {
        Some(EventType::Resize)
    } else if word == "scroll"@ {
        Some(EventType::Scroll)
    } else {
        None
    }
}

impl EventType {
    /// The place of the event type among the event types.
    pub open spec fn index(self) -> int {
        match self {
            EventType::Click => 0,
            EventType::MouseDown => 1,
            EventType::MouseUp => 2,
            EventType::MouseMove => 3,
            EventType::KeyDown => 4,
            EventType::KeyUp => 5,
            EventType::KeyPress => 6,
            EventType::Load => 7,
            EventType::DOMContentLoaded => 8,
            EventType::Resize => 9,
            EventType::Scroll => 10,
        }
    }

    /// The name of the event type.
    pub open spec fn name(self) -> Seq<char> {
        match self {
            EventType::Click => "click"@,
            EventType::MouseDown => "mousedown"@,
            EventType::MouseUp => "mouseup"@,
            EventType::MouseMove => "mousemove"@,
            EventType::KeyDown => "keydown"@,
            EventType::KeyUp => "keyup"@,
            EventType::KeyPress => "keypress"@,
            EventType::Load => "load"@,
            EventType::DOMContentLoaded => "DOMContentLoaded"@,
            EventType::Resize => "resize"@,
            EventType::Scroll => "scroll"@,
        }
    }

    /// The place of the event type among the event types.
    fn slot(self) -> (i: usize)
        ensures
            i == self.index(),
            i < EVENT_TYPE_COUNT,
    {
        match self {
            EventType::Click => 0,
            EventType::MouseDown => 1,
            EventType::MouseUp => 2,
            EventType::MouseMove => 3,
            EventType::KeyDown => 4,
            EventType::KeyUp => 5,
            EventType::KeyPress => 6,
            EventType::Load => 7,
            EventType::DOMContentLoaded => 8,
            EventType::Resize => 9,
            EventType::Scroll => 10,
        }
    }

    /// Parse event type from string, whatever the case of its letters.
    pub fn from_str(s: &str) -> (event_type: Option<Self>)
        ensures
            event_type == event_type_of(lowercase(s@)),
    {
        let lower = to_lowercase(s);
        EventType::from_lowercase(lower.as_str())
    }

    /// The event type that a lower-case word names.
    pub fn from_lowercase(word: &str) -> (event_type: Option<Self>)
        ensures
            event_type == event_type_of(word@),
    {
        if str_eq(word, "click") {
            Some(EventType::Click)
        } else if str_eq(word, "mousedown") {
            Some(EventType::MouseDown)
        } else if str_eq(word, "mouseup") {
            Some(EventType::MouseUp)
        } else if str_eq(word, "mousemove") {
            Some(EventType::MouseMove)
        } else if str_eq(word, "keydown") {
            Some(EventType::KeyDown)
        } else if str_eq(word, "keyup") {
            Some(EventType::KeyUp)
        } else if str_eq(word, "keypress") {
            Some(EventType::KeyPress)
        } else if str_eq(word, "load") {
            Some(EventType::Load)
        } else if str_eq(word, "domcontentloaded") {
            Some(EventType::DOMContentLoaded)
        } else if str_eq(word, "resize") {
            Some(EventType::Resize)
        } else if str_eq(word, "scroll") {
            Some(EventType::Scroll)
        } else {
            None
        }
    }

    /// Convert to string
    pub fn as_str(&self) -> (name: &'static str)
        ensures
            name@ == self.name(),
    {
        match self {
            EventType::Click => "click",
            EventType::MouseDown => "mousedown",
            EventType::MouseUp => "mouseup",
            EventType::MouseMove => "mousemove",
            EventType::KeyDown => "keydown",
            EventType::KeyUp => "keyup",
            EventType::KeyPress => "keypress",
            EventType::Load => "load",
            EventType::DOMContentLoaded => "DOMContentLoaded",
            EventType::Resize => "resize",
            EventType::Scroll => "scroll",
        }
    }
}

/// The index of the first of the first `k` callbacks that is `callback`;
/// `k` where none of them is.
pub open spec fn first_callback(callbacks: Seq<Seq<char>>, callback: Seq<char>, k: int) -> int
    decreases k,
{
    if k <= 0 || k > callbacks.len() {
        0
    } else {
        let before = first_callback(callbacks, callback, k - 1);
        if before < k - 1 {
            before
        } else if callbacks[k - 1] == callback {
            k - 1
        } else {
            k
        }
    }
}

/// The first index of a callback lies among the callbacks exactly where
/// the callback is one of them.
pub proof fn lemma_first_callback(callbacks: Seq<Seq<char>>, callback: Seq<char>, k: int)
    requires
        0 <= k <= callbacks.len(),
    ensures
        0 <= first_callback(callbacks, callback, k) <= k,
        first_callback(callbacks, callback, k) < k ==> callbacks[first_callback(
            callbacks,
            callback,
            k,
        )] == callback,
        forall|j: int| 0 <= j < first_callback(callbacks, callback, k) ==> callbacks[j] != callback,
    decreases k,
{
    if k > 0 {
        lemma_first_callback(callbacks, callback, k - 1);
    }
}

/// Once a callback is found among the first `k`, it stays the first among
/// more of them.
pub proof fn lemma_first_callback_stays(
    callbacks: Seq<Seq<char>>,
    callback: Seq<char>,
    k: int,
    n: int,
)
    requires
        0 < k <= n <= callbacks.len(),
        first_callback(callbacks, callback, k) < k,
    ensures
        first_callback(callbacks, callback, n) == first_callback(callbacks, callback, k),
    decreases n - k,
{
    if k < n {
        lemma_first_callback_stays(callbacks, callback, k, n - 1);
    }
}

/// Event handler registry
pub struct EventHandler {
    /// Event listeners, one list for each event type
    listeners: Vec<Vec<String>>,
}

impl EventHandler {
    /// There is one list of listeners for each event type.
    pub closed spec fn wf(&self) -> bool {
        self.listeners@.len() == EVENT_TYPE_COUNT
    }

    /// The callbacks that listen for an event type, in the order in which
    /// they were added.
    pub closed spec fn handlers(&self, event_type: EventType) -> Seq<Seq<char>> {
        views(self.listeners@[event_type.index()]@)
    }

    /// Create a new event handler, without listeners.
    pub fn new() -> (handler: Self)
        ensures
            handler.wf(),
            forall|t: EventType| #[trigger] handler.handlers(t) == Seq::<Seq<char>>::empty(),
    {
        let mut listeners: Vec<Vec<String>> = Vec::new();
        let mut i: usize = 0;
        while i < EVENT_TYPE_COUNT
            invariant
                i <= EVENT_TYPE_COUNT,
                listeners@.len() == i,
                forall|j: int| 0 <= j < i ==> (#[trigger] listeners@[j])@.len() == 0,
            decreases EVENT_TYPE_COUNT - i,
        {
            listeners.push(Vec::new());
            i = i + 1;
        }
        let handler = EventHandler { listeners };
        assert forall|t: EventType| #[trigger]
            handler.handlers(t) == Seq::<Seq<char>>::empty() by {
            assert(handler.listeners@[t.index()]@.len() == 0);
            assert(handler.handlers(t) =~= Seq::<Seq<char>>::empty());
        }
        handler
    }

    /// Add an event listener, behind the listeners for the same event
    /// type.
    pub fn add_listener(&mut self, event_type: EventType, callback: String) -> (done: Result<
        (),
        JsError,
    >)
        requires
            old(self).wf(),
        ensures
            final(self).wf(),
            done.is_ok(),
            final(self).handlers(event_type) == old(self).handlers(event_type).push(callback@),
            forall|t: EventType|
                t != event_type ==> #[trigger] final(self).handlers(t) == old(self).handlers(t),
    {
        let slot = event_type.slot();
        self.listeners[slot].push(callback);
        proof {
            assert(self.handlers(event_type) =~= old(self).handlers(event_type).push(callback@));
            assert forall|t: EventType| t != event_type implies #[trigger] self.handlers(t) == old(self).handlers(t) by {
                assert(t.index() != event_type.index());
            }
        }
        Ok(())
    }

    /// Remove an event listener: the first listener for the event type with
    /// that callback. Says whether there was one.
    pub fn remove_listener(&mut self, event_type: EventType, callback: &str) -> (removed: bool)
        requires
            old(self).wf(),
        ensures
            final(self).wf(),
            removed == old(self).handlers(event_type).contains(callback@),
            final(self).handlers(event_type) == if removed {
                old(self).handlers(event_type).remove(
                    first_callback(
                        old(self).handlers(event_type),
                        callback@,
                        old(self).handlers(event_type).len() as int,
                    ),
                )
            } else {
                old(self).handlers(event_type)
            },
            forall|t: EventType|
                t != event_type ==> #[trigger] final(self).handlers(t) == old(self).handlers(t),
    {
        let slot = event_type.slot();
        let ghost given = self.handlers(event_type);
        let count = self.listeners[slot].len();
        let mut i: usize = 0;
        while i < count
            invariant
                self.wf(),
                self.listeners == old(self).listeners,
                slot == event_type.index(),
                count == self.listeners@[slot as int]@.len(),
                given == self.handlers(event_type),
                i <= count,
                first_callback(given, callback@, i as int) == i,
            decreases count - i,
        {
            if str_eq(self.listeners[slot][i].as_str(), callback) {
                proof {
                    lemma_first_callback_stays(given, callback@, i as int + 1, count as int);
                    assert(given[i as int] == callback@);
                }
                self.listeners[slot].remove(i);
                proof {
                    assert(self.handlers(event_type) =~= given.remove(i as int));
                    assert forall|t: EventType| t != event_type implies #[trigger] self.handlers(
                        t,
                    ) == old(self).handlers(t) by {
                        assert(t.index() != event_type.index());
                    }
                }
                return true;
            }
            i = i + 1;
        }
        proof {
            lemma_first_callback(given, callback@, count as int);
        }
        false
    }

    /// Get all handlers for an event type
    pub fn get_handlers(&self, event_type: &EventType) -> (callbacks: Vec<String>)
        requires
            self.wf(),
        ensures
            views(callbacks@) == self.handlers(*event_type),
    {
        let slot = event_type.slot();
        let mut callbacks: Vec<String> = Vec::new();
        let count = self.listeners[slot].len();
        let mut i: usize = 0;
        while i < count
            invariant
                self.wf(),
                slot == event_type.index(),
                count == self.listeners@[slot as int]@.len(),
                i <= count,
                callbacks@.len() == i,
                forall|j: int| 0 <= j < i ==> (#[trigger] callbacks@[j])@ == self.handlers(
                    *event_type,
                )[j],
            decreases count - i,
        {
            callbacks.push(self.listeners[slot][i].clone());
            i = i + 1;
        }
        assert(views(callbacks@) =~= self.handlers(*event_type));
        callbacks
    }

    /// Check if there are any listeners for an event type
    pub fn has_listeners(&self, event_type: &EventType) -> (any: bool)
        requires
            self.wf(),
        ensures
            any == (self.handlers(*event_type).len() > 0),
    {
        let slot = event_type.slot();
        self.listeners[slot].len() > 0
    }

    /// Clear all listeners
    pub fn clear_all(&mut self)
        requires
            old(self).wf(),
        ensures
            final(self).wf(),
            forall|t: EventType| #[trigger] final(self).handlers(t) == Seq::<Seq<char>>::empty(),
    {
        let mut i: usize = 0;
        while i < EVENT_TYPE_COUNT
            invariant
                self.wf(),
                i <= EVENT_TYPE_COUNT,
                forall|j: int| 0 <= j < i ==> (#[trigger] self.listeners@[j])@.len() == 0,
            decreases EVENT_TYPE_COUNT - i,
        {
            self.listeners[i].clear();
            i = i + 1;
        }
        assert forall|t: EventType| #[trigger] self.handlers(t) == Seq::<Seq<char>>::empty() by {
            assert(self.listeners@[t.index()]@.len() == 0);
            assert(self.handlers(t) =~= Seq::<Seq<char>>::empty());
        }
    }

    /// Clear listeners for a specific event type
    pub fn clear_event(&mut self, event_type: EventType)
        requires
            old(self).wf(),
        ensures
            final(self).wf(),
            final(self).handlers(event_type) == Seq::<Seq<char>>::empty(),
            forall|t: EventType|
                t != event_type ==> #[trigger] final(self).handlers(t) == old(self).handlers(t),
    {
        let slot = event_type.slot();
        self.listeners[slot].clear();
        proof {
            assert(self.handlers(event_type) =~= Seq::<Seq<char>>::empty());
            assert forall|t: EventType| t != event_type implies #[trigger] self.handlers(t) == old(self).handlers(t) by {
                assert(t.index() != event_type.index());
            }
        }
    }
}

impl Default for EventHandler {
    fn default() -> (handler: Self)
        ensures
            handler.wf(),
            forall|t: EventType| #[trigger] handler.handlers(t) == Seq::<Seq<char>>::empty(),
    {
        EventHandler::new()
    }
}

} // verus!
