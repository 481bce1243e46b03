//! The history of a tab and the navigation buttons (back, forward,
//! refresh).

use vstd::prelude::*;
use crate::layout::Rect;
use crate::text::views;

verus! {

/// Navigation state (history)
pub struct NavigationState {
    /// URL history
    history: Vec<String>,
    /// Current position in history
    current_index: usize,
}

/// A history as a mathematical value: the URLs that were visited, oldest
/// first, and the place of the current one among them.
pub struct HistoryView {
    pub urls: Seq<Seq<char>>,
    pub current: int,
}

impl View for NavigationState {
    type V = HistoryView;

    closed spec fn view(&self) -> HistoryView {
        HistoryView { urls: views(self.history@), current: self.current_index as int }
    }
}

impl NavigationState {
    /// The current place lies in the history.
    pub open spec fn wf(&self) -> bool {
        0 <= self@.current < self@.urls.len()
    }

    /// Create new navigation state, at a blank page.
    pub fn new() -> (state: Self)
        ensures
            state.wf(),
            state@.urls == seq!["about:blank"@],
            state@.current == 0,
    {
        let mut history: Vec<String> = Vec::new();
        history.push(String::from_str("about:blank"));
        let state = NavigationState { history, current_index: 0 };
        assert(state@.urls =~= seq!["about:blank"@]);
        state
    }

    /// Navigate to a new URL. The URLs behind the current one are
    /// forgotten, and the new URL becomes the last and the current one.
    pub fn navigate(&mut self, url: String)
        requires
            old(self).wf(),
        ensures
            final(self).wf(),
            final(self)@.urls == old(self)@.urls.subrange(0, old(self)@.current + 1).push(url@),
            final(self)@.current == old(self)@.current + 1,
    {
        let count = self.history.len();
        assert(self.current_index < count);
        self.history.truncate(self.current_index + 1);
        self.history.push(url);
        self.current_index = self.current_index + 1;
        assert(self@.urls =~= old(self)@.urls.subrange(0, old(self)@.current + 1).push(url@));
    }

    /// Go back in history, and give the URL that is then the current one.
    /// None at the first URL.
    pub fn go_back(&mut self) -> (url: Option<String>)
        requires
            old(self).wf(),
        ensures
            final(self).wf(),
            final(self)@.urls == old(self)@.urls,
            match url {
                Some(u) => old(self)@.current > 0 && final(self)@.current == old(self)@.current - 1
                    && u@ == old(self)@.urls[old(self)@.current - 1],
                None => old(self)@.current == 0 && final(self)@.current == 0,
            },
    {
        if self.can_go_back() {
            self.current_index = self.current_index - 1;
            Some(String::from_str(self.current_url()))
        } else {
            None
        }
    }

    /// Go forward in history, and give the URL that is then the current
    /// one. None at the last URL.
    pub fn go_forward(&mut self) -> (url: Option<String>)
        requires
            old(self).wf(),
        ensures
            final(self).wf(),
            final(self)@.urls == old(self)@.urls,
            match url {
                Some(u) => old(self)@.current + 1 < old(self)@.urls.len() && final(self)@.current
                    == old(self)@.current + 1 && u@ == old(self)@.urls[old(self)@.current + 1],
                None => old(self)@.current + 1 == old(self)@.urls.len() && final(self)@.current
                    == old(self)@.current,
            },
    {
        if self.can_go_forward() {
            let count = self.history.len();
            assert(self.current_index < count);
            self.current_index = self.current_index + 1;
            Some(String::from_str(self.current_url()))
        } else {
            None
        }
    }

    /// Check if can go back
    pub fn can_go_back(&self) -> (can: bool)
        ensures
            can == (self@.current > 0),
    {
        self.current_index > 0
    }

    /// Check if can go forward
    pub fn can_go_forward(&self) -> (can: bool)
        requires
            self.wf(),
        ensures
            can == (self@.current + 1 < self@.urls.len()),
    {
        self.current_index < self.history.len() - 1
    }

    /// Get current URL
    pub fn current_url(&self) -> (url: &str)
        requires
            self.wf(),
        ensures
            url@ == self@.urls[self@.current],
    {
        self.history[self.current_index].as_str()
    }
}

impl Default for NavigationState {
    fn default() -> (state: Self)
        ensures
            state.wf(),
            state@.urls == seq!["about:blank"@],
            state@.current == 0,
    {
        NavigationState::new()
    }
}

/// Navigation button type
#[derive(Debug, Clone, Copy, PartialEq, Eq, Structural)]
pub enum NavButton {
    Back,
    Forward,
    Refresh,
}

/// The bounds of a button: 30 by 30, 15 from the top, the back button 10
/// from the left, the forward button 50, the refresh button 90.
pub open spec fn bounds_of(button: NavButton) -> Rect {
    match button {
        NavButton::Back => Rect { x: 10, y: 15, width: 30, height: 30 },
        NavButton::Forward => Rect { x: 50, y: 15, width: 30, height: 30 },
        NavButton::Refresh => Rect { x: 90, y: 15, width: 30, height: 30 },
    }
}

/// Whether a point lies in a rectangle, the edges included.
pub open spec fn holds_point(rect: Rect, x: i64, y: i64) -> bool {
    x >= rect.x && x <= rect.x + rect.width && y >= rect.y && y <= rect.y + rect.height
}

/// The button at a point: the first of back, forward and refresh whose
/// bounds hold the point.
pub open spec fn button_at(x: i64, y: i64) -> Option<NavButton> {
    if holds_point(bounds_of(NavButton::Back), x, y) {
        Some(NavButton::Back)
    } else if holds_point(bounds_of(NavButton::Forward), x, y) {
        Some(NavButton::Forward)
    } else if holds_point(bounds_of(NavButton::Refresh), x, y) {
        Some(NavButton::Refresh)
    } else {
        None
    }
}

/// Navigation buttons UI component
pub struct NavigationButtons {
    /// Back button bounds
    back_bounds: Rect,
    /// Forward button bounds
    forward_bounds: Rect,
    /// Refresh button bounds
    refresh_bounds: Rect,
    /// Currently hovered button
    hovered: Option<NavButton>,
}

impl NavigationButtons {
    /// The button that the pointer is over.
    pub closed spec fn spec_hovered(&self) -> Option<NavButton> {
        self.hovered
    }

    /// The buttons have their bounds.
    pub closed spec fn wf(&self) -> bool {
        &&& self.back_bounds == bounds_of(NavButton::Back)
        &&& self.forward_bounds == bounds_of(NavButton::Forward)
        &&& self.refresh_bounds == bounds_of(NavButton::Refresh)
    }

    /// Create new navigation buttons, none of them hovered.
    pub fn new() -> (buttons: Self)
        ensures
            buttons.wf(),
            buttons.spec_hovered().is_none(),
    {
        NavigationButtons {
            back_bounds: Rect { x: 10, y: 15, width: 30, height: 30 },
            forward_bounds: Rect { x: 50, y: 15, width: 30, height: 30 },
            refresh_bounds: Rect { x: 90, y: 15, width: 30, height: 30 },
            hovered: None,
        }
    }

    /// Get bounds for a button
    pub fn button_bounds(&self, button: NavButton) -> (bounds: &Rect)
        requires
            self.wf(),
        ensures
            *bounds == bounds_of(button),
    {
        match button {
            NavButton::Back => &self.back_bounds,
            NavButton::Forward => &self.forward_bounds,
            NavButton::Refresh => &self.refresh_bounds,
        }
    }

    /// Check which button contains a point. That button is then the
    /// hovered one.
    pub fn hit_test(&mut self, x: i64, y: i64) -> (hit: Option<NavButton>)
        requires
            old(self).wf(),
        ensures
            final(self).wf(),
            hit == button_at(x, y),
            final(self).spec_hovered() == hit,
    {
        if contains(&self.back_bounds, x, y) {
            self.hovered = Some(NavButton::Back);
            Some(NavButton::Back)
        } else if contains(&self.forward_bounds, x, y) {
            self.hovered = Some(NavButton::Forward);
            Some(NavButton::Forward)
        } else if contains(&self.refresh_bounds, x, y) {
            self.hovered = Some(NavButton::Refresh);
            Some(NavButton::Refresh)
        } else {
            self.hovered = None;
            None
        }
    }

    /// Get currently hovered button
    pub fn hovered(&self) -> (button: Option<NavButton>)
        ensures
            button == self.spec_hovered(),
    {
        self.hovered
    }

    /// Clear hover state
    pub fn clear_hover(&mut self)
        ensures
            final(self).spec_hovered().is_none(),
            old(self).wf() ==> final(self).wf(),
    {
        self.hovered = None;
    }
}

impl Default for NavigationButtons {
    fn default() -> (buttons: Self)
        ensures
            buttons.wf(),
            buttons.spec_hovered().is_none(),
    {
        NavigationButtons::new()
    }
}

/// Whether a point lies in a rectangle, the edges included.
fn contains(rect: &Rect, x: i64, y: i64) -> (inside: bool)
    requires
        rect.bounded(),
    ensures
        inside == holds_point(*rect, x, y),
{
    x >= rect.x && x <= rect.x + rect.width && y >= rect.y && y <= rect.y + rect.height
}

} // verus!
