//! Parts of the browser's own interface: the bar at the top of the
//! window with the address bar and the navigation buttons, and the state
//! of mouse and keyboard. Lengths are whole layout units.

use vstd::prelude::*;
use crate::layout::{in_range, Rect};
use crate::ui::address_bar::AddressBar;
use crate::ui::input_handler::InputHandler;
use crate::ui::navigation::NavigationButtons;

pub mod address_bar;
pub mod input_handler;
pub mod navigation;

verus! {

/// The height of the browser chrome.
pub const CHROME_HEIGHT: i64 = 60;

/// The room that the navigation buttons take beside the address bar.
pub const BUTTON_ROOM: i64 = 200;

/// Browser chrome UI containing address bar and navigation
pub struct BrowserUI {
    pub address_bar: AddressBar,
    pub navigation: NavigationButtons,
    pub input_handler: InputHandler,
    pub bounds: Rect,
    pub chrome_height: i64,
}

impl BrowserUI {
    /// Whether the bounds and the chrome height are lengths in range.
    pub open spec fn wf(&self) -> bool {
        self.bounds.bounded() && in_range(self.chrome_height)
    }

    /// Whether the bounds and the chrome height are lengths in range.
    pub fn is_well_formed(&self) -> (ok: bool)
        ensures
            ok == self.wf(),
    {
        crate::layout::rect_is_bounded(&self.bounds) && crate::layout::is_in_range(
            self.chrome_height,
        )
    }

    /// Create a new browser UI: the chrome is 60 high and lies at the
    /// top, as wide as the window.
    pub fn new(width: i64) -> (ui: Self)
        ensures
            ui.chrome_height == CHROME_HEIGHT,
            ui.bounds == (Rect { x: 0, y: 0, width, height: CHROME_HEIGHT }),
            ui.address_bar@ == AddressBar::initial(),
            ui.input_handler@ == InputHandler::initial(),
            in_range(width) ==> ui.wf(),
    {
        BrowserUI {
            address_bar: AddressBar::new(),
            navigation: NavigationButtons::new(),
            input_handler: InputHandler::new(),
            bounds: Rect { x: 0, y: 0, width, height: CHROME_HEIGHT },
            chrome_height: CHROME_HEIGHT,
        }
    }

    /// Get the content viewport (below the chrome)
    pub fn content_viewport(&self) -> (viewport: Rect)
        requires
            self.wf(),
        ensures
            viewport == (Rect {
                x: 0,
                y: self.chrome_height,
                width: self.bounds.width,
                height: (self.bounds.height - self.chrome_height) as i64,
            }),
    {
        Rect {
            x: 0,
            y: self.chrome_height,
            width: self.bounds.width,
            height: self.bounds.height - self.chrome_height,
        }
    }

    /// Update UI layout when window resizes: the bounds take the new
    /// size, and the address bar the width that the buttons leave.
    pub fn resize(&mut self, width: i64, height: i64)
        requires
            in_range(width),
            in_range(height),
        ensures
            final(self).bounds == (Rect { width, height, ..old(self).bounds }),
            final(self).address_bar@ == old(self).address_bar@.with_width(
                (width - BUTTON_ROOM) as i64,
            ),
            final(self).navigation == old(self).navigation,
            final(self).input_handler == old(self).input_handler,
            final(self).chrome_height == old(self).chrome_height,
    {
        self.bounds.width = width;
        self.bounds.height = height;
        self.address_bar.set_width(width - BUTTON_ROOM);
    }

    /// Check if a point is within the chrome area
    pub fn contains_point(&self, _x: i64, y: i64) -> (inside: bool)
        ensures
            inside == (y < self.chrome_height),
    {
        y < self.chrome_height
    }
}

} // verus!
