//! The address bar: the URL as it is typed, whether the bar has the
//! focus, and how far loading has come, in thousandths.

use vstd::prelude::*;
use crate::layout::Rect;

verus! {

/// The progress of a finished load, in thousandths.
pub const FULL_PROGRESS: i64 = 1000;

/// Address bar state and rendering
pub struct AddressBar {
    /// Current URL text
    url: String,
    /// Is the address bar focused
    focused: bool,
    /// Loading state
    loading: bool,
    /// Progress (0 to 1000)
    progress: i64,
    /// Visual bounds
    bounds: Rect,
}

/// An address bar as a mathematical value.
pub struct AddressBarView {
    pub url: Seq<char>,
    pub focused: bool,
    pub loading: bool,
    pub progress: i64,
    pub bounds: Rect,
}

impl AddressBarView {
    /// The bar with another width.
    pub open spec fn with_width(self, width: i64) -> AddressBarView {
        AddressBarView { bounds: Rect { width, ..self.bounds }, ..self }
    }

    /// Whether a point lies in the bounds, edges included.
    pub open spec fn holds_point(self, x: i64, y: i64) -> bool {
        &&& x >= self.bounds.x
        &&& x <= self.bounds.x + self.bounds.width
        &&& y >= self.bounds.y
        &&& y <= self.bounds.y + self.bounds.height
    }
}

/// A progress held to the range from 0 to 1000.
pub open spec fn clamped_progress(progress: i64) -> i64 {
    if progress < 0 {
        0
    } else if progress > FULL_PROGRESS {
        FULL_PROGRESS
    } else {
        progress
    }
}

impl View for AddressBar {
    type V = AddressBarView;

    closed spec fn view(&self) -> AddressBarView {
        AddressBarView {
            url: self.url@,
            focused: self.focused,
            loading: self.loading,
            progress: self.progress,
            bounds: self.bounds,
        }
    }
}

impl AddressBar {
    /// The bar as it is made: at a blank page, without focus, not
    /// loading, 560 wide and 40 high at (120, 10).
    pub open spec fn initial() -> AddressBarView {
        AddressBarView {
            url: "about:blank"@,
            focused: false,
            loading: false,
            progress: 0,
            bounds: Rect { x: 120, y: 10, width: 560, height: 40 },
        }
    }

    /// Create a new address bar
    pub fn new() -> (bar: Self)
        ensures
            bar@ == AddressBar::initial(),
    {
        AddressBar {
            url: String::from_str("about:blank"),
            focused: false,
            loading: false,
            progress: 0,
            bounds: Rect { x: 120, y: 10, width: 560, height: 40 },
        }
    }

    /// Get the current URL
    pub fn url(&self) -> (url: &str)
        ensures
            url@ == self@.url,
    {
        self.url.as_str()
    }

    /// Set the URL (e.g., after navigation)
    pub fn set_url(&mut self, url: String)
        ensures
            final(self)@ == (AddressBarView { url: url@, ..old(self)@ }),
    {
        self.url = url;
    }

    /// Update the URL (e.g., during typing)
    pub fn update_url(&mut self, url: String)
        ensures
            final(self)@ == (AddressBarView { url: url@, ..old(self)@ }),
    {
        self.url = url;
    }

    /// Set focus state
    pub fn set_focused(&mut self, focused: bool)
        ensures
            final(self)@ == (AddressBarView { focused, ..old(self)@ }),
    {
        self.focused = focused;
    }

    /// Check if focused
    pub fn is_focused(&self) -> (focused: bool)
        ensures
            focused == self@.focused,
    {
        self.focused
    }

    /// Set loading state. When loading ends the progress goes back to 0.
    pub fn set_loading(&mut self, loading: bool)
        ensures
            final(self)@ == (AddressBarView {
                loading,
                progress: if loading {
                    old(self)@.progress
                } else {
                    0
                },
                ..old(self)@
            }),
    {
        self.loading = loading;
        if !loading {
            self.progress = 0;
        }
    }

    /// Check if loading
    pub fn is_loading(&self) -> (loading: bool)
        ensures
            loading == self@.loading,
    {
        self.loading
    }

    /// Update loading progress, held to the range from 0 to 1000.
    pub fn set_progress(&mut self, progress: i64)
        ensures
            final(self)@ == (AddressBarView {
                progress: clamped_progress(progress),
                ..old(self)@
            }),
    {
        self.progress = if progress < 0 {
            0
        } else if progress > FULL_PROGRESS {
            FULL_PROGRESS
        } else {
            progress
        };
    }

    /// Get loading progress
    pub fn progress(&self) -> (progress: i64)
        ensures
            progress == self@.progress,
    {
        self.progress
    }

    /// Get the visual bounds
    pub fn bounds(&self) -> (bounds: &Rect)
        ensures
            *bounds == self@.bounds,
    {
        &self.bounds
    }

    /// Set the width of the address bar
    pub fn set_width(&mut self, width: i64)
        ensures
            final(self)@ == old(self)@.with_width(width),
    {
        self.bounds.width = width;
    }

    /// Handle character input: with the focus, the character is put
    /// behind the URL.
    pub fn insert_char(&mut self, ch: char)
        ensures
            final(self)@ == (AddressBarView {
                url: if old(self)@.focused {
                    old(self)@.url.push(ch)
                } else {
                    old(self)@.url
                },
                ..old(self)@
            }),
    {
        if self.focused {
            self.url.push(ch);
        }
    }

    /// Handle backspace: with the focus, the last character of the URL
    /// goes.
    pub fn backspace(&mut self)
        ensures
            final(self)@ == (AddressBarView {
                url: if old(self)@.focused && old(self)@.url.len() > 0 {
                    old(self)@.url.drop_last()
                } else {
                    old(self)@.url
                },
                ..old(self)@
            }),
    {
        if self.focused {
            self.url.pop();
        }
    }

    /// Clear the URL, with the focus.
    pub fn clear(&mut self)
        ensures
            final(self)@ == (AddressBarView {
                url: if old(self)@.focused {
                    Seq::<char>::empty()
                } else {
                    old(self)@.url
                },
                ..old(self)@
            }),
    {
        if self.focused {
            self.url.clear();
        }
    }

    /// Check if the address bar contains a point
    pub fn contains_point(&self, x: i64, y: i64) -> (inside: bool)
        ensures
            inside == self@.holds_point(x, y),
    {
        let right: i128 = self.bounds.x as i128 + self.bounds.width as i128;
        let bottom: i128 = self.bounds.y as i128 + self.bounds.height as i128;
        x >= self.bounds.x && x as i128 <= right && y >= self.bounds.y && y as i128 <= bottom
    }
}

impl Default for AddressBar {
    fn default() -> (bar: Self)
        ensures
            bar@ == AddressBar::initial(),
    {
        AddressBar::new()
    }
}

} // verus!
