//! How far the content of a window is scrolled.

use vstd::prelude::*;
use crate::layout::sums::{div_floor, max_int, min_int};
use crate::layout::{in_range, MAX_LENGTH};

verus! {

/// Scrolling state management. Offsets and sizes are in layout units.
#[derive(Debug, Clone, Copy, PartialEq, Eq, Structural)]
pub struct ScrollState {
    /// Current scroll offset (x, y)
    pub offset_x: i64,
    pub offset_y: i64,
    /// Content size (width, height)
    pub content_width: i64,
    pub content_height: i64,
    /// Viewport size (width, height)
    pub viewport_width: i64,
    pub viewport_height: i64,
}

impl Default for ScrollState {
    fn default() -> (state: Self)
        ensures
            state == (ScrollState {
                offset_x: 0,
                offset_y: 0,
                content_width: 0,
                content_height: 0,
                viewport_width: 800,
                viewport_height: 600,
            }),
    {
        ScrollState {
            offset_x: 0,
            offset_y: 0,
            content_width: 0,
            content_height: 0,
            viewport_width: 800,
            viewport_height: 600,
        }
    }
}

/// An offset held in the range that the content allows: from zero up to
/// what the content is longer than the viewport, and zero where it is not
/// longer.
pub open spec fn clamped_offset(offset: int, content: int, viewport: int) -> int {
    max_int(0, min_int(offset, max_int(content - viewport, 0)))
}

impl ScrollState {
    /// The sizes lie in `[-MAX_LENGTH, MAX_LENGTH]`, and the offsets within
    /// twice that.
    pub open spec fn bounded(self) -> bool {
        &&& -2 * MAX_LENGTH <= self.offset_x <= 2 * MAX_LENGTH
        &&& -2 * MAX_LENGTH <= self.offset_y <= 2 * MAX_LENGTH
        &&& in_range(self.content_width)
        &&& in_range(self.content_height)
        &&& in_range(self.viewport_width)
        &&& in_range(self.viewport_height)
    }

    /// The state with both offsets held in the range that the content
    /// allows.
    pub open spec fn clamped(self) -> ScrollState {
        ScrollState {
            offset_x: clamped_offset(
                self.offset_x as int,
                self.content_width as int,
                self.viewport_width as int,
            ) as i64,
            offset_y: clamped_offset(
                self.offset_y as int,
                self.content_height as int,
                self.viewport_height as int,
            ) as i64,
            ..self
        }
    }

    /// Create new scroll state: nothing scrolled, no content.
    pub fn new(viewport_width: i64, viewport_height: i64) -> (state: Self)
        ensures
            state == (ScrollState {
                offset_x: 0,
                offset_y: 0,
                content_width: 0,
                content_height: 0,
                viewport_width,
                viewport_height,
            }),
    {
        ScrollState {
            offset_x: 0,
            offset_y: 0,
            content_width: 0,
            content_height: 0,
            viewport_width,
            viewport_height,
        }
    }

    /// Update viewport size (e.g., on window resize)
    pub fn set_viewport_size(&mut self, width: i64, height: i64)
        requires
            old(self).bounded(),
            in_range(width),
            in_range(height),
        ensures
            *final(self) == (ScrollState {
                viewport_width: width,
                viewport_height: height,
                ..*old(self)
            }).clamped(),
            final(self).bounded(),
    {
        self.viewport_width = width;
        self.viewport_height = height;
        self.clamp_scroll();
    }

    /// Update content size (e.g., after layout)
    pub fn set_content_size(&mut self, width: i64, height: i64)
        requires
            old(self).bounded(),
            in_range(width),
            in_range(height),
        ensures
            *final(self) == (ScrollState {
                content_width: width,
                content_height: height,
                ..*old(self)
            }).clamped(),
            final(self).bounded(),
    {
        self.content_width = width;
        self.content_height = height;
        self.clamp_scroll();
    }

    /// Scroll by delta amount
    pub fn scroll_by(&mut self, delta_x: i64, delta_y: i64)
        requires
            old(self).bounded(),
            in_range(delta_x),
            in_range(delta_y),
        ensures
            final(self).offset_x == clamped_offset(
                old(self).offset_x + delta_x,
                old(self).content_width as int,
                old(self).viewport_width as int,
            ),
            final(self).offset_y == clamped_offset(
                old(self).offset_y + delta_y,
                old(self).content_height as int,
                old(self).viewport_height as int,
            ),
            final(self).content_width == old(self).content_width,
            final(self).content_height == old(self).content_height,
            final(self).viewport_width == old(self).viewport_width,
            final(self).viewport_height == old(self).viewport_height,
            final(self).bounded(),
    {
        let x = self.offset_x + delta_x;
        let y = self.offset_y + delta_y;
        self.offset_x = clamp_offset(x, self.content_width, self.viewport_width);
        self.offset_y = clamp_offset(y, self.content_height, self.viewport_height);
    }

    /// Scroll to absolute position
    pub fn scroll_to(&mut self, x: i64, y: i64)
        requires
            old(self).bounded(),
        ensures
            *final(self) == (ScrollState { offset_x: x, offset_y: y, ..*old(self) }).clamped(),
            final(self).bounded(),
    {
        self.offset_x = x;
        self.offset_y = y;
        self.clamp_scroll();
    }

    /// Clamp scroll to valid range
    fn clamp_scroll(&mut self)
        requires
            in_range(old(self).content_width),
            in_range(old(self).content_height),
            in_range(old(self).viewport_width),
            in_range(old(self).viewport_height),
        ensures
            *final(self) == old(self).clamped(),
            final(self).bounded(),
    {
        self.offset_x = clamp_offset(self.offset_x, self.content_width, self.viewport_width);
        self.offset_y = clamp_offset(self.offset_y, self.content_height, self.viewport_height);
    }

    /// Check if content is scrollable horizontally
    pub fn can_scroll_x(&self) -> (can: bool)
        ensures
            can == (self.content_width > self.viewport_width),
    {
        self.content_width > self.viewport_width
    }

    /// Check if content is scrollable vertically
    pub fn can_scroll_y(&self) -> (can: bool)
        ensures
            can == (self.content_height > self.viewport_height),
    {
        self.content_height > self.viewport_height
    }

    /// How far the content is scrolled down, in thousandths of the way
    /// from the top to the bottom, rounded down; 0 for content that cannot
    /// be scrolled.
    pub open spec fn scrolled_share_y(self) -> int {
        if self.content_height > self.viewport_height {
            self.offset_y * 1000 / (self.content_height - self.viewport_height)
        } else {
            0
        }
    }

    /// Get scroll percentage (0 to 1000, in thousandths) for vertical
    /// scrollbar
    pub fn scroll_percentage_y(&self) -> (share: i64)
        requires
            self.bounded(),
        ensures
            share == self.scrolled_share_y(),
    {
        if !self.can_scroll_y() {
            return 0;
        }
        let max_scroll = self.content_height - self.viewport_height;
        assert(-0x20_0000_0000_0000 <= self.offset_y * 1000 / (max_scroll as int)
            <= 0x20_0000_0000_0000) by (nonlinear_arith)
            requires
                -0x20_0000_0000 <= self.offset_y <= 0x20_0000_0000,
                1 <= max_scroll,
        ;
        div_floor(self.offset_y * 1000, max_scroll)
    }

    /// Apply scroll offset to a position (for rendering)
    pub fn apply_offset(&self, x: i64, y: i64) -> (position: (i64, i64))
        requires
            self.bounded(),
            in_range(x),
            in_range(y),
        ensures
            position.0 == x - self.offset_x,
            position.1 == y - self.offset_y,
    {
        (x - self.offset_x, y - self.offset_y)
    }
}

/// Holds an offset in the range that the content allows.
fn clamp_offset(offset: i64, content: i64, viewport: i64) -> (clamped: i64)
    requires
        in_range(content),
        in_range(viewport),
    ensures
        clamped == clamped_offset(offset as int, content as int, viewport as int),
        0 <= clamped <= 2 * MAX_LENGTH,
{
    let room: i64 = if content - viewport > 0 {
        content - viewport
    } else {
        0
    };
    if offset < 0 {
        0
    } else if offset > room {
        room
    } else {
        offset
    }
}

} // verus!
