//! CSS positioning: static, relative, absolute, fixed and sticky boxes.

use vstd::prelude::*;
use crate::css::{Unit, Value};
use crate::layout::{
    dimensions_are_bounded, in_range, optional_is_in_range, rect_is_bounded, Dimensions, Rect,
};
use crate::style::StyledNode;

verus! {

/// CSS position property values
#[derive(Debug, Clone, Copy, PartialEq, Eq, Structural)]
pub enum Position {
    /// Default flow layout (not positioned)
    Static,
    /// Positioned relative to normal position
    Relative,
    /// Positioned relative to the containing block
    Absolute,
    /// Positioned relative to the viewport
    Fixed,
    /// Laid out as `Relative`: no scroll position is tracked
    Sticky,
}

impl Default for Position {
    fn default() -> (p: Position)
        ensures
            p == Position::Static,
    {
        Position::Static
    }
}

/// Offset properties for positioned elements (top, right, bottom, left)
#[derive(Debug, Clone, Copy)]
pub struct Offsets {
    pub top: Option<i64>,
    pub right: Option<i64>,
    pub bottom: Option<i64>,
    pub left: Option<i64>,
}

/// Whether an offset, where it is set, lies in `[-MAX_LENGTH, MAX_LENGTH]`.
pub open spec fn offset_in_range(o: Option<i64>) -> bool {
    match o {
        Some(v) => in_range(v),
        None => true,
    }
}

impl Offsets {
    /// The offsets of which none is set.
    pub open spec fn unset() -> Offsets {
        Offsets { top: None, right: None, bottom: None, left: None }
    }

    /// Every offset that is set lies in `[-MAX_LENGTH, MAX_LENGTH]`.
    pub open spec fn bounded(self) -> bool {
        offset_in_range(self.top) && offset_in_range(self.right) && offset_in_range(self.bottom)
            && offset_in_range(self.left)
    }
}

impl Default for Offsets {
    fn default() -> (o: Offsets)
        ensures
            o == Offsets::unset(),
    {
        Offsets { top: None, right: None, bottom: None, left: None }
    }
}

/// Information about a positioned element
#[derive(Debug, Clone)]
pub struct PositionedElement {
    pub position: Position,
    pub offsets: Offsets,
    pub z_index: i32,
}

impl Default for PositionedElement {
    fn default() -> (e: PositionedElement)
        ensures
            e.position == Position::Static,
            e.offsets == Offsets::unset(),
            e.z_index == 0,
    {
        PositionedElement {
            position: Position::Static,
            offsets: Offsets { top: None, right: None, bottom: None, left: None },
            z_index: 0,
        }
    }
}

/// A coordinate moved from its place in the flow: by `near` towards the far
/// side where `near` is set, else by `far` towards the near side, else not at
/// all.
pub open spec fn shifted(current: i64, near: Option<i64>, far: Option<i64>) -> int {
    match near {
        Some(n) => current + n,
        None => match far {
            Some(f) => current - f,
            None => current as int,
        },
    }
}

/// A coordinate anchored to an axis that starts at `origin` and is `extent`
/// long, for a box that is `size` long: `near` from the start where it is
/// set, else `far` from the end, else at the start.
pub open spec fn anchored(
    origin: i64,
    extent: i64,
    size: i64,
    near: Option<i64>,
    far: Option<i64>,
) -> int {
    match near {
        Some(n) => origin + n,
        None => match far {
            Some(f) => origin + extent - size - f,
            None => origin as int,
        },
    }
}

/// The position that a value of the property `position` stands for:
/// `Static` for every value that names no other.
pub open spec fn position_of(value: Option<Value>) -> Position {
    match value {
        Some(v) => if v.is_word("relative"@) {
            Position::Relative
        } else if v.is_word("absolute"@) {
            Position::Absolute
        } else if v.is_word("fixed"@) {
            Position::Fixed
        } else if v.is_word("sticky"@) {
            Position::Sticky
        } else {
            Position::Static
        },
        None => Position::Static,
    }
}

/// The offset that a value stands for: the number of a pixel length, and
/// none for every other value.
pub open spec fn offset_of(value: Option<Value>) -> Option<i64> {
    match value {
        Some(Value::Length(n, Unit::Px)) => Some(n),
        _ => None,
    }
}

/// A number held in the range of `i32`.
pub open spec fn clamp_to_i32(n: i64) -> i32 {
    if n > i32::MAX {
        i32::MAX
    } else if n < i32::MIN {
        i32::MIN
    } else {
        n as i32
    }
}

/// The stacking level that a value stands for: a number or a pixel length
/// held in the range of `i32`, and zero for every other value.
pub open spec fn z_index_of(value: Option<Value>) -> i32 {
    match value {
        Some(Value::Number(n)) => clamp_to_i32(n),
        Some(Value::Length(n, Unit::Px)) => clamp_to_i32(n),
        _ => 0,
    }
}

/// Holds a number in the range of `i32`.
fn to_i32(n: i64) -> (r: i32)
    ensures
        r == clamp_to_i32(n),
{
    if n > 2_147_483_647 {
        2_147_483_647
    } else if n < -2_147_483_648 {
        -2_147_483_648
    } else {
        n as i32
    }
}

impl PositionedElement {
    /// Parse positioning properties from a styled node
    pub fn from_styled_node(node: &StyledNode) -> (element: Self)
        ensures
            element.position == position_of(node.spec_value("position"@)),
            element.offsets.top == offset_of(node.spec_value("top"@)),
            element.offsets.right == offset_of(node.spec_value("right"@)),
            element.offsets.bottom == offset_of(node.spec_value("bottom"@)),
            element.offsets.left == offset_of(node.spec_value("left"@)),
            element.z_index == z_index_of(node.spec_value("z-index"@)),
    {
        let position = Self::parse_position(node);
        let offsets = Self::parse_offsets(node);
        let z_index = Self::parse_z_index(node);
        PositionedElement { position, offsets, z_index }
    }

    /// Parse the position property
    fn parse_position(node: &StyledNode) -> (position: Position)
        ensures
            position == position_of(node.spec_value("position"@)),
    {
        match node.value("position") {
            Some(v) => {
                if v.is_keyword("relative") {
                    Position::Relative
                } else if v.is_keyword("absolute") {
                    Position::Absolute
                } else if v.is_keyword("fixed") {
                    Position::Fixed
                } else if v.is_keyword("sticky") {
                    Position::Sticky
                } else {
                    Position::Static
                }
            },
            None => Position::Static,
        }
    }

    /// Parse offset properties (top, right, bottom, left)
    fn parse_offsets(node: &StyledNode) -> (offsets: Offsets)
        ensures
            offsets.top == offset_of(node.spec_value("top"@)),
            offsets.right == offset_of(node.spec_value("right"@)),
            offsets.bottom == offset_of(node.spec_value("bottom"@)),
            offsets.left == offset_of(node.spec_value("left"@)),
    {
        Offsets {
            top: Self::parse_offset(node, "top"),
            right: Self::parse_offset(node, "right"),
            bottom: Self::parse_offset(node, "bottom"),
            left: Self::parse_offset(node, "left"),
        }
    }

    /// Parse a single offset property
    fn parse_offset(node: &StyledNode, property: &str) -> (offset: Option<i64>)
        ensures
            offset == offset_of(node.spec_value(property@)),
    {
        match node.value(property) {
            Some(Value::Length(val, Unit::Px)) => Some(*val),
            _ => None,
        }
    }

    /// Parse z-index property
    fn parse_z_index(node: &StyledNode) -> (z: i32)
        ensures
            z == z_index_of(node.spec_value("z-index"@)),
    {
        match node.value("z-index") {
            Some(Value::Number(n)) => to_i32(*n),
            Some(Value::Length(n, Unit::Px)) => to_i32(*n),
            _ => 0,
        }
    }

    /// Check if this element is positioned (not static)
    pub fn is_positioned(&self) -> (r: bool)
        ensures
            r == (self.position != Position::Static),
    {
        self.position != Position::Static
    }

    /// The x coordinate of the content box after positioning.
    pub open spec fn target_x(self, d: Dimensions, cb: Dimensions, viewport: Rect) -> int {
        match self.position {
            Position::Static => d.content.x as int,
            Position::Relative | Position::Sticky => shifted(
                d.content.x,
                self.offsets.left,
                self.offsets.right,
            ),
            Position::Absolute => anchored(
                cb.content.x,
                cb.content.width,
                d.content.width,
                self.offsets.left,
                self.offsets.right,
            ),
            Position::Fixed => anchored(
                viewport.x,
                viewport.width,
                d.content.width,
                self.offsets.left,
                self.offsets.right,
            ),
        }
    }

    /// The y coordinate of the content box after positioning.
    pub open spec fn target_y(self, d: Dimensions, cb: Dimensions, viewport: Rect) -> int {
        match self.position {
            Position::Static => d.content.y as int,
            Position::Relative | Position::Sticky => shifted(
                d.content.y,
                self.offsets.top,
                self.offsets.bottom,
            ),
            Position::Absolute => anchored(
                cb.content.y,
                cb.content.height,
                d.content.height,
                self.offsets.top,
                self.offsets.bottom,
            ),
            Position::Fixed => anchored(
                viewport.y,
                viewport.height,
                d.content.height,
                self.offsets.top,
                self.offsets.bottom,
            ),
        }
    }

    /// Apply positioning to dimensions.
    ///
    /// Only the origin of the content box moves. A static element is left as
    /// it is; a relative or sticky one is shifted from its place in the flow;
    /// an absolute one is anchored to the content box of the containing
    /// block, a fixed one to the viewport. On each axis `left` (`top`) wins
    /// over `right` (`bottom`).
    pub fn apply_positioning(
        &self,
        dimensions: &mut Dimensions,
        containing_block: &Dimensions,
        viewport: &Rect,
    )
        requires
            old(dimensions).bounded(),
            containing_block.bounded(),
            viewport.bounded(),
            self.offsets.bounded(),
        ensures
            final(dimensions).content.x == self.target_x(
                *old(dimensions),
                *containing_block,
                *viewport,
            ),
            final(dimensions).content.y == self.target_y(
                *old(dimensions),
                *containing_block,
                *viewport,
            ),
            final(dimensions).content.width == old(dimensions).content.width,
            final(dimensions).content.height == old(dimensions).content.height,
            final(dimensions).padding == old(dimensions).padding,
            final(dimensions).border == old(dimensions).border,
            final(dimensions).margin == old(dimensions).margin,
            self.position == Position::Static ==> *final(dimensions) == *old(dimensions),
    {
        match self.position {
            Position::Static => {},
            Position::Relative => {
                self.apply_relative_positioning(dimensions);
            },
            Position::Absolute => {
                self.apply_absolute_positioning(dimensions, containing_block);
            },
            Position::Fixed => {
                self.apply_fixed_positioning(dimensions, viewport);
            },
            Position::Sticky => {
                self.apply_relative_positioning(dimensions);
            },
        }
    }

    /// Apply positioning to dimensions where every number is bounded, and
    /// say so; else the dimensions stay as they are.
    pub fn try_apply_positioning(
        &self,
        dimensions: &mut Dimensions,
        containing_block: &Dimensions,
        viewport: &Rect,
    ) -> (applied: bool)
        ensures
            applied == (old(dimensions).bounded() && containing_block.bounded()
                && viewport.bounded() && self.offsets.bounded()),
            if applied {
                &&& final(dimensions).content.x == self.target_x(
                    *old(dimensions),
                    *containing_block,
                    *viewport,
                )
                &&& final(dimensions).content.y == self.target_y(
                    *old(dimensions),
                    *containing_block,
                    *viewport,
                )
                &&& final(dimensions).content.width == old(dimensions).content.width
                &&& final(dimensions).content.height == old(dimensions).content.height
                &&& final(dimensions).padding == old(dimensions).padding
                &&& final(dimensions).border == old(dimensions).border
                &&& final(dimensions).margin == old(dimensions).margin
            } else {
                *final(dimensions) == *old(dimensions)
            },
    {
        let offsets_ok = optional_is_in_range(self.offsets.top) && optional_is_in_range(
            self.offsets.right,
        ) && optional_is_in_range(self.offsets.bottom) && optional_is_in_range(self.offsets.left);
        if dimensions_are_bounded(dimensions) && dimensions_are_bounded(containing_block)
            && rect_is_bounded(viewport) && offsets_ok {
            self.apply_positioning(dimensions, containing_block, viewport);
            true
        } else {
            false
        }
    }

    /// Apply relative positioning (offset from normal position)
    fn apply_relative_positioning(&self, dimensions: &mut Dimensions)
        requires
            old(dimensions).bounded(),
            self.offsets.bounded(),
        ensures
            final(dimensions).content.x == shifted(
                old(dimensions).content.x,
                self.offsets.left,
                self.offsets.right,
            ),
            final(dimensions).content.y == shifted(
                old(dimensions).content.y,
                self.offsets.top,
                self.offsets.bottom,
            ),
            final(dimensions).content.width == old(dimensions).content.width,
            final(dimensions).content.height == old(dimensions).content.height,
            final(dimensions).padding == old(dimensions).padding,
            final(dimensions).border == old(dimensions).border,
            final(dimensions).margin == old(dimensions).margin,
    {
        if let Some(top) = self.offsets.top {
            dimensions.content.y = dimensions.content.y + top;
        } else if let Some(bottom) = self.offsets.bottom {
            dimensions.content.y = dimensions.content.y - bottom;
        }
        if let Some(left) = self.offsets.left {
            dimensions.content.x = dimensions.content.x + left;
        } else if let Some(right) = self.offsets.right {
            dimensions.content.x = dimensions.content.x - right;
        }
    }

    /// Apply absolute positioning (relative to containing block)
    fn apply_absolute_positioning(&self, dimensions: &mut Dimensions, containing_block: &Dimensions)
        requires
            old(dimensions).bounded(),
            containing_block.bounded(),
            self.offsets.bounded(),
        ensures
            final(dimensions).content.x == anchored(
                containing_block.content.x,
                containing_block.content.width,
                old(dimensions).content.width,
                self.offsets.left,
                self.offsets.right,
            ),
            final(dimensions).content.y == anchored(
                containing_block.content.y,
                containing_block.content.height,
                old(dimensions).content.height,
                self.offsets.top,
                self.offsets.bottom,
            ),
            final(dimensions).content.width == old(dimensions).content.width,
            final(dimensions).content.height == old(dimensions).content.height,
            final(dimensions).padding == old(dimensions).padding,
            final(dimensions).border == old(dimensions).border,
            final(dimensions).margin == old(dimensions).margin,
    {
        self.anchor_to(dimensions, &containing_block.content);
    }

    /// Apply fixed positioning (relative to viewport)
    fn apply_fixed_positioning(&self, dimensions: &mut Dimensions, viewport: &Rect)
        requires
            old(dimensions).bounded(),
            viewport.bounded(),
            self.offsets.bounded(),
        ensures
            final(dimensions).content.x == anchored(
                viewport.x,
                viewport.width,
                old(dimensions).content.width,
                self.offsets.left,
                self.offsets.right,
            ),
            final(dimensions).content.y == anchored(
                viewport.y,
                viewport.height,
                old(dimensions).content.height,
                self.offsets.top,
                self.offsets.bottom,
            ),
            final(dimensions).content.width == old(dimensions).content.width,
            final(dimensions).content.height == old(dimensions).content.height,
            final(dimensions).padding == old(dimensions).padding,
            final(dimensions).border == old(dimensions).border,
            final(dimensions).margin == old(dimensions).margin,
    {
        self.anchor_to(dimensions, viewport);
    }

    /// Places the content box against the edges of `frame`.
    fn anchor_to(&self, dimensions: &mut Dimensions, frame: &Rect)
        requires
            old(dimensions).bounded(),
            frame.bounded(),
            self.offsets.bounded(),
        ensures
            final(dimensions).content.x == anchored(
                frame.x,
                frame.width,
                old(dimensions).content.width,
                self.offsets.left,
                self.offsets.right,
            ),
            final(dimensions).content.y == anchored(
                frame.y,
                frame.height,
                old(dimensions).content.height,
                self.offsets.top,
                self.offsets.bottom,
            ),
            final(dimensions).content.width == old(dimensions).content.width,
            final(dimensions).content.height == old(dimensions).content.height,
            final(dimensions).padding == old(dimensions).padding,
            final(dimensions).border == old(dimensions).border,
            final(dimensions).margin == old(dimensions).margin,
    {
        dimensions.content.x = frame.x;
        dimensions.content.y = frame.y;
        if let Some(left) = self.offsets.left {
            dimensions.content.x = frame.x + left;
        } else if let Some(right) = self.offsets.right {
            dimensions.content.x = frame.x + frame.width - dimensions.content.width - right;
        }
        if let Some(top) = self.offsets.top {
            dimensions.content.y = frame.y + top;
        } else if let Some(bottom) = self.offsets.bottom {
            dimensions.content.y = frame.y + frame.height - dimensions.content.height - bottom;
        }
    }
}

} // verus!
