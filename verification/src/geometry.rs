//! Basic geometric vocabulary: sizing modes, axes, sizes, padding, limits
//! and positioned rectangles.
//!
//! All pixel quantities are whole pixels: extents are `u32`, positions are
//! `u64` so that accumulated offsets cannot wrap.

use vstd::prelude::*;

verus! {

/// The sizing mode of a widget (or of the grid itself) along one axis.
#[derive(Clone, Copy, Debug, PartialEq, Eq, Structural)]
pub enum Length {
    /// Claim a share of the leftover space, with weight 1.
    Fill,
    /// Claim a share of the leftover space proportional to the given weight.
    FillPortion(u16),
    /// Fit the content.
    Shrink,
    /// A fixed amount of pixels.
    Fixed(u32),
}

impl Length {
    /// The proportional weight of this sizing mode.
    ///
    /// Zero means "size to content"; a non-zero weight claims a
    /// proportional share of the leftover space.
    pub open spec fn spec_fill_factor(self) -> u16 {
        match self {
            Length::Fill => 1,
            Length::FillPortion(weight) => weight,
            Length::Shrink => 0,
            Length::Fixed(_) => 0,
        }
    }

    /// Executable twin of [`Length::spec_fill_factor`].
    #[verifier::when_used_as_spec(spec_fill_factor)]
    pub fn fill_factor(self) -> (factor: u16)
        ensures
            factor == self.spec_fill_factor(),
    {
        match self {
            Length::Fill => 1,
            Length::FillPortion(weight) => weight,
            Length::Shrink => 0,
            Length::Fixed(_) => 0,
        }
    }
}

/// A width and a height, in whole pixels.
#[derive(Clone, Copy, Debug, PartialEq, Eq, Structural)]
pub struct Size {
    /// Horizontal extent.
    pub width: u32,
    /// Vertical extent.
    pub height: u32,
}

/// A four-sided inset, in whole pixels.
#[derive(Clone, Copy, Debug, PartialEq, Eq, Structural)]
pub struct Padding {
    /// Inset from the top edge.
    pub top: u32,
    /// Inset from the right edge.
    pub right: u32,
    /// Inset from the bottom edge.
    pub bottom: u32,
    /// Inset from the left edge.
    pub left: u32,
}

impl Padding {
    /// A padding of zero on every side.
    pub fn zero() -> (padding: Padding)
        ensures
            padding == (Padding { top: 0, right: 0, bottom: 0, left: 0 }),
    {
        Padding { top: 0, right: 0, bottom: 0, left: 0 }
    }

    /// The sum of the left and right insets.
    pub open spec fn spec_horizontal(self) -> int {
        self.left + self.right
    }

    /// The sum of the top and bottom insets.
    pub open spec fn spec_vertical(self) -> int {
        self.top + self.bottom
    }
}

/// The box constraints a layout pass works within: a minimum and a
/// maximum size.
#[derive(Clone, Copy, Debug, PartialEq, Eq, Structural)]
pub struct Limits {
    /// The smallest admissible size.
    pub min: Size,
    /// The largest admissible size.
    pub max: Size,
}

impl Limits {
    /// The minimum does not exceed the maximum on either axis.
    pub open spec fn wf(self) -> bool {
        self.min.width <= self.max.width && self.min.height <= self.max.height
    }
}

/// Clamps `value` into `[low, high]`; `low` wins when `low > high`.
pub open spec fn spec_clamp(value: u32, low: u32, high: u32) -> u32 {
    if value < low {
        low
    } else if value > high {
        high
    } else {
        value
    }
}

/// Executable twin of [`spec_clamp`].
#[verifier::when_used_as_spec(spec_clamp)]
pub fn clamp(value: u32, low: u32, high: u32) -> (clamped: u32)
    ensures
        clamped == spec_clamp(value, low, high),
{
    if value < low {
        low
    } else if value > high {
        high
    } else {
        value
    }
}

/// The main axis of a grid: the direction whose track sizes are resolved
/// first.
#[derive(Clone, Copy, Debug, PartialEq, Eq, Structural)]
pub enum Axis {
    /// The horizontal axis is resolved first.
    Horizontal,
    /// The vertical axis is resolved first.
    Vertical,
}

impl Axis {
    /// Orders a `(width, height)` pair as `(main, cross)`.
    pub open spec fn spec_pack<T>(self, width: T, height: T) -> (T, T) {
        match self {
            Axis::Horizontal => (width, height),
            Axis::Vertical => (height, width),
        }
    }

    /// Executable twin of [`Axis::spec_pack`].
    ///
    /// The same map also goes the other way: it orders a `(main, cross)`
    /// pair as `(width, height)`.
    #[verifier::when_used_as_spec(spec_pack)]
    pub fn pack<T>(self, width: T, height: T) -> (packed: (T, T))
        ensures
            packed == self.spec_pack(width, height),
    {
        match self {
            Axis::Horizontal => (width, height),
            Axis::Vertical => (height, width),
        }
    }

    /// The component of a size along the main axis.
    pub open spec fn spec_main(self, size: Size) -> u32 {
        match self {
            Axis::Horizontal => size.width,
            Axis::Vertical => size.height,
        }
    }

    /// Executable twin of [`Axis::spec_main`].
    #[verifier::when_used_as_spec(spec_main)]
    pub fn main(self, size: Size) -> (extent: u32)
        ensures
            extent == self.spec_main(size),
    {
        match self {
            Axis::Horizontal => size.width,
            Axis::Vertical => size.height,
        }
    }

    /// The component of a size along the cross axis.
    pub open spec fn spec_cross(self, size: Size) -> u32 {
        match self {
            Axis::Horizontal => size.height,
            Axis::Vertical => size.width,
        }
    }

    /// Executable twin of [`Axis::spec_cross`].
    #[verifier::when_used_as_spec(spec_cross)]
    pub fn cross(self, size: Size) -> (extent: u32)
        ensures
            extent == self.spec_cross(size),
    {
        match self {
            Axis::Horizontal => size.height,
            Axis::Vertical => size.width,
        }
    }

    /// The axis's name, for diagnostics.
    pub fn label(self) -> (label: String)
        ensures
            self is Horizontal ==> label@ == "Horizontal"@,
            self is Vertical ==> label@ == "Vertical"@,
    {
        match self {
            Axis::Horizontal => "Horizontal".to_owned(),
            Axis::Vertical => "Vertical".to_owned(),
        }
    }

    /// Splits a size into its `(main, cross)` components.
    pub open spec fn spec_size_pack(self, size: Size) -> (u32, u32) {
        (self.spec_main(size), self.spec_cross(size))
    }

    /// Executable twin of [`Axis::spec_size_pack`].
    #[verifier::when_used_as_spec(spec_size_pack)]
    pub fn size_pack(self, size: Size) -> (packed: (u32, u32))
        ensures
            packed == self.spec_size_pack(size),
    {
        (self.main(size), self.cross(size))
    }
}

/// Horizontal placement of a child inside a larger cell.
#[derive(Clone, Copy, Debug, PartialEq, Eq, Structural)]
pub enum Horizontal {
    /// Flush with the left edge.
    Left,
    /// Centered; a spare odd pixel goes to the right.
    Center,
    /// Flush with the right edge.
    Right,
}

/// Vertical placement of a child inside a larger cell.
#[derive(Clone, Copy, Debug, PartialEq, Eq, Structural)]
pub enum Vertical {
    /// Flush with the top edge.
    Top,
    /// Centered; a spare odd pixel goes to the bottom.
    Center,
    /// Flush with the bottom edge.
    Bottom,
}

/// The horizontal offset of an extent of `inner` pixels aligned inside
/// an extent of `outer` pixels.
pub open spec fn spec_h_offset(align: Horizontal, inner: int, outer: int) -> int
    recommends
        0 <= inner <= outer,
{
    match align {
        Horizontal::Left => 0,
        Horizontal::Center => (outer - inner) / 2,
        Horizontal::Right => outer - inner,
    }
}

/// The vertical offset of an extent of `inner` pixels aligned inside an
/// extent of `outer` pixels.
pub open spec fn spec_v_offset(align: Vertical, inner: int, outer: int) -> int
    recommends
        0 <= inner <= outer,
{
    match align {
        Vertical::Top => 0,
        Vertical::Center => (outer - inner) / 2,
        Vertical::Bottom => outer - inner,
    }
}

/// A positioned rectangle: the absolute position of its top-left corner
/// and its extent.
#[derive(Clone, Copy, Debug, PartialEq, Eq, Structural)]
pub struct Rect {
    /// Horizontal position of the left edge.
    pub x: u64,
    /// Vertical position of the top edge.
    pub y: u64,
    /// Horizontal extent.
    pub width: u32,
    /// Vertical extent.
    pub height: u32,
}

impl Rect {
    /// Two rectangles are disjoint when they share no point; a rectangle
    /// of zero width or height contains no point at all.
    pub open spec fn disjoint(self, other: Rect) -> bool {
        self.width == 0 || self.height == 0 || other.width == 0 || other.height == 0
            || self.x + self.width <= other.x || other.x + other.width <= self.x
            || self.y + self.height <= other.y || other.y + other.height <= self.y
    }

    /// `self` lies entirely inside `other`.
    pub open spec fn within(self, other: Rect) -> bool {
        other.x <= self.x && self.x + self.width <= other.x + other.width && other.y <= self.y
            && self.y + self.height <= other.y + other.height
    }
}

} // verus!
