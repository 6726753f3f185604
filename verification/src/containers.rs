//! Container widgets and the layout policies they honour.

pub mod div;
pub mod flexbox;

pub use div::Div;
pub use flexbox::Flexbox;

use vstd::prelude::*;

verus! {

/// Alignment along the main (horizontal) axis: how the leftover space of a
/// line is distributed among the items placed on it.
#[derive(Debug, Clone, Copy, PartialEq, Eq, Structural)]
pub enum JustifyContent {
    /// Items are packed toward the left (the default).
    Left,
    /// Items are packed toward the right.
    Right,
    /// Items are centered along the line.
    Center,
    /// Leftover space is split into equal gaps between adjacent items; the
    /// first item sits on the start edge and the last on the end edge. A
    /// line of one item degrades to `Center`.
    SpaceBetween,
    /// Every item gets an equal share of space around it, so the gap between
    /// two items is twice the gap at the edges.
    SpaceAround,
    /// The gaps between items and at both edges are all equal.
    SpaceEvenly,
}

/// Whether items must share a single line or may wrap onto new lines.
#[derive(Debug, Clone, Copy, PartialEq, Eq, Structural)]
pub enum FlexWrap {
    /// All items are laid out on one line, whatever their total width.
    NoWrap,
    /// Items wrap onto a new line when the next item would exceed the
    /// container's maximum width (the default).
    Wrap,
    /// Wrapping from bottom to top. Declared for completeness; measurement
    /// does not implement it, and rejects it through its precondition.
    WrapReverse,
}

/// Alignment of the items within their line, along the cross (vertical)
/// axis.
#[derive(Debug, Clone, Copy, PartialEq, Eq, Structural)]
pub enum AlignItems {
    /// Each item's height is stretched to the line's height, still clamped
    /// into the item's own limits.
    Stretch,
    /// Items sit at the top of their line.
    Top,
    /// Items sit at the bottom of their line.
    Bottom,
    /// Items are centered within their line.
    Center,
}

/// Alignment of the lines themselves within the container, along the cross
/// (vertical) axis; it matters only when wrapping produced several lines.
#[derive(Debug, Clone, Copy, PartialEq, Eq, Structural)]
pub enum AlignContent {
    /// Lines are packed at the top of the container (the default).
    Top,
    /// Lines are packed at the bottom of the container.
    Bottom,
    /// Lines are centered in the container.
    Center,
    /// Leftover space is split into equal gaps between adjacent lines; a
    /// single line degrades to `Center`.
    SpaceBetween,
    /// Every line gets an equal share of space around it.
    SpaceAround,
    /// The gaps between lines and at both edges are all equal.
    SpaceEvenly,
    /// Each line grows by an equal share of the leftover space, and its
    /// items are stretched to the grown height.
    Stretch,
}

} // verus!
