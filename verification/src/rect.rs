//! Axis-aligned rectangles in screen coordinates.

use vstd::prelude::*;

verus! {

/// An axis-aligned rectangle given by its two corners. A well-formed
/// rectangle has `min <= max` on both axes.
#[derive(Debug, Clone, Copy)]
pub struct Rect {
    pub min: (u64, u64),
    pub max: (u64, u64),
}

impl PartialEq for Rect {
    fn eq(&self, other: &Rect) -> (r: bool)
        ensures
            r <==> *self == *other,
    {
        self.min.0 == other.min.0 && self.min.1 == other.min.1 && self.max.0 == other.max.0
            && self.max.1 == other.max.1
    }
}

impl vstd::std_specs::cmp::PartialEqSpecImpl for Rect {
    open spec fn obeys_eq_spec() -> bool {
        true
    }

    open spec fn eq_spec(&self, other: &Rect) -> bool {
        *self == *other
    }
}

impl Eq for Rect {

}

impl Rect {
    /// `min <= max` on both axes.
    pub open spec fn wf(self) -> bool {
        &&& self.min.0 <= self.max.0
        &&& self.min.1 <= self.max.1
    }

    /// Translating `inner` by this rectangle's origin keeps every
    /// coordinate within `u64`.
    pub open spec fn can_hold(self, inner: Rect) -> bool {
        &&& self.min.0 + inner.max.0 <= u64::MAX
        &&& self.min.1 + inner.max.1 <= u64::MAX
    }

    /// `inner` translated into this rectangle's coordinate space: this
    /// rectangle's origin is added to both corners of `inner`.
    pub open spec fn subarea_spec(self, inner: Rect) -> Rect {
        Rect {
            min: ((self.min.0 + inner.min.0) as u64, (self.min.1 + inner.min.1) as u64),
            max: ((self.min.0 + inner.max.0) as u64, (self.min.1 + inner.max.1) as u64),
        }
    }

    /// The rectangle of extent `width` x `height` whose top-left corner is
    /// `(x, y)`.
    pub fn sized(x: u64, y: u64, width: u64, height: u64) -> (r: Rect)
        requires
            x + width <= u64::MAX,
            y + height <= u64::MAX,
        ensures
            r == (Rect { min: (x, y), max: ((x + width) as u64, (y + height) as u64) }),
            r.wf(),
    {
        Rect { min: (x, y), max: (x + width, y + height) }
    }

    pub fn width(&self) -> (w: u64)
        requires
            self.wf(),
        ensures
            w == self.max.0 - self.min.0,
    {
        self.max.0 - self.min.0
    }

    pub fn height(&self) -> (h: u64)
        requires
            self.wf(),
        ensures
            h == self.max.1 - self.min.1,
    {
        self.max.1 - self.min.1
    }

    /// Derive the screen-space sub-rectangle a child placed at `inner` owns:
    /// `inner` is translated by this rectangle's origin, never scaled.
    pub fn subarea(&self, inner: Rect) -> (r: Rect)
        requires
            self.can_hold(inner),
            inner.wf(),
        ensures
            r == self.subarea_spec(inner),
            r.wf(),
    {
        Rect {
            min: (self.min.0 + inner.min.0, self.min.1 + inner.min.1),
            max: (self.min.0 + inner.max.0, self.min.1 + inner.max.1),
        }
    }
}

} // verus!
