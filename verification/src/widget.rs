//! The box-model size constraint every layout participant reports, and the
//! capability contract (`Widget`) that containers consume.

use vstd::prelude::*;
use crate::MAX_DIM;
use crate::backend::Backend;
use crate::rect::Rect;

verus! {

/// The explicit rejection a widget returns when asked to render placement
/// data that no preceding measurement pass produced.
#[derive(Debug, Clone, Copy, PartialEq, Eq, Structural)]
pub enum RenderError {
    /// The stored placement data does not cover the current child set; a
    /// measurement pass must run first.
    StaleLayout,
}

/// A box-model constraint: a minimum, current and maximum extent per axis.
///
/// `width` and `height` are the *currently proposed* size; the setters clamp
/// them into the `[min, max]` range of their axis, so that after any setter
/// call the clamp invariant `min <= value <= max` holds.
#[derive(Debug, Clone, Copy, PartialEq, Eq, Structural)]
pub struct WidgetSize {
    pub min_width: u64,
    pub width: u64,
    pub max_width: u64,
    pub min_height: u64,
    pub height: u64,
    pub max_height: u64,
}

/// `v` forced into the range `[lo, hi]` (meaningful when `lo <= hi`).
pub open spec fn clamp_spec(v: int, lo: int, hi: int) -> int {
    if v < lo {
        lo
    } else if v > hi {
        hi
    } else {
        v
    }
}

impl WidgetSize {
    /// The ranges of both axes are ordered, and bounded by [`MAX_DIM`].
    pub open spec fn ranges_wf(self) -> bool {
        &&& self.min_width <= self.max_width <= MAX_DIM
        &&& self.min_height <= self.max_height <= MAX_DIM
    }

    /// Well-formed ranges with the current values inside them: the state
    /// every measurement result is in.
    pub open spec fn valid(self) -> bool {
        &&& self.ranges_wf()
        &&& self.min_width <= self.width <= self.max_width
        &&& self.min_height <= self.height <= self.max_height
    }

    /// The state after `set_width(w)`: only `width` changes, clamped.
    pub open spec fn with_width(self, w: int) -> WidgetSize {
        WidgetSize {
            width: clamp_spec(w, self.min_width as int, self.max_width as int) as u64,
            ..self
        }
    }

    /// The state after `set_height(h)`: only `height` changes, clamped.
    pub open spec fn with_height(self, h: int) -> WidgetSize {
        WidgetSize {
            height: clamp_spec(h, self.min_height as int, self.max_height as int) as u64,
            ..self
        }
    }

    /// Assign a proposed width, clamped into `[min_width, max_width]`.
    pub fn set_width(&mut self, width: u64)
        requires
            old(self).min_width <= old(self).max_width,
        ensures
            *final(self) == old(self).with_width(width as int),
            final(self).min_width <= final(self).width <= final(self).max_width,
    {
        self.width = if width < self.min_width {
            self.min_width
        } else if width > self.max_width {
            self.max_width
        } else {
            width
        };
    }

    /// Assign a proposed height, clamped into `[min_height, max_height]`.
    pub fn set_height(&mut self, height: u64)
        requires
            old(self).min_height <= old(self).max_height,
        ensures
            *final(self) == old(self).with_height(height as int),
            final(self).min_height <= final(self).height <= final(self).max_height,
    {
        self.height = if height < self.min_height {
            self.min_height
        } else if height > self.max_height {
            self.max_height
        } else {
            height
        };
    }

    /// Assign both proposed extents; the composition of the two setters.
    pub fn set_size(&mut self, width: u64, height: u64)
        requires
            old(self).min_width <= old(self).max_width,
            old(self).min_height <= old(self).max_height,
        ensures
            *final(self) == old(self).with_width(width as int).with_height(height as int),
            final(self).min_width <= final(self).width <= final(self).max_width,
            final(self).min_height <= final(self).height <= final(self).max_height,
    {
        self.set_width(width);
        self.set_height(height);
    }

    /// Squeeze the proposed width through a container's restriction: first
    /// clamp into what the restriction allows, then back into this widget's
    /// own hard limits.
    pub fn fit_width(&mut self, restrictions: &WidgetSize)
        requires
            old(self).min_width <= old(self).max_width,
            restrictions.min_width <= restrictions.max_width,
        ensures
            *final(self) == old(self).with_width(
                clamp_spec(
                    old(self).width as int,
                    restrictions.min_width as int,
                    restrictions.max_width as int,
                ),
            ),
            final(self).min_width <= final(self).width <= final(self).max_width,
    {
        let squeezed: u64 = if self.width < restrictions.min_width {
            restrictions.min_width
        } else if self.width > restrictions.max_width {
            restrictions.max_width
        } else {
            self.width
        };
        self.set_width(squeezed);
    }

    /// Squeeze the proposed height through a container's restriction, as
    /// [`WidgetSize::fit_width`] does for the width.
    pub fn fit_height(&mut self, restrictions: &WidgetSize)
        requires
            old(self).min_height <= old(self).max_height,
            restrictions.min_height <= restrictions.max_height,
        ensures
            *final(self) == old(self).with_height(
                clamp_spec(
                    old(self).height as int,
                    restrictions.min_height as int,
                    restrictions.max_height as int,
                ),
            ),
            final(self).min_height <= final(self).height <= final(self).max_height,
    {
        let squeezed: u64 = if self.height < restrictions.min_height {
            restrictions.min_height
        } else if self.height > restrictions.max_height {
            restrictions.max_height
        } else {
            self.height
        };
        self.set_height(squeezed);
    }
}

/// The capability every layout participant implements, leaf widgets and
/// containers alike, so that they nest freely.
///
/// A frame proceeds in three phases: `update` lets the widget mutate its own
/// state; `allocate_area` asks it how large it wants to be under the given
/// constraints (a container then decides the final placement); `render` hands
/// it the screen rectangle it owns together with the backend's drawing
/// surface.
///
/// Measurement is a pure function of the widget's state: `size_spec` names
/// the size a measurement returns and `measured_spec` the state it leaves
/// behind, and [`Widget::lemma_measure_stable`] obliges every implementation
/// to prove that a second measurement under the same arguments changes
/// nothing — measurement is idempotent across the whole widget tree.
pub trait Widget<B>: Sized {
    /// The size this widget reports when measured under `screen` and
    /// `container` constraints.
    spec fn size_spec(&self, screen: (u64, u64), container: (u64, u64)) -> WidgetSize;

    /// How a measurement under `screen` and `container` constraints relates
    /// the widget's state before the call (`self`) to the state after it
    /// (`post`).
    spec fn measured_rel(&self, post: Self, screen: (u64, u64), container: (u64, u64)) -> bool;

    /// Whether this widget's configuration is one that measurement
    /// implements (containers reject the unimplemented wrap policy and
    /// child counts beyond the arithmetic bound).
    spec fn measure_allowed(&self) -> bool;

    /// Whether this widget's stored placement data covers its current child
    /// set, so that rendering is meaningful.
    spec fn render_ready(&self) -> bool;

    /// Whether translating this widget's stored placement data into `area`
    /// stays within coordinate range, recursively through its children.
    spec fn render_fits(&self, area: Rect) -> bool;

    /// Measurement is stable: a measured widget reports the same size as
    /// before, stays measurable, and is ready to render.
    proof fn lemma_measure_stable(&self, post: Self, screen: (u64, u64), container: (u64, u64))
        requires
            self.measured_rel(post, screen, container),
        ensures
            post.size_spec(screen, container) == self.size_spec(screen, container),
            self.measure_allowed() ==> post.measure_allowed(),
            self.measure_allowed() ==> post.render_ready(),
    ;

    /// Let the widget bring its internal state up to date before the
    /// frame's measurement pass; by default there is nothing to do.
    fn update(&mut self) {
    }

    /// Report the size this widget wants given the whole screen's extent and
    /// the room its container offers, and store whatever placement data the
    /// following [`Widget::render`] call needs.
    fn allocate_area(&mut self, screen: (u64, u64), container: (u64, u64)) -> (s: WidgetSize)
        requires
            old(self).measure_allowed(),
            screen.0 <= MAX_DIM,
            screen.1 <= MAX_DIM,
            container.0 <= MAX_DIM,
            container.1 <= MAX_DIM,
        ensures
            s == old(self).size_spec(screen, container),
            s.valid(),
            old(self).measured_rel(*final(self), screen, container),
    ;

    /// Draw this widget into `area`, the screen rectangle it owns, through
    /// the backend's drawing surface. Fails explicitly when the stored
    /// placement data is stale ([`RenderError::StaleLayout`]) instead of
    /// misrendering.
    fn render(&self, area: Rect, backend: &mut B) -> (r: Result<(), RenderError>)
        requires
            area.wf(),
            self.render_fits(area),
        ensures
            r is Ok <==> self.render_ready(),
    ;
}

/// The strategy a container consults to resolve its own size envelope from
/// the screen and container extents, overriding the default unconstrained
/// envelope.
pub trait AreaAllocator: Sized {
    /// The envelope this allocator resolves for the given constraints.
    spec fn envelope_spec(&self, screen: (u64, u64), container: (u64, u64)) -> WidgetSize;

    /// Resolve the size envelope a container must fit.
    fn allocate_area(&self, screen: (u64, u64), container: (u64, u64)) -> (s: WidgetSize)
        ensures
            s == self.envelope_spec(screen, container),
            s.valid(),
    ;
}

/// An [`AreaAllocator`] that resolves the same envelope whatever the
/// constraints are.
#[derive(Debug, Clone, Copy)]
pub struct FixedAllocator {
    size: WidgetSize,
}

impl FixedAllocator {
    #[verifier::type_invariant]
    spec fn inv(self) -> bool {
        self.size.valid()
    }

    pub fn new(size: WidgetSize) -> (a: FixedAllocator)
        requires
            size.valid(),
        ensures
            forall|screen: (u64, u64), container: (u64, u64)|
                a.envelope_spec(screen, container) == size,
    {
        FixedAllocator { size }
    }
}

impl AreaAllocator for FixedAllocator {
    closed spec fn envelope_spec(&self, screen: (u64, u64), container: (u64, u64)) -> WidgetSize {
        self.size
    }

    fn allocate_area(&self, screen: (u64, u64), container: (u64, u64)) -> (s: WidgetSize) {
        proof {
            use_type_invariant(self);
        }
        self.size
    }
}

/// A leaf widget that always asks for the same size range and draws
/// nothing: a spacer, and the building block of layout tests.
#[derive(Debug, Clone, Copy, PartialEq, Eq, Structural)]
pub struct FixedWidget {
    pub size: WidgetSize,
}

impl FixedWidget {
    pub fn new(size: WidgetSize) -> (w: FixedWidget)
        requires
            size.valid(),
        ensures
            w == (FixedWidget { size }),
    {
        FixedWidget { size }
    }
}

impl<B> Widget<B> for FixedWidget {
    open spec fn size_spec(&self, screen: (u64, u64), container: (u64, u64)) -> WidgetSize {
        self.size
    }

    open spec fn measured_rel(&self, post: Self, screen: (u64, u64), container: (u64, u64)) -> bool {
        post == *self
    }

    open spec fn measure_allowed(&self) -> bool {
        self.size.valid()
    }

    open spec fn render_ready(&self) -> bool {
        true
    }

    open spec fn render_fits(&self, area: Rect) -> bool {
        true
    }

    proof fn lemma_measure_stable(&self, post: Self, screen: (u64, u64), container: (u64, u64)) {
    }

    fn allocate_area(&mut self, screen: (u64, u64), container: (u64, u64)) -> (s: WidgetSize) {
        self.size
    }

    fn render(&self, area: Rect, backend: &mut B) -> (r: Result<(), RenderError>) {
        Ok(())
    }
}

/// A leaf widget that draws one run of text: one cell per character, one
/// row high, submitted to the backend's drawing surface at the top-left
/// corner of the area it owns.
pub struct Label {
    pub text: String,
}

impl Label {
    pub fn new(text: String) -> (l: Label)
        ensures
            l.text@ == text@,
    {
        Label { text }
    }
}

impl<B: Backend> Widget<B> for Label {
    /// One cell per character on one row, with no give on either axis.
    open spec fn size_spec(&self, screen: (u64, u64), container: (u64, u64)) -> WidgetSize {
        WidgetSize {
            min_width: self.text@.len() as u64,
            width: self.text@.len() as u64,
            max_width: self.text@.len() as u64,
            min_height: 1,
            height: 1,
            max_height: 1,
        }
    }

    open spec fn measured_rel(&self, post: Self, screen: (u64, u64), container: (u64, u64)) -> bool {
        post.text@ == self.text@
    }

    /// The text must fit the dimension bound for its width to be a
    /// well-formed size.
    open spec fn measure_allowed(&self) -> bool {
        self.text@.len() <= MAX_DIM
    }

    open spec fn render_ready(&self) -> bool {
        true
    }

    open spec fn render_fits(&self, area: Rect) -> bool {
        true
    }

    proof fn lemma_measure_stable(&self, post: Self, screen: (u64, u64), container: (u64, u64)) {
    }

    fn allocate_area(&mut self, screen: (u64, u64), container: (u64, u64)) -> (s: WidgetSize) {
        let w = self.text.as_str().unicode_len() as u64;
        WidgetSize {
            min_width: w,
            width: w,
            max_width: w,
            min_height: 1,
            height: 1,
            max_height: 1,
        }
    }

    fn render(&self, area: Rect, backend: &mut B) -> (r: Result<(), RenderError>) {
        backend.draw_text(area.min.0, area.min.1, self.text.as_str());
        Ok(())
    }
}

} // verus!
