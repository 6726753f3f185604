//! The capability a rendering backend provides: it owns the event loop that
//! drives an application's update, measure and render phases each frame.

use vstd::prelude::*;
use crate::app::App;

verus! {

/// A rendering backend. Implementations live outside this crate (a terminal,
/// a GPU surface); the layout engine only threads a mutable borrow of the
/// backend's drawing surface down the render recursion, one widget at a
/// time.
pub trait Backend: Sized {
    /// Take over the calling thread and drive `app` through the per-frame
    /// update, measure and render cycle until the platform shuts the
    /// application down.
    fn run<A: App<Self>>(app: A);

    /// Submit one positioned text run to the drawing surface. Submission is
    /// fire-and-forget: nothing is promised of the surface, and the backend
    /// presents the frame on its own schedule.
    fn draw_text(&mut self, x: u64, y: u64, text: &str);
}

} // verus!
