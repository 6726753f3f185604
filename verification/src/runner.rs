//! Entry point that hands an application to its backend's event loop.

use vstd::prelude::*;
use crate::app::App;
use crate::backend::Backend;

verus! {

/// Run `app` under the backend `B`: the backend's event loop takes over the
/// calling thread and drives the update, measure and render cycle.
pub fn run<B: Backend, A: App<B>>(app: A) {
    B::run(app)
}

} // verus!
