//! The root of an application's widget tree.

use vstd::prelude::*;
use crate::widget::Widget;

verus! {

/// An application is a widget that can stand at the root of the tree the
/// backend's event loop drives.
pub trait App<B>: Widget<B> {

}

} // verus!
