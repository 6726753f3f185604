//! A flexbox-style layout engine for a retained-describe, immediate-render
//! widget toolkit.
//!
//! Widgets report the size they would like through a two-pass measurement
//! protocol ([`Widget::allocate_area`]); containers resolve wrap lines,
//! shrink overflowing content and distribute leftover space according to
//! CSS-like alignment policies; rendering then hands each child its resolved
//! sub-rectangle of the screen.
//!
//! All coordinates and sizes are unsigned integers. Every division rounds
//! down and every subtraction that would go below zero stops at zero; this
//! is the one rounding rule used throughout the crate.

pub mod app;
pub mod backend;
pub mod containers;
pub mod rect;
pub mod runner;
pub mod texture;
pub mod widget;

pub use app::App;
pub use containers::{AlignContent, AlignItems, Div, FlexWrap, Flexbox, JustifyContent};
pub use backend::Backend;
pub use rect::Rect;
pub use runner::run;
pub use texture::TextureId;
pub use widget::{AreaAllocator, FixedAllocator, FixedWidget, Label, RenderError, Widget, WidgetSize};

use vstd::prelude::*;

verus! {

/// Largest size, in layout units, that a well-formed dimension may take.
/// Keeping every dimension below this bound keeps all layout arithmetic,
/// including sums over a whole widget tree, far away from `u64` overflow.
pub const MAX_DIM: u64 = 0x1000_0000;

} // verus!

