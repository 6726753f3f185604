//! Handles for textures a rendering backend owns.

use vstd::prelude::*;
use std::sync::Arc;

verus! {

/// A shared handle to a backend-side texture. Cloning the handle shares the
/// same texture; the backend keeps the texture alive while any handle
/// exists.
#[derive(Debug, Clone)]
pub struct TextureId {
    id: Arc<usize>,
}

impl TextureId {
    /// The backend-side slot this handle names.
    pub closed spec fn id_spec(&self) -> usize {
        *self.id
    }

    /// Wrap a backend-side texture slot in a shared handle.
    pub fn new(id: usize) -> (t: TextureId)
        ensures
            t.id_spec() == id,
    {
        TextureId { id: Arc::new(id) }
    }

    /// The backend-side slot this handle names.
    pub fn id(&self) -> (id: usize)
        ensures
            id == self.id_spec(),
    {
        *self.id
    }
}

} // verus!
