//! A single render layer index.

use vstd::prelude::*;

verus! {

/// The index of the default render layer.
///
/// Every object and every camera with no explicit layer configuration behaves
/// as if it carried exactly this layer.
pub const DEFAULT_RENDER_LAYER: usize = 0;

/// Wraps a specific render layer that can be stored in a
/// [`RenderLayers`](crate::layers::RenderLayers) bitmask.
///
/// Stores an index into the bitmask. Index 0 is the reserved default layer;
/// no upper bound is enforced, so very large indices cause proportional
/// allocation in the bitmask that stores them.
#[derive(Debug, Copy, Clone, Eq, PartialEq, Ord, PartialOrd, Structural)]
pub struct RenderLayer(pub usize);

impl RenderLayer {
    /// Returns `true` if this is the default layer ([`DEFAULT_RENDER_LAYER`]).
    pub fn is_default(&self) -> (r: bool)
        ensures
            r == (self.0 == DEFAULT_RENDER_LAYER),
    {
        self.0 == DEFAULT_RENDER_LAYER
    }
}

impl Default for RenderLayer {
    /// Returns the default layer ([`DEFAULT_RENDER_LAYER`]).
    fn default() -> (r: Self)
        ensures
            r.0 == DEFAULT_RENDER_LAYER,
    {
        RenderLayer(DEFAULT_RENDER_LAYER)
    }
}

} // verus!
