//! Dynamic group-membership bitmasks for per-camera visibility.
//!
//! The crate decides, for a renderable object and a viewer (camera), whether
//! the object is visible to that viewer. Objects and cameras each carry a
//! growable bitmask of layer indices; an object may also be affiliated with
//! one specific camera directly, which bypasses layer matching.

pub mod bits;
pub mod groups;
pub mod layer;
pub mod layers;
pub mod storage;
pub mod text;

pub use groups::{CameraView, Entity, RenderGroups};
pub use layer::{RenderLayer, DEFAULT_RENDER_LAYER};
pub use layers::RenderLayers;
pub use text::{TextNodeFlags, TextSpan, TextNEW};
