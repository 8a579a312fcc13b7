//! Marker components for UI text nodes.
//!
//! These carry the text content and scheduling flags that the surrounding
//! text layout systems read; the layout work itself happens outside this
//! crate.

use vstd::prelude::*;

verus! {

/// UI text system flags.
///
/// Used by the text layout systems to schedule a text node for processing.
#[derive(Debug, Clone)]
pub struct TextNodeFlags {
    /// If set, a new measure function for the text node will be created.
    pub needs_measure_fn: bool,
    /// If set, the text will be recomputed.
    pub needs_recompute: bool,
}

impl Default for TextNodeFlags {
    /// A fresh text node needs both a measure function and a recompute pass.
    fn default() -> (r: Self)
        ensures
            r.needs_measure_fn,
            r.needs_recompute,
    {
        TextNodeFlags { needs_measure_fn: true, needs_recompute: true }
    }
}

/// The top-level UI text component.
///
/// If a string is specified, it behaves as if it had a "first" [`TextSpan`]
/// child.
#[derive(Debug, Clone)]
pub struct TextNEW(pub String);

/// A span of text in a tree of spans under an entity with a top-level text
/// component.
///
/// Spans are collected in hierarchy traversal order into one block for
/// layout.
#[derive(Debug, Clone)]
pub struct TextSpan(pub String);

} // verus!
