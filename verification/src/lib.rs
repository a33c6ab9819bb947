//! Verified core of a small retained-mode UI toolkit: colours, vertex batches,
//! glyph-atlas packing, the input-event queue and reactive dependency tracking.
pub mod color;
pub mod data;
pub mod font;
pub mod context;
pub mod runtime;
pub mod bx;
