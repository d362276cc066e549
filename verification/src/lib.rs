//! Widgets for a retained-mode UI toolkit: a two-dimensional grid layout
//! container and a value-validating text input.
//!
//! The heart of the crate is the grid layout engine: given a matrix of
//! child descriptors (each with its own sizing preferences), it computes
//! row heights and column widths that respect per-child constraints,
//! spacing and padding, and then positions every cell without overlap.

pub mod decimal;
pub mod geometry;
pub mod grid;
pub mod parsed_input;
pub mod track;
