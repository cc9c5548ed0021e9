//! Verified core of a bingo-board image renderer.
//!
//! The library lays out text inside fixed-size cells (greedy word-wrap with
//! vertical truncation), composites antialiased glyph masks onto an RGB pixel
//! buffer with per-pixel bounds checks, draws the board grid, and holds the
//! decision logic of the host-font locator. Filesystem walking, font
//! rasterization (floating point) and PNG encoding live outside, in the
//! surrounding application, which hands this crate plain values.

pub mod bingo_element;
pub mod board;
pub mod errors;
pub mod layout;
pub mod locator;
pub mod raster;
pub mod pixel;
