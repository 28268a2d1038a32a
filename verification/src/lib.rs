//! A software 2D rendering core: an RGBA color model, a raster canvas with
//! pixel-level primitives (fill, blend, gradients, rounded rectangles, lines,
//! box-blurred shadows), a fixed-point per-pixel shader engine, a compiler
//! from declarative effect stacks to ordered render graphs, and the data
//! model of a rendering backend abstraction.
//!
//! All fractional quantities are carried in fixed-point integers so that
//! every computation is exact and fully specified.

pub mod backend;
pub mod canvas;
pub mod color;
pub mod effects;
pub mod fixed;
pub mod shader;
pub mod shadow;
pub mod ui;
