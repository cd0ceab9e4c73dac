//! Core of a software ray tracer: the pixel canvas and its export formats,
//! intersection bookkeeping and nearest-hit selection, the tile scheduler of
//! the parallel renderer, and the structural part of the matrix kernel.
//!
//! Scalar quantities (color channels, matrix entries) are carried as opaque
//! 32-bit words, and ray distances as order-encoded 64-bit keys, so that every
//! algorithm here is exact and fully specified; numeric evaluation of those
//! quantities lives with the caller.

pub mod canvas;
pub mod color;
pub mod intersections;
pub mod matrix;
pub mod ppm;
pub mod render;
pub mod shape;
pub mod transformation;
