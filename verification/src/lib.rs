//! Reconstruction of a vector document from a handwriting-capture export.
//!
//! The library decodes per-element style declarations, resolves run-length
//! style spans over item indices, rebuilds stroke paths from parallel
//! coordinate/pressure arrays, places image elements, and assembles the
//! ordered list of drawables for one page. Geometry values are carried as
//! opaque IEEE-754 bit patterns; the surrounding application converts them
//! to and from its numeric types and performs all input/output.

pub mod config;
pub mod page;
pub mod spans;
pub mod stroke;
pub mod style;
pub mod text;
