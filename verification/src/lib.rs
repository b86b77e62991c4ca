//! Rendering of fractal attractors by the chaos game: polygon geometry, the
//! membership test for convex polygons, the step functions that move the
//! cursor, and the saturating pixel accumulators.

pub mod accumulator;
pub mod affine;
pub mod driver;
pub mod engine;
pub mod geometry;
pub(crate) mod random;
