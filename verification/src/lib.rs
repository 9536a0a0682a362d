//! Core of a Monte-Carlo path tracer: the integer logic of the rendering
//! pipeline, verified. The floating-point geometry, materials and camera live
//! in the surrounding application; this crate owns the deterministic random
//! number generator, the pixel grid and its order-independent reassembly, the
//! procedural-noise permutation tables, the packed-color byte layout and the
//! textual pixel-stream encoding.

pub mod color;
pub mod perlin;
pub mod sampling;
pub mod types;
pub mod utils;
