//! An offline Monte Carlo path tracer over exact signed fixed-point
//! arithmetic: vector/point algebra with bound/free/unit distinctions,
//! ray-sphere intersection, polymorphic material scattering, a recursive
//! radiance estimator with depth cutoff, a thin-lens camera, and a
//! multi-sample pixel accumulator with gamma-2 encoding to 8-bit channels.
//!
//! Every scalar is an `i64` holding a real number scaled by `fixed::SCALE`
//! (nine fractional decimal digits), so all arithmetic is exact integer
//! arithmetic with truncation toward zero, and the geometry and shading
//! rules are stated and proved over the mathematical integers.

pub mod camera;
pub mod color;
pub mod fixed;
pub mod laws;
pub mod material;
pub mod objects;
pub mod point;
pub mod ray;
pub mod render;
pub mod rng;
pub mod vec3;

pub use fixed::SCALE;
