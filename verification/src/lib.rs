//! A minimal verified ray tracer.
//!
//! The library casts one ray per pixel from a fixed camera through a scene
//! of spheres, finds the nearest surface hit, shades it with additive
//! point-light diffuse lighting, and produces a flat RGB byte buffer.
//!
//! Every scalar is a signed 64-bit fixed-point number (see [`fixed`]), so
//! the whole pipeline is exact integer arithmetic with verified contracts:
//! each public function's result is pinned down by a specification-level
//! mirror of the computation.

pub mod fixed;
pub mod vec3;
pub mod scene;
pub mod render;
