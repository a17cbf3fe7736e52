//! A small ray-tracing core over fixed-point arithmetic.
//!
//! Every coordinate, distance and color channel is a signed 64-bit integer
//! counting millionths of a unit (see [`math::UNIT`]), so all geometry is
//! exact integer arithmetic with explicitly specified rounding.

pub mod camera;
pub mod color;
pub mod geometry;
pub mod groups;
pub mod integrators;
pub mod lights;
pub mod materials;
pub mod math;
pub mod ray;
pub mod world;
