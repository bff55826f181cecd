//! Verified core of a Monte-Carlo path tracer.
//!
//! The library holds what a renderer decides, and leaves to its user what a
//! renderer computes in floating point:
//!
//! - [`bounds`] and [`vec3`]: axis-aligned boxes and vectors on an integer
//!   grid;
//! - [`bvh_accel`], with [`bvh_build`], [`bvh_linear`] and [`select`]: a
//!   bounding-volume hierarchy, built by median splits, laid out in an array
//!   and walked with an explicit stack;
//! - [`hitable`] and [`primitive`]: the interface of a surface, and the
//!   linear scan that the hierarchy is measured against;
//! - [`ray`]: the interface of a ray, rays on the grid with an exact slab
//!   test, and the box on the grid as a surface for such rays;
//! - [`pdf`]: sampling densities, the density of a light, and the even
//!   mixture of two densities;
//! - [`materials`] and [`integrator`]: the interface of a material, and the
//!   recursive estimator of the light along a ray, cut off at a fixed depth;
//! - [`utils`]: clamping, bisection and linear interpolation.

pub mod bounds;
pub mod bvh_accel;
pub mod bvh_build;
pub mod bvh_linear;
pub mod hitable;
pub mod integrator;
pub mod materials;
pub mod pdf;
pub mod primitive;
pub mod ray;
pub mod select;
pub mod utils;
pub mod vec3;
