//! The bridge between geometry and the index: a surface that knows its box.
//!
//! As with [`Hitable`], a surface written outside Verus is trusted to give
//! the same box every time it is asked. The one surface that the library
//! brings itself is the box on the grid, in [`crate::ray`].

use crate::bounds::Bounds3;
use crate::hitable::Hitable;
use vstd::prelude::*;

verus! {

/// A surface that can be placed in a bounding-volume hierarchy.
pub trait Primitive: Hitable {
    /// The function that `world_bound` computes.
    spec fn spec_world_bound(&self) -> Bounds3;

    /// A box that encloses the surface in world space.
    fn world_bound(&self) -> (b: Bounds3)
        ensures
            b == self.spec_world_bound(),
    ;
}

} // verus!
