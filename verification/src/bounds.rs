//! Axis-aligned bounding boxes on the integer grid.

use crate::vec3::{Coord, Real, Vec3, Vec3Axis};
use vstd::prelude::*;

verus! {

pub open spec fn min_coord(a: Coord, b: Coord) -> Coord {
    if b < a {
        b
    } else {
        a
    }
}

pub open spec fn max_coord(a: Coord, b: Coord) -> Coord {
    if b > a {
        b
    } else {
        a
    }
}

/// An axis-aligned box, given by its two extreme corners.
///
/// A box is *valid* when `pmin <= pmax` on every axis. Nothing stops a caller
/// from making an invalid one with [`Bounds3::new`]; the union of two valid
/// boxes is valid.
#[derive(Clone, Copy, Debug)]
pub struct Bounds3 {
    pub pmin: Vec3<Coord>,
    pub pmax: Vec3<Coord>,
}

impl Bounds3 {
    /// `pmin <= pmax` on every axis.
    pub open spec fn is_valid(self) -> bool {
        &&& self.pmin.0 <= self.pmax.0
        &&& self.pmin.1 <= self.pmax.1
        &&& self.pmin.2 <= self.pmax.2
    }

    /// Every point of `inner` lies in `self`, axis by axis.
    pub open spec fn encloses(self, inner: Bounds3) -> bool {
        &&& self.pmin.0 <= inner.pmin.0 && inner.pmax.0 <= self.pmax.0
        &&& self.pmin.1 <= inner.pmin.1 && inner.pmax.1 <= self.pmax.1
        &&& self.pmin.2 <= inner.pmin.2 && inner.pmax.2 <= self.pmax.2
    }

    /// The point `p` lies in `self`.
    pub open spec fn contains_point(self, p: Vec3<Coord>) -> bool {
        &&& self.pmin.0 <= p.0 <= self.pmax.0
        &&& self.pmin.1 <= p.1 <= self.pmax.1
        &&& self.pmin.2 <= p.2 <= self.pmax.2
    }

    /// The box that holds exactly the point `p`.
    pub open spec fn point(p: Vec3<Coord>) -> Bounds3 {
        Bounds3 { pmin: p, pmax: p }
    }

    /// The smallest box that encloses both `a` and `b`.
    pub open spec fn spec_union(a: Bounds3, b: Bounds3) -> Bounds3 {
        Bounds3 {
            pmin: Vec3(
                min_coord(a.pmin.0, b.pmin.0),
                min_coord(a.pmin.1, b.pmin.1),
                min_coord(a.pmin.2, b.pmin.2),
            ),
            pmax: Vec3(
                max_coord(a.pmax.0, b.pmax.0),
                max_coord(a.pmax.1, b.pmax.1),
                max_coord(a.pmax.2, b.pmax.2),
            ),
        }
    }

    /// The length of the box along `axis`; negative where the box is invalid.
    pub open spec fn extent(self, axis: Vec3Axis) -> int {
        self.pmax.at(axis) - self.pmin.at(axis)
    }

    /// The corner-to-corner vector `pmax - pmin`.
    pub open spec fn spec_diagonal(self) -> Vec3<Real> {
        Vec3(
            (self.pmax.0 - self.pmin.0) as Real,
            (self.pmax.1 - self.pmin.1) as Real,
            (self.pmax.2 - self.pmin.2) as Real,
        )
    }

    /// Twice the sum of the areas of the three pairs of faces.
    pub open spec fn spec_surface_area(self) -> int {
        let dx = self.extent(Vec3Axis::X);
        let dy = self.extent(Vec3Axis::Y);
        let dz = self.extent(Vec3Axis::Z);
        2 * (dx * dy + dx * dz + dy * dz)
    }

    /// The axis along which the box is longest: `X` where the box is longer
    /// along `X` than along both others, else `Y` where it is longer along
    /// `Y` than along `Z`, else `Z`.
    pub open spec fn spec_maximum_extent(self) -> Vec3Axis {
        let dx = self.extent(Vec3Axis::X);
        let dy = self.extent(Vec3Axis::Y);
        let dz = self.extent(Vec3Axis::Z);
        if dx > dy && dx > dz {
            Vec3Axis::X
        } else if dy > dz {
            Vec3Axis::Y
        } else {
            Vec3Axis::Z
        }
    }

    /// The midpoint of the box, rounded towards the lower corner on each axis.
    pub open spec fn spec_centroid(self) -> Vec3<Coord> {
        Vec3(
            midpoint(self.pmin.0, self.pmax.0),
            midpoint(self.pmin.1, self.pmax.1),
            midpoint(self.pmin.2, self.pmax.2),
        )
    }

    pub fn new(pmin: Vec3<Coord>, pmax: Vec3<Coord>) -> (b: Bounds3)
        ensures
            b == (Bounds3 { pmin, pmax }),
    {
        Bounds3 { pmin, pmax }
    }

    pub fn diagonal(&self) -> (d: Vec3<Real>)
        ensures
            d == self.spec_diagonal(),
            d.0 == self.extent(Vec3Axis::X),
            d.1 == self.extent(Vec3Axis::Y),
            d.2 == self.extent(Vec3Axis::Z),
    {
        Vec3(
            self.pmax.0 as Real - self.pmin.0 as Real,
            self.pmax.1 as Real - self.pmin.1 as Real,
            self.pmax.2 as Real - self.pmin.2 as Real,
        )
    }

    pub fn surface_area(&self) -> (area: i128)
        ensures
            area == self.spec_surface_area(),
    {
        let d = self.diagonal();
        let dx: i128 = d.0 as i128;
        let dy: i128 = d.1 as i128;
        let dz: i128 = d.2 as i128;
        proof {
            lemma_product_bound(dx as int, dy as int);
            lemma_product_bound(dx as int, dz as int);
            lemma_product_bound(dy as int, dz as int);
        }
        2 * (dx * dy + dx * dz + dy * dz)
    }

    pub fn maximum_extent(&self) -> (axis: Vec3Axis)
        ensures
            axis == self.spec_maximum_extent(),
    {
        let d = self.diagonal();
        if d.0 > d.1 && d.0 > d.2 {
            Vec3Axis::X
        } else if d.1 > d.2 {
            Vec3Axis::Y
        } else {
            Vec3Axis::Z
        }
    }

    pub fn union(a: &Bounds3, b: &Bounds3) -> (u: Bounds3)
        ensures
            u == Bounds3::spec_union(*a, *b),
    {
        let mut new_bound = *a;
        if b.pmin.0 < a.pmin.0 {
            new_bound.pmin.0 = b.pmin.0;
        }
        if b.pmax.0 > a.pmax.0 {
            new_bound.pmax.0 = b.pmax.0;
        }
        if b.pmin.1 < a.pmin.1 {
            new_bound.pmin.1 = b.pmin.1;
        }
        if b.pmax.1 > a.pmax.1 {
            new_bound.pmax.1 = b.pmax.1;
        }
        if b.pmin.2 < a.pmin.2 {
            new_bound.pmin.2 = b.pmin.2;
        }
        if b.pmax.2 > a.pmax.2 {
            new_bound.pmax.2 = b.pmax.2;
        }
        new_bound
    }

    pub fn union_vec(&self, b: &Vec3<Coord>) -> (u: Bounds3)
        ensures
            u == Bounds3::spec_union(*self, Bounds3::point(*b)),
            u.encloses(*self),
            u.contains_point(*b),
    {
        let p = Bounds3 { pmin: *b, pmax: *b };
        Bounds3::union(self, &p)
    }

    /// The midpoint of the box.
    pub fn centroid(&self) -> (c: Vec3<Coord>)
        ensures
            c == self.spec_centroid(),
    {
        Vec3(
            midpoint_of(self.pmin.0, self.pmax.0),
            midpoint_of(self.pmin.1, self.pmax.1),
            midpoint_of(self.pmin.2, self.pmax.2),
        )
    }
}

/// The grid point halfway between `a` and `b`, rounded towards the smaller.
pub open spec fn midpoint(a: Coord, b: Coord) -> Coord {
    let lo = min_coord(a, b);
    let hi = max_coord(a, b);
    (lo + (hi - lo) / 2) as Coord
}

fn midpoint_of(a: Coord, b: Coord) -> (m: Coord)
    ensures
        m == midpoint(a, b),
        min_coord(a, b) <= m <= max_coord(a, b),
{
    let lo: Real = if b < a { b as Real } else { a as Real };
    let hi: Real = if b > a { b as Real } else { a as Real };
    let m: Real = lo + (hi - lo) / 2;
    m as Coord
}

proof fn lemma_product_bound(a: int, b: int)
    by (nonlinear_arith)
    requires
        -0x1_0000_0000 < a < 0x1_0000_0000,
        -0x1_0000_0000 < b < 0x1_0000_0000,
    ensures
        -0x1_0000_0000_0000_0000 < a * b < 0x1_0000_0000_0000_0000,
{
}

/// The union does not depend on the order of its operands.
pub proof fn lemma_union_commutative(a: Bounds3, b: Bounds3)
    ensures
        Bounds3::spec_union(a, b) == Bounds3::spec_union(b, a),
{
}

/// The union of a box with itself is that box.
pub proof fn lemma_union_idempotent(a: Bounds3)
    ensures
        Bounds3::spec_union(a, a) == a,
{
}

/// The union encloses both of its operands on every axis, and every box that
/// encloses both operands encloses the union.
pub proof fn lemma_union_encloses(a: Bounds3, b: Bounds3)
    ensures
        Bounds3::spec_union(a, b).encloses(a),
        Bounds3::spec_union(a, b).encloses(b),
        forall|c: Bounds3| c.encloses(a) && c.encloses(b) ==> c.encloses(Bounds3::spec_union(a, b)),
{
}

/// Grouping does not matter when three boxes are united.
pub proof fn lemma_union_associative(a: Bounds3, b: Bounds3, c: Bounds3)
    ensures
        Bounds3::spec_union(Bounds3::spec_union(a, b), c) == Bounds3::spec_union(
            a,
            Bounds3::spec_union(b, c),
        ),
{
}

/// The union of two valid boxes is valid.
pub proof fn lemma_union_valid(a: Bounds3, b: Bounds3)
    requires
        a.is_valid(),
        b.is_valid(),
    ensures
        Bounds3::spec_union(a, b).is_valid(),
{
}

} // verus!
