//! Rays, as the index sees them.
//!
//! The index needs two answers from a ray: on which side of a splitting plane
//! the ray starts, and whether the ray passes through a given box. Whatever
//! gives these answers is a [`Probe`]. [`Ray`] is the probe that lives on the
//! grid itself: its slab test is exact, and so needs no allowance for
//! rounding. To such rays a box is a surface of its own.
//!
//! The methods of [`Probe`] name the function they compute. Of an
//! implementation written outside Verus this is taken on trust: it has to
//! answer the same question in the same way every time.

use crate::bounds::Bounds3;
use crate::hitable::{Hit, Hitable, T_MAX};
use crate::primitive::Primitive;
use crate::vec3::{Coord, Real, Vec3, Vec3Axis};
use vstd::prelude::*;

verus! {

/// A ray, as far as a bounding-volume hierarchy is concerned.
pub trait Probe {
    /// The function of the axis that `dir_is_neg` computes.
    spec fn spec_dir_is_neg(&self, axis: Vec3Axis) -> bool;

    /// Whether the ray runs towards smaller coordinates along `axis`.
    fn dir_is_neg(&self, axis: Vec3Axis) -> (neg: bool)
        ensures
            neg == self.spec_dir_is_neg(axis),
    ;

    /// The function of the box that `intersect_p` computes.
    spec fn spec_intersect_p(&self, bounds: Bounds3) -> bool;

    /// Whether the ray passes through `bounds`.
    fn intersect_p(&self, bounds: &Bounds3) -> (through: bool)
        ensures
            through == self.spec_intersect_p(*bounds),
    ;
}


/// A ray on the grid: the points `origin + t * direction` for `t >= 0`.
#[derive(Clone, Copy, Debug)]
pub struct Ray {
    pub origin: Vec3<Coord>,
    pub direction: Vec3<Coord>,
}

/// The parameters at which a ray is between two parallel faces of a box, as
/// the fractions `near / den` and `far / den` with `den > 0`.
pub struct Slab {
    pub near: int,
    pub far: int,
    pub den: int,
}

/// The slab of a ray with origin `o` and direction `d` along one axis, between
/// the faces at `lo` and `hi`, cut down to `[0, t_max]`.
///
/// A ray that runs along the faces is between them for every parameter or for
/// none.
pub open spec fn slab_of(lo: int, hi: int, o: int, d: int, t_max: int) -> Slab {
    if d > 0 {
        Slab { near: lo - o, far: hi - o, den: d }
    } else if d < 0 {
        Slab { near: o - hi, far: o - lo, den: -d }
    } else if lo <= o <= hi {
        Slab { near: 0, far: t_max, den: 1 }
    } else {
        Slab { near: 1, far: 0, den: 1 }
    }
}

/// The slab `a` begins no later than the slab `b` ends.
pub open spec fn meets(a: Slab, b: Slab) -> bool {
    a.near * b.den <= b.far * a.den
}

/// The slab has a parameter in `[0, t_max]`.
pub open spec fn in_reach(a: Slab, t_max: int) -> bool {
    a.near <= t_max * a.den && 0 <= a.far
}

impl Ray {
    /// The slab of the ray between the faces of `bounds` across `axis`.
    pub open spec fn slab(self, bounds: Bounds3, axis: Vec3Axis, t_max: int) -> Slab {
        slab_of(
            bounds.pmin.at(axis) as int,
            bounds.pmax.at(axis) as int,
            self.origin.at(axis) as int,
            self.direction.at(axis) as int,
            t_max,
        )
    }

    /// Some point `origin + t * direction` with `0 <= t <= t_max` lies in
    /// `bounds`: the three slabs of the ray have a parameter in common, and
    /// one in `[0, t_max]`.
    pub open spec fn passes(self, bounds: Bounds3, t_max: int) -> bool {
        let x = self.slab(bounds, Vec3Axis::X, t_max);
        let y = self.slab(bounds, Vec3Axis::Y, t_max);
        let z = self.slab(bounds, Vec3Axis::Z, t_max);
        &&& 0 <= t_max
        &&& in_reach(x, t_max) && in_reach(y, t_max) && in_reach(z, t_max)
        &&& meets(x, x) && meets(x, y) && meets(x, z)
        &&& meets(y, x) && meets(y, y) && meets(y, z)
        &&& meets(z, x) && meets(z, y) && meets(z, z)
    }

    pub fn new(origin: Vec3<Coord>, direction: Vec3<Coord>) -> (r: Ray)
        ensures
            r == (Ray { origin, direction }),
    {
        Ray { origin, direction }
    }

    /// The point `origin + t * direction`.
    pub fn point_at_paramter(self, t: Real) -> (p: Vec3<i128>)
        ensures
            p.0 == self.origin.0 + t * self.direction.0,
            p.1 == self.origin.1 + t * self.direction.1,
            p.2 == self.origin.2 + t * self.direction.2,
    {
        proof {
            lemma_product_fits(t as int, self.direction.0 as int);
            lemma_product_fits(t as int, self.direction.1 as int);
            lemma_product_fits(t as int, self.direction.2 as int);
        }
        Vec3(
            self.origin.0 as i128 + t as i128 * self.direction.0 as i128,
            self.origin.1 as i128 + t as i128 * self.direction.1 as i128,
            self.origin.2 as i128 + t as i128 * self.direction.2 as i128,
        )
    }
}

/// A slab with machine integers.
struct ExecSlab {
    near: i128,
    far: i128,
    den: i128,
}

impl ExecSlab {
    spec fn view(self) -> Slab {
        Slab { near: self.near as int, far: self.far as int, den: self.den as int }
    }

    /// Small enough that no product of two members of two slabs overflows.
    spec fn bounded(self) -> bool {
        &&& -0x1_0000_0000 <= self.near <= 0x1_0000_0000
        &&& -0x1_0000_0000 <= self.far <= 0x8000_0000_0000_0000
        &&& 0 < self.den <= 0x8000_0000
    }
}

fn exec_slab(lo: Coord, hi: Coord, o: Coord, d: Coord, t_max: Real) -> (s: ExecSlab)
    requires
        0 <= t_max,
    ensures
        s.view() == slab_of(lo as int, hi as int, o as int, d as int, t_max as int),
        s.bounded(),
{
    let lo = lo as i128;
    let hi = hi as i128;
    let o = o as i128;
    let d = d as i128;
    if d > 0 {
        ExecSlab { near: lo - o, far: hi - o, den: d }
    } else if d < 0 {
        ExecSlab { near: o - hi, far: o - lo, den: -d }
    } else if lo <= o && o <= hi {
        ExecSlab { near: 0, far: t_max as i128, den: 1 }
    } else {
        ExecSlab { near: 1, far: 0, den: 1 }
    }
}

fn exec_meets(a: &ExecSlab, b: &ExecSlab) -> (m: bool)
    requires
        a.bounded(),
        b.bounded(),
    ensures
        m == meets(a.view(), b.view()),
{
    proof {
        lemma_product_fits_wide(a.near as int, b.den as int);
        lemma_product_fits_wide(b.far as int, a.den as int);
    }
    a.near * b.den <= b.far * a.den
}

fn exec_in_reach(a: &ExecSlab, t_max: Real) -> (m: bool)
    requires
        a.bounded(),
        0 <= t_max,
    ensures
        m == in_reach(a.view(), t_max as int),
{
    proof {
        lemma_product_fits_wide(t_max as int, a.den as int);
    }
    a.near <= t_max as i128 * a.den && 0 <= a.far
}

proof fn lemma_product_fits(t: int, d: int)
    by (nonlinear_arith)
    requires
        -0x8000_0000_0000_0000 <= t < 0x8000_0000_0000_0000,
        -0x8000_0000 <= d < 0x8000_0000,
    ensures
        -0x4000_0000_0000_0000_0000_0000 <= t * d <= 0x4000_0000_0000_0000_0000_0000,
{
}

proof fn lemma_product_fits_wide(a: int, d: int)
    by (nonlinear_arith)
    requires
        -0x1_0000_0000 <= a <= 0x8000_0000_0000_0000,
        0 < d <= 0x8000_0000,
    ensures
        -0x8000_0000_0000_0000 <= a * d <= 0x4000_0000_0000_0000_0000_0000,
{
}

impl Bounds3 {
    /// Whether the ray passes through the box at a parameter in
    /// `[0, t_max]`, by the slab method.
    pub fn intersect_p(&self, ray: &Ray, t_max: &Real) -> (through: bool)
        ensures
            through == ray.passes(*self, *t_max as int),
    {
        let t_max = *t_max;
        if t_max < 0 {
            return false;
        }
        let x = exec_slab(self.pmin.0, self.pmax.0, ray.origin.0, ray.direction.0, t_max);
        let y = exec_slab(self.pmin.1, self.pmax.1, ray.origin.1, ray.direction.1, t_max);
        let z = exec_slab(self.pmin.2, self.pmax.2, ray.origin.2, ray.direction.2, t_max);
        exec_in_reach(&x, t_max) && exec_in_reach(&y, t_max) && exec_in_reach(&z, t_max)
            && exec_meets(&x, &x) && exec_meets(&x, &y) && exec_meets(&x, &z)
            && exec_meets(&y, &x) && exec_meets(&y, &y) && exec_meets(&y, &z)
            && exec_meets(&z, &x) && exec_meets(&z, &y) && exec_meets(&z, &z)
    }
}

impl Probe for Ray {
    open spec fn spec_dir_is_neg(&self, axis: Vec3Axis) -> bool {
        self.direction.at(axis) < 0
    }

    fn dir_is_neg(&self, axis: Vec3Axis) -> (neg: bool) {
        self.direction.get_axis(axis) < 0
    }

    open spec fn spec_intersect_p(&self, bounds: Bounds3) -> bool {
        self.passes(bounds, T_MAX as int)
    }

    fn intersect_p(&self, bounds: &Bounds3) -> (through: bool) {
        bounds.intersect_p(self, &T_MAX)
    }
}

/// The number of whole steps of the direction after which the ray is between
/// the faces of the slab.
pub open spec fn entry_of(a: Slab) -> int {
    if a.near > 0 {
        a.near / a.den
    } else {
        0
    }
}

pub open spec fn max_int(a: int, b: int) -> int {
    if b > a {
        b
    } else {
        a
    }
}

impl Ray {
    /// The number of whole steps of the direction after which the ray is
    /// inside `bounds`, for a ray that passes through it.
    pub open spec fn entry(self, bounds: Bounds3) -> int {
        max_int(
            entry_of(self.slab(bounds, Vec3Axis::X, T_MAX as int)),
            max_int(
                entry_of(self.slab(bounds, Vec3Axis::Y, T_MAX as int)),
                entry_of(self.slab(bounds, Vec3Axis::Z, T_MAX as int)),
            ),
        )
    }
}

fn exec_entry(a: &ExecSlab) -> (t: Real)
    requires
        a.bounded(),
    ensures
        t == entry_of(a.view()),
        0 <= t <= 0x1_0000_0000,
{
    if a.near > 0 {
        let q: i128 = a.near / a.den;
        assert(0 <= q <= a.near) by (nonlinear_arith)
            requires
                q == a.near as int / a.den as int,
                a.near > 0,
                a.den > 0,
        ;
        q as Real
    } else {
        0
    }
}

/// To a ray on the grid a box is a surface: the ray hits it where it passes
/// through it, at the whole number of steps after which it is inside.
impl Hitable for Bounds3 {
    type Ray = Ray;

    type Detail = ();

    open spec fn spec_hit(&self, r: &Ray) -> Option<Hit<()>> {
        if r.passes(*self, T_MAX as int) {
            Some(Hit { t: r.entry(*self) as Real, detail: () })
        } else {
            None
        }
    }

    fn hit(&self, r: &Ray) -> (h: Option<Hit<()>>) {
        if !self.intersect_p(r, &T_MAX) {
            return None;
        }
        let x = exec_slab(self.pmin.0, self.pmax.0, r.origin.0, r.direction.0, T_MAX);
        let y = exec_slab(self.pmin.1, self.pmax.1, r.origin.1, r.direction.1, T_MAX);
        let z = exec_slab(self.pmin.2, self.pmax.2, r.origin.2, r.direction.2, T_MAX);
        let mut t = exec_entry(&y);
        let tz = exec_entry(&z);
        if tz > t {
            t = tz;
        }
        let tx = exec_entry(&x);
        let t = if t > tx {
            t
        } else {
            tx
        };
        Some(Hit { t, detail: () })
    }
}

/// A box is its own bound.
impl Primitive for Bounds3 {
    open spec fn spec_world_bound(&self) -> Bounds3 {
        *self
    }

    fn world_bound(&self) -> (b: Bounds3) {
        *self
    }
}

/// A slab between faces that lie further apart holds the slab between those
/// that lie closer.
proof fn lemma_slab_widens(lo: int, hi: int, lo2: int, hi2: int, o: int, d: int, t_max: int)
    requires
        lo2 <= lo,
        hi <= hi2,
        0 <= t_max,
    ensures
        ({
            let a = slab_of(lo, hi, o, d, t_max);
            let b = slab_of(lo2, hi2, o, d, t_max);
            a.near <= a.far ==> b.den == a.den && a.den > 0 && b.near <= a.near && a.far <= b.far
        }),
{
}

/// Where one slab begins no later than another ends, the same holds of two
/// slabs that hold them.
proof fn lemma_meets_widens(a: Slab, b: Slab, a2: Slab, b2: Slab)
    by (nonlinear_arith)
    requires
        meets(a, b),
        a2.den == a.den,
        b2.den == b.den,
        a.den > 0,
        b.den > 0,
        a2.near <= a.near,
        b.far <= b2.far,
    ensures
        meets(a2, b2),
{
}

/// Where a slab has a parameter in reach, so has a slab that holds it.
proof fn lemma_in_reach_widens(a: Slab, a2: Slab, t_max: int)
    requires
        in_reach(a, t_max),
        a2.den == a.den,
        a2.near <= a.near,
        a.far <= a2.far,
    ensures
        in_reach(a2, t_max),
{
}

/// Where a slab begins no later than it ends itself, its ends are in order.
proof fn lemma_meets_itself(a: Slab)
    by (nonlinear_arith)
    requires
        meets(a, a),
        a.den > 0,
    ensures
        a.near <= a.far,
{
}

/// A ray that passes through a box passes through every box that encloses
/// it.
pub proof fn lemma_passes_enclosing(ray: Ray, inner: Bounds3, outer: Bounds3, t_max: int)
    requires
        ray.passes(inner, t_max),
        outer.encloses(inner),
    ensures
        ray.passes(outer, t_max),
{
    let x = ray.slab(inner, Vec3Axis::X, t_max);
    let y = ray.slab(inner, Vec3Axis::Y, t_max);
    let z = ray.slab(inner, Vec3Axis::Z, t_max);
    let x2 = ray.slab(outer, Vec3Axis::X, t_max);
    let y2 = ray.slab(outer, Vec3Axis::Y, t_max);
    let z2 = ray.slab(outer, Vec3Axis::Z, t_max);
    assert(x.den > 0 && y.den > 0 && z.den > 0);
    lemma_meets_itself(x);
    lemma_meets_itself(y);
    lemma_meets_itself(z);
    lemma_slab_widens(
        inner.pmin.0 as int,
        inner.pmax.0 as int,
        outer.pmin.0 as int,
        outer.pmax.0 as int,
        ray.origin.0 as int,
        ray.direction.0 as int,
        t_max,
    );
    lemma_slab_widens(
        inner.pmin.1 as int,
        inner.pmax.1 as int,
        outer.pmin.1 as int,
        outer.pmax.1 as int,
        ray.origin.1 as int,
        ray.direction.1 as int,
        t_max,
    );
    lemma_slab_widens(
        inner.pmin.2 as int,
        inner.pmax.2 as int,
        outer.pmin.2 as int,
        outer.pmax.2 as int,
        ray.origin.2 as int,
        ray.direction.2 as int,
        t_max,
    );
    lemma_in_reach_widens(x, x2, t_max);
    lemma_in_reach_widens(y, y2, t_max);
    lemma_in_reach_widens(z, z2, t_max);
    lemma_meets_widens(x, x, x2, x2);
    lemma_meets_widens(x, y, x2, y2);
    lemma_meets_widens(x, z, x2, z2);
    lemma_meets_widens(y, x, y2, x2);
    lemma_meets_widens(y, y, y2, y2);
    lemma_meets_widens(y, z, y2, z2);
    lemma_meets_widens(z, x, z2, x2);
    lemma_meets_widens(z, y, z2, y2);
    lemma_meets_widens(z, z, z2, z2);
}

} // verus!
