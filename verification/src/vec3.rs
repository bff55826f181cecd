//! Axes and three-component vectors.
//!
//! The library works on an integer grid: a coordinate is a [`Coord`], and
//! whatever is derived from coordinates by subtraction or comparison of
//! distances is a [`Real`], which is wide enough that no such operation
//! overflows.

use vstd::prelude::*;

verus! {

/// A grid coordinate.
pub type Coord = i32;

/// A scalar of the library: an extent, or a distance along a ray.
pub type Real = i64;

/// One of the three coordinate axes.
#[derive(Clone, Copy, Debug, PartialEq, Eq, Structural)]
pub enum Vec3Axis {
    X,
    Y,
    Z,
}

impl Vec3Axis {
    /// The position of the axis in `[X, Y, Z]`.
    pub open spec fn spec_index(self) -> int {
        match self {
            Vec3Axis::X => 0,
            Vec3Axis::Y => 1,
            Vec3Axis::Z => 2,
        }
    }

    pub fn to_index(self) -> (i: usize)
        ensures
            i == self.spec_index(),
    {
        match self {
            Vec3Axis::X => 0,
            Vec3Axis::Y => 1,
            Vec3Axis::Z => 2,
        }
    }
}

/// A vector of three components.
#[derive(Debug)]
pub struct Vec3<T>(pub T, pub T, pub T);

impl<T: Copy> Clone for Vec3<T> {
    fn clone(&self) -> (v: Self)
        ensures
            v == *self,
    {
        *self
    }
}

impl<T: Copy> Copy for Vec3<T> {

}

impl<T: Copy> Vec3<T> {
    /// The component along `axis`.
    pub open spec fn at(self, axis: Vec3Axis) -> T {
        match axis {
            Vec3Axis::X => self.0,
            Vec3Axis::Y => self.1,
            Vec3Axis::Z => self.2,
        }
    }

    /// The vector with the component along `axis` replaced by `value`.
    pub open spec fn with(self, axis: Vec3Axis, value: T) -> Vec3<T> {
        match axis {
            Vec3Axis::X => Vec3(value, self.1, self.2),
            Vec3Axis::Y => Vec3(self.0, value, self.2),
            Vec3Axis::Z => Vec3(self.0, self.1, value),
        }
    }

    pub fn new(x: T, y: T, z: T) -> (v: Vec3<T>)
        ensures
            v == Vec3(x, y, z),
    {
        Vec3(x, y, z)
    }

    pub fn x(&self) -> (c: T)
        ensures
            c == self.0,
    {
        self.0
    }

    pub fn y(&self) -> (c: T)
        ensures
            c == self.1,
    {
        self.1
    }

    pub fn z(&self) -> (c: T)
        ensures
            c == self.2,
    {
        self.2
    }

    pub fn get_axis(&self, axis: Vec3Axis) -> (c: T)
        ensures
            c == self.at(axis),
    {
        match axis {
            Vec3Axis::X => self.0,
            Vec3Axis::Y => self.1,
            Vec3Axis::Z => self.2,
        }
    }

    pub fn set_axis(&mut self, axis: Vec3Axis, value: T)
        ensures
            *final(self) == old(self).with(axis, value),
    {
        match axis {
            Vec3Axis::X => {
                self.0 = value;
            },
            Vec3Axis::Y => {
                self.1 = value;
            },
            Vec3Axis::Z => {
                self.2 = value;
            },
        }
    }
}


impl Vec3<Coord> {
    /// The inner product of two grid vectors.
    pub open spec fn spec_dot(self, b: Vec3<Coord>) -> int {
        self.0 * b.0 + self.1 * b.1 + self.2 * b.2
    }

    /// The vector product of two grid vectors.
    pub open spec fn spec_cross(self, b: Vec3<Coord>) -> Vec3<int> {
        Vec3(self.1 * b.2 - self.2 * b.1, self.2 * b.0 - self.0 * b.2, self.0 * b.1 - self.1 * b.0)
    }

    pub fn dot(self, b: Vec3<Coord>) -> (d: i128)
        ensures
            d == self.spec_dot(b),
    {
        proof {
            lemma_coord_product(self.0 as int, b.0 as int);
            lemma_coord_product(self.1 as int, b.1 as int);
            lemma_coord_product(self.2 as int, b.2 as int);
        }
        self.0 as i128 * b.0 as i128 + self.1 as i128 * b.1 as i128 + self.2 as i128 * b.2 as i128
    }

    pub fn cross(self, b: Vec3<Coord>) -> (c: Vec3<i128>)
        ensures
            c.0 == self.spec_cross(b).0,
            c.1 == self.spec_cross(b).1,
            c.2 == self.spec_cross(b).2,
    {
        proof {
            lemma_coord_product(self.1 as int, b.2 as int);
            lemma_coord_product(self.2 as int, b.1 as int);
            lemma_coord_product(self.2 as int, b.0 as int);
            lemma_coord_product(self.0 as int, b.2 as int);
            lemma_coord_product(self.0 as int, b.1 as int);
            lemma_coord_product(self.1 as int, b.0 as int);
        }
        Vec3(
            self.1 as i128 * b.2 as i128 - self.2 as i128 * b.1 as i128,
            self.2 as i128 * b.0 as i128 - self.0 as i128 * b.2 as i128,
            self.0 as i128 * b.1 as i128 - self.1 as i128 * b.0 as i128,
        )
    }

    /// The square of the length of the vector.
    pub fn squared_length(&self) -> (l: i128)
        ensures
            l == self.spec_dot(*self),
            l >= 0,
    {
        proof {
            lemma_coord_product(self.0 as int, self.0 as int);
            lemma_coord_product(self.1 as int, self.1 as int);
            lemma_coord_product(self.2 as int, self.2 as int);
            lemma_square_not_negative(self.0 as int);
            lemma_square_not_negative(self.1 as int);
            lemma_square_not_negative(self.2 as int);
        }
        self.0 as i128 * self.0 as i128 + self.1 as i128 * self.1 as i128 + self.2 as i128
            * self.2 as i128
    }
}

proof fn lemma_coord_product(a: int, b: int)
    by (nonlinear_arith)
    requires
        -0x8000_0000 <= a < 0x8000_0000,
        -0x8000_0000 <= b < 0x8000_0000,
    ensures
        -0x4000_0000_0000_0000 <= a * b <= 0x4000_0000_0000_0000,
{
}

proof fn lemma_square_not_negative(a: int)
    by (nonlinear_arith)
    ensures
        a * a >= 0,
{
}

} // verus!
