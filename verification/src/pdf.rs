//! Sampling densities: the probability, per steradian, of drawing a
//! direction, together with a way to draw one.
//!
//! The library combines densities: it asks a light for the density of the
//! directions towards it, and mixes two densities evenly. What a single
//! density is over the sphere is for whoever implements [`PDF`].
//!
//! The methods of [`PDF`] and [`Light`] that do not draw at random name the
//! function they compute. Of an implementation written outside Verus this is
//! taken on trust: it has to answer the same question in the same way every
//! time.

use vstd::prelude::*;

verus! {

/// A probability density, in a fixed unit that all densities of a scene share.
pub type Density = u64;

/// A sampling density over directions.
pub trait PDF {
    type Direction;

    /// The function of the direction that `value` computes.
    spec fn spec_value(&self, direction: &Self::Direction) -> Density;

    /// The density with which `generate` draws `direction`.
    fn value(&self, direction: &Self::Direction) -> (v: Density)
        ensures
            v == self.spec_value(direction),
    ;

    /// Draws a direction.
    fn generate(&self) -> Self::Direction;
}

/// A surface that can be sampled as a source of light.
pub trait Light {
    type Point;

    type Direction;

    /// The function of origin and direction that `pdf_value` computes.
    spec fn spec_pdf_value(&self, origin: &Self::Point, v: &Self::Direction) -> Density;

    /// The density with which `random` draws the direction `v` from `origin`.
    fn pdf_value(&self, origin: &Self::Point, v: &Self::Direction) -> (d: Density)
        ensures
            d == self.spec_pdf_value(origin, v),
    ;

    /// Draws a direction from `origin` towards a point of the surface.
    fn random(&self, origin: &Self::Point) -> Self::Direction;
}

/// The density of the directions from a point towards a light.
pub struct HitablePDF<'a, L: Light> {
    pub origin: L::Point,
    pub hitable: &'a L,
}

impl<'a, L: Light> HitablePDF<'a, L> {
    pub fn new(hitable: &'a L, origin: L::Point) -> (p: HitablePDF<'a, L>)
        ensures
            p.origin == origin,
            p.hitable == hitable,
    {
        HitablePDF { origin, hitable }
    }
}

impl<'a, L: Light> PDF for HitablePDF<'a, L> {
    type Direction = L::Direction;

    open spec fn spec_value(&self, direction: &Self::Direction) -> Density {
        self.hitable.spec_pdf_value(&self.origin, direction)
    }

    fn value(&self, direction: &Self::Direction) -> (v: Density) {
        self.hitable.pdf_value(&self.origin, direction)
    }

    /// A direction that the light drew from the origin.
    fn generate(&self) -> (d: Self::Direction)
        ensures
            call_ensures(L::random, (self.hitable, &self.origin), d),
    {
        self.hitable.random(&self.origin)
    }
}

/// The mean of two densities, rounded down.
pub open spec fn spec_mean(a: Density, b: Density) -> Density {
    ((a + b) / 2) as Density
}

/// The mean of two densities, rounded down.
pub fn mean(a: Density, b: Density) -> (m: Density)
    ensures
        m == spec_mean(a, b),
{
    a / 2 + b / 2 + (a % 2 + b % 2) / 2
}

/// An even mixture of two densities.
pub struct MixturePDF<'a, A, B> {
    first: &'a A,
    second: &'a B,
}

impl<'a, A: PDF, B: PDF<Direction = A::Direction>> MixturePDF<'a, A, B> {
    /// The two densities that are mixed.
    pub closed spec fn parts(&self) -> (&'a A, &'a B) {
        (self.first, self.second)
    }

    pub fn new(pdf1: &'a A, pdf2: &'a B) -> (p: MixturePDF<'a, A, B>)
        ensures
            p.parts() == (pdf1, pdf2),
    {
        MixturePDF { first: pdf1, second: pdf2 }
    }

    /// Draws from the first density where `coin` is `true`, else from the
    /// second.
    pub fn generate_from(&self, coin: bool) -> (d: A::Direction)
        ensures
            coin ==> call_ensures(A::generate, (self.parts().0,), d),
            !coin ==> call_ensures(B::generate, (self.parts().1,), d),
    {
        if coin {
            self.first.generate()
        } else {
            self.second.generate()
        }
    }
}

impl<'a, A: PDF, B: PDF<Direction = A::Direction>> PDF for MixturePDF<'a, A, B> {
    type Direction = A::Direction;

    /// The mean of what the two densities give for the direction.
    open spec fn spec_value(&self, direction: &Self::Direction) -> Density {
        spec_mean(self.parts().0.spec_value(direction), self.parts().1.spec_value(direction))
    }

    fn value(&self, direction: &Self::Direction) -> (v: Density) {
        mean(self.first.value(direction), self.second.value(direction))
    }

    /// A draw from one of the two densities, chosen by the toss of a fair
    /// coin.
    fn generate(&self) -> (d: Self::Direction)
        ensures
            call_ensures(A::generate, (self.parts().0,), d) || call_ensures(
                B::generate,
                (self.parts().1,),
                d,
            ),
    {
        self.generate_from(toss())
    }
}

/// A fair coin, tossed with `rand::random`. Nothing is known of how it lands.
#[verifier::external_body]
fn toss() -> bool {
    rand::random::<bool>()
}

} // verus!
