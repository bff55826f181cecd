//! Materials and the colours they give back.
//!
//! How a material bends a ray and what a colour is made of are for whoever
//! implements [`Material`] and [`Spectrum`]. The estimator reads a material
//! through these traits and through [`Interaction`], which gives it the
//! material of a hit.
//!
//! A method with a `spec_` twin names the function it computes. Of an
//! implementation written outside Verus this is taken on trust.

use crate::hitable::Hit;
use crate::pdf::{Density, PDF};
use vstd::prelude::*;

verus! {

/// A colour, with the arithmetic that the estimator needs.
pub trait Spectrum: Copy {
    /// No light at all.
    spec fn spec_zero() -> Self;

    fn zero() -> (c: Self)
        ensures
            c == Self::spec_zero(),
    ;

    /// The function that `plus` computes.
    spec fn spec_plus(&self, other: &Self) -> Self;

    /// The sum of two colours.
    fn plus(&self, other: &Self) -> (c: Self)
        ensures
            c == self.spec_plus(other),
    ;

    /// The function that `times` computes.
    spec fn spec_times(&self, other: &Self) -> Self;

    /// The product of two colours, band by band.
    fn times(&self, other: &Self) -> (c: Self)
        ensures
            c == self.spec_times(other),
    ;

    /// The function that `weighted` computes.
    spec fn spec_weighted(&self, scattering_pdf: Density, pdf: Density) -> Self;

    /// The colour times `scattering_pdf`, divided by `pdf` plus a small
    /// constant that keeps the quotient finite.
    fn weighted(&self, scattering_pdf: Density, pdf: Density) -> (c: Self)
        ensures
            c == self.spec_weighted(scattering_pdf, pdf),
    ;
}

/// What a material makes of an incoming ray: one outgoing ray, for a mirror,
/// or a density to draw the outgoing ray from. A record with neither is
/// treated as no scattering at all.
pub struct ScatterRecord<R, C, P> {
    pub specular_ray: Option<R>,
    pub attenuation: C,
    pub pdf: Option<P>,
}

/// The optical behaviour of a surface.
pub trait Material {
    type Ray;

    type Detail;

    type Spectrum;

    type Pdf: PDF;

    /// What the material makes of the ray `r_in` that hit it at `rec`, if it
    /// scatters it at all. A rough mirror draws its answer at random.
    fn scatter(&self, r_in: &Self::Ray, rec: &Hit<Self::Detail>) -> Option<
        ScatterRecord<Self::Ray, Self::Spectrum, Self::Pdf>,
    >;

    /// The function that `emitted` computes.
    spec fn spec_emitted(&self, r_in: &Self::Ray, rec: &Hit<Self::Detail>) -> Self::Spectrum;

    /// The light that the surface sends back along `r_in` by itself.
    fn emitted(&self, r_in: &Self::Ray, rec: &Hit<Self::Detail>) -> (c: Self::Spectrum)
        ensures
            c == self.spec_emitted(r_in, rec),
    ;

    /// The function that `scattering_pdf` computes.
    spec fn spec_scattering_pdf(
        &self,
        r_in: &Self::Ray,
        rec: &Hit<Self::Detail>,
        scattered: &Self::Ray,
    ) -> Density;

    /// The density with which the material itself scatters `r_in` into
    /// `scattered`.
    fn scattering_pdf(&self, r_in: &Self::Ray, rec: &Hit<Self::Detail>, scattered: &Self::Ray) -> (d:
        Density)
        ensures
            d == self.spec_scattering_pdf(r_in, rec, scattered),
    ;
}

/// What the estimator reads from the record of a hit.
pub trait Interaction {
    type Ray;

    type Point;

    type Direction;

    type Material;

    /// The material at the hit, if the surface has one.
    spec fn spec_material(&self) -> Option<Self::Material>;

    /// The material at the hit, if the surface has one.
    fn material(&self) -> (m: Option<&Self::Material>)
        ensures
            m is None <==> self.spec_material() is None,
            m matches Some(x) ==> self.spec_material() == Some(*x),
    ;

    /// The function that `point` computes.
    spec fn spec_point(&self) -> Self::Point;

    /// The point where the ray met the surface.
    fn point(&self) -> (p: Self::Point)
        ensures
            p == self.spec_point(),
    ;

    /// The function that `ray_towards` computes.
    spec fn spec_ray_towards(&self, direction: &Self::Direction) -> Self::Ray;

    /// The ray that leaves the point of the hit in the given direction.
    fn ray_towards(&self, direction: &Self::Direction) -> (r: Self::Ray)
        ensures
            r == self.spec_ray_towards(direction),
    ;
}

} // verus!
