//! The recursive estimator of the light that arrives along a ray.
//!
//! What a material answers to a ray and which direction a density draws is a
//! matter of chance, so the estimator is no function of its arguments.
//! [`is_estimate`] is the relation between the arguments and every result
//! that [`color`] can give: it says which record and which drawn direction a
//! result follows from, and how.

use crate::bvh_accel::BVHAccel;
use crate::hitable::Hit;
use crate::materials::{Interaction, Material, ScatterRecord, Spectrum};
use crate::primitive::Primitive;
use crate::pdf::{spec_mean, Density, HitablePDF, Light, MixturePDF, PDF};
use crate::ray::Probe;
use vstd::prelude::*;

verus! {

/// The number of bounces after which a path is cut off.
pub const MAX_DEPTH: usize = 10;

/// What a ray that hits nothing brings back: the light of the surroundings
/// where there is one, else nothing.
pub open spec fn background<C: Spectrum>(env_light: Option<&C>) -> C {
    match env_light {
        Some(illum) => *illum,
        None => C::spec_zero(),
    }
}

/// The light along a mirrored path: what the surface emits, plus what comes
/// in along the mirrored ray, attenuated.
pub open spec fn spec_specular_estimate<C: Spectrum>(emitted: C, attenuation: C, incoming: C) -> C {
    emitted.spec_plus(&attenuation.spec_times(&incoming))
}

/// The light along a sampled path: what the surface emits, plus what comes in
/// along the sampled ray, weighted by the ratio of the material's own density
/// to the density the ray was drawn with, and attenuated.
pub open spec fn spec_diffuse_estimate<C: Spectrum>(
    emitted: C,
    attenuation: C,
    scattering_pdf: Density,
    pdf: Density,
    incoming: C,
) -> C {
    emitted.spec_plus(&attenuation.spec_times(&incoming.spec_weighted(scattering_pdf, pdf)))
}

/// The direction `d` is one that an even mixture of the density of `light`,
/// seen from `origin`, and the density `mat_pdf` may draw: it comes from the
/// light or from the material's density.
pub open spec fn mixture_draws<L: Light, P: PDF<Direction = L::Direction>>(
    light: &L,
    origin: L::Point,
    mat_pdf: P,
    d: L::Direction,
) -> bool {
    call_ensures(L::random, (light, &origin), d) || call_ensures(P::generate, (&mat_pdf,), d)
}

/// The value of that mixture for the direction `d`: the mean of the light's
/// density and the material's.
pub open spec fn mixture_value<L: Light, P: PDF<Direction = L::Direction>>(
    light: &L,
    origin: L::Point,
    mat_pdf: P,
    d: L::Direction,
) -> Density {
    spec_mean(light.spec_pdf_value(&origin, &d), mat_pdf.spec_value(&d))
}

/// The colour `c` is an estimate of the light that arrives along `r`, on a
/// path that is `depth` bounces long already.
///
/// - A ray that hits nothing brings back the [`background`].
/// - A hit on a surface without material brings back nothing.
/// - At `MAX_DEPTH` the estimate is the emission of the surface.
/// - Below it, the material is asked to scatter the ray, and the estimate
///   follows one of its possible answers:
///   - without a record it is the emission;
///   - with a mirrored ray it is the emission plus the record's attenuation
///     times an estimate along that ray, one bounce deeper;
///   - with a density it is made from a direction that the mixture of the
///     light's density and the record's may draw: the emission alone where
///     the mixture gives the direction the value zero, else the emission plus
///     the record's attenuation times an estimate along the ray in that
///     direction, one bounce deeper, weighted by the material's own density
///     for that ray over the value of the mixture;
///   - with neither it is the emission.
pub open spec fn is_estimate<S, L, M, C>(
    c: C,
    r: &S::Ray,
    world: &BVHAccel<S>,
    light: &L,
    env_light: Option<&C>,
    depth: usize,
) -> bool where
    S: Primitive,
    S::Ray: Probe,
    S::Detail: Interaction<Ray = S::Ray, Point = L::Point, Direction = L::Direction, Material = M>,
    M: Material<Ray = S::Ray, Detail = S::Detail, Spectrum = C>,
    M::Pdf: PDF<Direction = L::Direction>,
    L: Light,
    C: Spectrum,
    decreases MAX_DEPTH - depth,
{
    match world.spec_intersect(r) {
        None => c == background(env_light),
        Some(rec) => match rec.detail.spec_material() {
            None => c == C::spec_zero(),
            Some(mat) => {
                let emitted = mat.spec_emitted(r, &rec);
                let origin = rec.detail.spec_point();
                if depth >= MAX_DEPTH {
                    c == emitted
                } else {
                    exists|out: Option<ScatterRecord<S::Ray, C, M::Pdf>>|
                        #[trigger] call_ensures(M::scatter, (&mat, r, &rec), out) && match out {
                            None => c == emitted,
                            Some(srec) => match srec.specular_ray {
                                Some(specular_ray) => exists|incoming: C|
                                    is_estimate(
                                        incoming,
                                        &specular_ray,
                                        world,
                                        light,
                                        env_light,
                                        (depth + 1) as usize,
                                    ) && c == #[trigger] spec_specular_estimate(
                                        emitted,
                                        srec.attenuation,
                                        incoming,
                                    ),
                                None => match srec.pdf {
                                    None => c == emitted,
                                    Some(mat_pdf) => exists|d: L::Direction|
                                        #[trigger] mixture_draws(light, origin, mat_pdf, d) && {
                                            let pdf = mixture_value(light, origin, mat_pdf, d);
                                            let scattered = rec.detail.spec_ray_towards(&d);
                                            if pdf == 0 {
                                                c == emitted
                                            } else {
                                                exists|incoming: C|
                                                    is_estimate(
                                                        incoming,
                                                        &scattered,
                                                        world,
                                                        light,
                                                        env_light,
                                                        (depth + 1) as usize,
                                                    ) && c == #[trigger] spec_diffuse_estimate(
                                                        emitted,
                                                        srec.attenuation,
                                                        mat.spec_scattering_pdf(r, &rec, &scattered),
                                                        pdf,
                                                        incoming,
                                                    )
                                            }
                                        },
                                },
                            },
                        }
                }
            },
        },
    }
}

/// See [`spec_specular_estimate`].
pub fn specular_estimate<C: Spectrum>(emitted: &C, attenuation: &C, incoming: &C) -> (c: C)
    ensures
        c == spec_specular_estimate(*emitted, *attenuation, *incoming),
{
    emitted.plus(&attenuation.times(incoming))
}

/// See [`spec_diffuse_estimate`].
pub fn diffuse_estimate<C: Spectrum>(
    emitted: &C,
    attenuation: &C,
    scattering_pdf: Density,
    pdf: Density,
    incoming: &C,
) -> (c: C)
    ensures
        c == spec_diffuse_estimate(*emitted, *attenuation, scattering_pdf, pdf, *incoming),
{
    emitted.plus(&attenuation.times(&incoming.weighted(scattering_pdf, pdf)))
}

/// Estimates the light that arrives along the ray `r`.
///
/// A ray that hits nothing brings back the background. A hit on a surface
/// without material brings back nothing. Otherwise the surface's own emission
/// is the estimate, unless the path is shorter than [`MAX_DEPTH`] and the
/// material scatters the ray: then one more ray is followed, either the
/// mirrored one or one drawn from an even mixture of the light's density and
/// the material's, and its estimate is added as [`spec_specular_estimate`] and
/// [`spec_diffuse_estimate`] say. A drawn ray of density zero is not followed.
///
/// What the material answers and which direction is drawn is a matter of
/// chance; [`is_estimate`] says how the result follows from them.
pub fn color<S, L, M, C>(
    r: &S::Ray,
    world: &BVHAccel<S>,
    light: &L,
    env_light: Option<&C>,
    depth: usize,
) -> (c: C) where
    S: Primitive,
    S::Ray: Probe,
    S::Detail: Interaction<Ray = S::Ray, Point = L::Point, Direction = L::Direction, Material = M>,
    M: Material<Ray = S::Ray, Detail = S::Detail, Spectrum = C>,
    M::Pdf: PDF<Direction = L::Direction>,
    L: Light,
    C: Spectrum,
    requires
        world.well_formed(),
    ensures
        is_estimate(c, r, world, light, env_light, depth),
    decreases MAX_DEPTH - depth,
{
    match world.intersect(r) {
        None => match env_light {
            Some(illum) => *illum,
            None => C::zero(),
        },
        Some(rec) => match rec.detail.material() {
            None => C::zero(),
            Some(mat) => {
                let emitted = mat.emitted(r, &rec);
                if depth >= MAX_DEPTH {
                    return emitted;
                }
                let ghost origin = rec.detail.spec_point();
                match mat.scatter(r, &rec) {
                    None => emitted,
                    Some(srec) => match srec.specular_ray {
                        Some(specular_ray) => {
                            let incoming = color(&specular_ray, world, light, env_light, depth + 1);
                            specular_estimate(&emitted, &srec.attenuation, &incoming)
                        },
                        None => match srec.pdf {
                            None => emitted,
                            Some(mat_pdf) => {
                                let hitable_pdf = HitablePDF::new(light, rec.detail.point());
                                let p = MixturePDF::new(&hitable_pdf, &mat_pdf);
                                let direction = p.generate();
                                let scattered = rec.detail.ray_towards(&direction);
                                let pdf_val = p.value(&direction);
                                assert(mixture_draws(light, origin, mat_pdf, direction));
                                assert(pdf_val == mixture_value(light, origin, mat_pdf, direction));
                                if pdf_val == 0 {
                                    return emitted;
                                }
                                let scattering_pdf_val = mat.scattering_pdf(r, &rec, &scattered);
                                let incoming = color(&scattered, world, light, env_light, depth + 1);
                                diffuse_estimate(
                                    &emitted,
                                    &srec.attenuation,
                                    scattering_pdf_val,
                                    pdf_val,
                                    &incoming,
                                )
                            },
                        },
                    },
                }
            },
        },
    }
}

/// The material `mat` answers the ray `r` at the hit `rec` with the record
/// `srec`, whatever it draws.
pub open spec fn always_scatters<M: Material>(
    mat: M,
    r: &M::Ray,
    rec: Hit<M::Detail>,
    srec: ScatterRecord<M::Ray, M::Spectrum, M::Pdf>,
) -> bool {
    forall|out: Option<ScatterRecord<M::Ray, M::Spectrum, M::Pdf>>|
        #[trigger] call_ensures(M::scatter, (&mat, r, &rec), out) ==> out == Some(srec)
}

/// The material `mat` answers the ray `r` at the hit `rec` with no record,
/// whatever it draws.
pub open spec fn never_scatters<M: Material>(mat: M, r: &M::Ray, rec: Hit<M::Detail>) -> bool {
    forall|out: Option<ScatterRecord<M::Ray, M::Spectrum, M::Pdf>>|
        #[trigger] call_ensures(M::scatter, (&mat, r, &rec), out) ==> out is None
}

/// At the depth cutoff an estimate is the emission of the surface that the
/// ray hits, and nothing else.
pub proof fn lemma_cutoff_is_emission<S, L, M, C>(
    c: C,
    r: &S::Ray,
    world: &BVHAccel<S>,
    light: &L,
    env_light: Option<&C>,
    depth: usize,
) where
    S: Primitive,
    S::Ray: Probe,
    S::Detail: Interaction<Ray = S::Ray, Point = L::Point, Direction = L::Direction, Material = M>,
    M: Material<Ray = S::Ray, Detail = S::Detail, Spectrum = C>,
    M::Pdf: PDF<Direction = L::Direction>,
    L: Light,
    C: Spectrum,
    requires
        is_estimate(c, r, world, light, env_light, depth),
        depth >= MAX_DEPTH,
        world.spec_intersect(r) matches Some(rec) && rec.detail.spec_material() is Some,
    ensures
        c == world.spec_intersect(r)->0.detail.spec_material()->0.spec_emitted(
            r,
            &world.spec_intersect(r)->0,
        ),
{
}

/// Where the material never scatters, an estimate is the emission of the
/// surface.
pub proof fn lemma_unscattered_is_emission<S, L, M, C>(
    c: C,
    r: &S::Ray,
    world: &BVHAccel<S>,
    light: &L,
    env_light: Option<&C>,
    depth: usize,
) where
    S: Primitive,
    S::Ray: Probe,
    S::Detail: Interaction<Ray = S::Ray, Point = L::Point, Direction = L::Direction, Material = M>,
    M: Material<Ray = S::Ray, Detail = S::Detail, Spectrum = C>,
    M::Pdf: PDF<Direction = L::Direction>,
    L: Light,
    C: Spectrum,
    requires
        is_estimate(c, r, world, light, env_light, depth),
        world.spec_intersect(r) matches Some(rec) && rec.detail.spec_material() matches Some(mat)
            && never_scatters(mat, r, rec),
    ensures
        c == world.spec_intersect(r)->0.detail.spec_material()->0.spec_emitted(
            r,
            &world.spec_intersect(r)->0,
        ),
{
}

/// Below the cutoff, where the material always answers with the mirrored ray
/// of `srec`, an estimate is the emission plus the attenuation of `srec`
/// times an estimate along that ray, one bounce deeper.
pub proof fn lemma_mirrored_estimate<S, L, M, C>(
    c: C,
    r: &S::Ray,
    world: &BVHAccel<S>,
    light: &L,
    env_light: Option<&C>,
    depth: usize,
    srec: ScatterRecord<S::Ray, C, M::Pdf>,
) where
    S: Primitive,
    S::Ray: Probe,
    S::Detail: Interaction<Ray = S::Ray, Point = L::Point, Direction = L::Direction, Material = M>,
    M: Material<Ray = S::Ray, Detail = S::Detail, Spectrum = C>,
    M::Pdf: PDF<Direction = L::Direction>,
    L: Light,
    C: Spectrum,
    requires
        is_estimate(c, r, world, light, env_light, depth),
        depth < MAX_DEPTH,
        world.spec_intersect(r) matches Some(rec) && rec.detail.spec_material() matches Some(mat)
            && always_scatters(mat, r, rec, srec),
        srec.specular_ray is Some,
    ensures
        ({
            let rec = world.spec_intersect(r)->0;
            let mat = rec.detail.spec_material()->0;
            exists|incoming: C|
                is_estimate(
                    incoming,
                    &srec.specular_ray->0,
                    world,
                    light,
                    env_light,
                    (depth + 1) as usize,
                ) && c == #[trigger] spec_specular_estimate(
                    mat.spec_emitted(r, &rec),
                    srec.attenuation,
                    incoming,
                )
        }),
{
}

/// Below the cutoff, where the material always answers with the density of
/// `srec`, an estimate comes from a direction `d` that the mixture of the
/// light's density and that density may draw: it is the emission alone where
/// the mixture gives `d` the value zero, else the emission plus the
/// attenuation of `srec` times an estimate along the ray towards `d`, one
/// bounce deeper, weighted by the material's own density for that ray over
/// the value of the mixture.
pub proof fn lemma_sampled_estimate<S, L, M, C>(
    c: C,
    r: &S::Ray,
    world: &BVHAccel<S>,
    light: &L,
    env_light: Option<&C>,
    depth: usize,
    srec: ScatterRecord<S::Ray, C, M::Pdf>,
) where
    S: Primitive,
    S::Ray: Probe,
    S::Detail: Interaction<Ray = S::Ray, Point = L::Point, Direction = L::Direction, Material = M>,
    M: Material<Ray = S::Ray, Detail = S::Detail, Spectrum = C>,
    M::Pdf: PDF<Direction = L::Direction>,
    L: Light,
    C: Spectrum,
    requires
        is_estimate(c, r, world, light, env_light, depth),
        depth < MAX_DEPTH,
        world.spec_intersect(r) matches Some(rec) && rec.detail.spec_material() matches Some(mat)
            && always_scatters(mat, r, rec, srec),
        srec.specular_ray is None,
        srec.pdf is Some,
    ensures
        ({
            let rec = world.spec_intersect(r)->0;
            let mat = rec.detail.spec_material()->0;
            let emitted = mat.spec_emitted(r, &rec);
            let origin = rec.detail.spec_point();
            let mat_pdf = srec.pdf->0;
            exists|d: L::Direction|
                #[trigger] mixture_draws(light, origin, mat_pdf, d) && {
                    let pdf = mixture_value(light, origin, mat_pdf, d);
                    let scattered = rec.detail.spec_ray_towards(&d);
                    if pdf == 0 {
                        c == emitted
                    } else {
                        exists|incoming: C|
                            is_estimate(
                                incoming,
                                &scattered,
                                world,
                                light,
                                env_light,
                                (depth + 1) as usize,
                            ) && c == #[trigger] spec_diffuse_estimate(
                                emitted,
                                srec.attenuation,
                                mat.spec_scattering_pdf(r, &rec, &scattered),
                                pdf,
                                incoming,
                            )
                    }
                }
        }),
{
}

} // verus!
