//! Rays, with the per-axis direction signs that the slab test reads.
use crate::hit::HitRecord;
use crate::material::ScatterRecord;
use crate::pdf::Pdf;
use crate::scalar::{vlt, Scalar};
use crate::vector::Vec3;
use vstd::prelude::*;

verus! {

/// A ray: origin and direction, with what was derived from the direction.
#[derive(Clone, Copy, Debug)]
pub struct Ray {
    pub ori: Vec3,
    pub dir: Vec3,
    pub nrm_dir: Vec3,
    pub inv_dir: Vec3,
    pub sign_x: usize,
    pub sign_y: usize,
    pub sign_z: usize,
}

/// 1 for a direction component below zero, else 0.
pub open spec fn sign_of(d: Scalar) -> usize {
    if vlt(d@, Some(0int)) {
        1
    } else {
        0
    }
}

impl Ray {
    /// Whether each sign is 1 exactly where the direction points down its axis.
    pub open spec fn wf(&self) -> bool {
        &&& self.sign_x == sign_of(self.dir.x)
        &&& self.sign_y == sign_of(self.dir.y)
        &&& self.sign_z == sign_of(self.dir.z)
    }

    /// A ray from `origin` along `direction`. The caller supplies the
    /// normalised direction and the component-wise inverse; the signs are
    /// taken from `direction` here.
    pub fn new(origin: Vec3, direction: Vec3, nrm_dir: Vec3, inv_dir: Vec3) -> (r: Ray)
        ensures
            r.ori == origin,
            r.dir == direction,
            r.nrm_dir == nrm_dir,
            r.inv_dir == inv_dir,
            r.wf(),
    {
        let zero = Scalar::zero();
        Ray {
            ori: origin,
            dir: direction,
            nrm_dir,
            inv_dir,
            sign_x: if direction.x.lt(zero) {
                1
            } else {
                0
            },
            sign_y: if direction.y.lt(zero) {
                1
            } else {
                0
            },
            sign_z: if direction.z.lt(zero) {
                1
            } else {
                0
            },
        }
    }
}

/// The least ray parameter at which a hit counts, so that a ray does not hit
/// the surface it leaves: the bit pattern of 0.001.
pub const NEAREST_HIT_BITS: u32 = 0x3a83_126f;

/// The greatest ray parameter: the bit pattern of the largest finite number.
pub const FARTHEST_HIT_BITS: u32 = 0x7f7f_ffff;

/// A direction drawn for a diffuse bounce: the ray along it, the density
/// with which it was drawn and the density with which the surface scatters
/// into it.
#[derive(Clone, Copy, Debug)]
pub struct Sample {
    pub scattered: Ray,
    pub pdf_value: Scalar,
    pub scattering_pdf: Scalar,
}

/// The least ray parameter at which a hit counts.
pub open spec fn nearest_hit() -> Scalar {
    Scalar { bits: NEAREST_HIT_BITS }
}

/// The greatest ray parameter.
pub open spec fn farthest_hit() -> Scalar {
    Scalar { bits: FARTHEST_HIT_BITS }
}

/// Whether `c` may come out as the light along `ray` with `depth` bounces
/// left.
///
/// Without a bounce left there is no light. A ray that hits nothing sees the
/// background. A hit sends out what its material emits; where the material
/// scatters, the light that comes in along the next ray, with one bounce
/// less, is put together with it: a diffuse bounce adds the emission and
/// weighs what comes in by the two densities of the direction drawn from the
/// mixture of the light's strategy and the material's own; a specular bounce
/// takes what comes in alone; a bounce inside a medium adds the emission.
pub open spec fn yields<
    T: Fn(Ray, Scalar, Scalar) -> Option<HitRecord>,
    E: Fn(HitRecord) -> Vec3,
    S: Fn(Ray, HitRecord) -> Option<ScatterRecord>,
    D: Fn(HitRecord, Pdf) -> Sample,
    C: Fn(Option<Vec3>, Vec3, Vec3, Option<(Scalar, Scalar)>) -> Vec3,
>(
    ray: Ray,
    background: Vec3,
    lights: usize,
    depth: nat,
    trace: &T,
    emitted: &E,
    scatter: &S,
    sample: &D,
    combine: &C,
    c: Vec3,
) -> bool
    decreases depth,
{
    if depth == 0 {
        c == Vec3::spec_zeros()
    } else {
        exists|found: Option<HitRecord>| #[trigger]
            trace.ensures((ray, nearest_hit(), farthest_hit()), found) && match found {
                None => c == background,
                Some(hit) => exists|own: Vec3, record: Option<ScatterRecord>|
                    #![trigger emitted.ensures((hit,), own), scatter.ensures((ray, hit), record)]
                    emitted.ensures((hit,), own) && scatter.ensures((ray, hit), record) && match record {
                        None => c == own,
                        Some(ScatterRecord::Scatter { attenuation, pdf }) => exists|drawn: Sample, incoming: Vec3|
                            #![trigger combine.ensures((Some(own), attenuation, incoming, Some((drawn.scattering_pdf, drawn.pdf_value))), c)]
                            sample.ensures((hit, mixed(lights, hit, pdf)), drawn) && yields(
                                drawn.scattered,
                                background,
                                lights,
                                (depth - 1) as nat,
                                trace,
                                emitted,
                                scatter,
                                sample,
                                combine,
                                incoming,
                            ) && combine.ensures(
                                (Some(own), attenuation, incoming, Some((drawn.scattering_pdf, drawn.pdf_value))),
                                c,
                            ),
                        Some(ScatterRecord::Specular { attenuation, specular_ray }) => exists|incoming: Vec3|
                            yields(
                                specular_ray,
                                background,
                                lights,
                                (depth - 1) as nat,
                                trace,
                                emitted,
                                scatter,
                                sample,
                                combine,
                                incoming,
                            ) && #[trigger] combine.ensures((None, attenuation, incoming, None), c),
                        Some(ScatterRecord::Isotropic { attenuation, scattered_ray }) => exists|incoming: Vec3|
                            yields(
                                scattered_ray,
                                background,
                                lights,
                                (depth - 1) as nat,
                                trace,
                                emitted,
                                scatter,
                                sample,
                                combine,
                                incoming,
                            ) && #[trigger] combine.ensures((Some(own), attenuation, incoming, None), c),
                    },
            }
    }
}

/// The strategy from which the direction of a diffuse bounce is drawn: the
/// even mixture of sampling towards the lights from the point hit and of the
/// material's own strategy.
pub open spec fn mixed(lights: usize, hit: HitRecord, pdf: Pdf) -> Pdf {
    Pdf::Mixture { p: Box::new(Pdf::Hittable { origin: hit.p, hittable: lights }), q: Box::new(pdf) }
}

impl Ray {
    /// The light that arrives along the ray, estimated with at most `depth`
    /// bounces.
    ///
    /// `trace(ray, t_min, t_max)` is asked for the closest hit in the scene,
    /// `emitted(hit)` for what the material hit sends out, `scatter(ray, hit)`
    /// for how it scatters, `sample(hit, pdf)` for a direction drawn from
    /// `pdf` together with its two densities, and
    /// `combine(emission, attenuation, incoming, densities)` for the
    /// emission, if any, plus the attenuated incoming light, weighed by the
    /// scattering density over the sampling density where they are given.
    /// `lights` is the number under which `sample` knows the lights.
    ///
    /// A sampling density of zero makes the estimate of a diffuse bounce not
    /// a number; it is for the caller to discard such an estimate.
    pub fn color<
        T: Fn(Ray, Scalar, Scalar) -> Option<HitRecord>,
        E: Fn(HitRecord) -> Vec3,
        S: Fn(Ray, HitRecord) -> Option<ScatterRecord>,
        D: Fn(HitRecord, Pdf) -> Sample,
        C: Fn(Option<Vec3>, Vec3, Vec3, Option<(Scalar, Scalar)>) -> Vec3,
    >(
        &self,
        background: &Vec3,
        lights: usize,
        depth: u8,
        trace: &T,
        emitted: &E,
        scatter: &S,
        sample: &D,
        combine: &C,
    ) -> (c: Vec3)
        requires
            forall|r: Ray, t_min: Scalar, t_max: Scalar| #[trigger] trace.requires((r, t_min, t_max)),
            forall|h: HitRecord| #[trigger] emitted.requires((h,)),
            forall|r: Ray, h: HitRecord| #[trigger] scatter.requires((r, h)),
            forall|h: HitRecord, p: Pdf| #[trigger] sample.requires((h, p)),
            forall|e: Option<Vec3>, a: Vec3, i: Vec3, d: Option<(Scalar, Scalar)>| #[trigger]
                combine.requires((e, a, i, d)),
        ensures
            yields(*self, *background, lights, depth as nat, trace, emitted, scatter, sample, combine, c),
            depth == 0 ==> c == Vec3::spec_zeros(),
            depth > 0 && (forall|found: Option<HitRecord>| #[trigger]
                trace.ensures((*self, nearest_hit(), farthest_hit()), found) ==> found is None) ==> c
                == *background,
        decreases depth,
    {
        if depth == 0 {
            return Vec3::zeros();
        }
        let found = trace(*self, Scalar::from_bits(NEAREST_HIT_BITS), Scalar::from_bits(FARTHEST_HIT_BITS));
        match found {
            None => *background,
            Some(hit) => {
                let own = emitted(hit);
                let record = scatter(*self, hit);
                match record {
                    None => own,
                    Some(ScatterRecord::Scatter { attenuation, pdf }) => {
                        let ghost kept = pdf;
                        let light_pdf = Pdf::hittable_pdf(lights, &hit.p);
                        let mixed_pdf = Pdf::mixture_pdf(light_pdf, pdf);
                        let drawn = sample(hit, mixed_pdf);
                        let incoming = drawn.scattered.color(
                            background,
                            lights,
                            depth - 1,
                            trace,
                            emitted,
                            scatter,
                            sample,
                            combine,
                        );
                        let c = combine(
                            Some(own),
                            attenuation,
                            incoming,
                            Some((drawn.scattering_pdf, drawn.pdf_value)),
                        );
                        proof {
                            assert(sample.ensures((hit, mixed(lights, hit, kept)), drawn));
                            assert(combine.ensures(
                                (Some(own), attenuation, incoming, Some((drawn.scattering_pdf, drawn.pdf_value))),
                                c,
                            ));
                            assert(emitted.ensures((hit,), own) && scatter.ensures((*self, hit), record));
                        }
                        c
                    },
                    Some(ScatterRecord::Specular { attenuation, specular_ray }) => {
                        let incoming = specular_ray.color(
                            background,
                            lights,
                            depth - 1,
                            trace,
                            emitted,
                            scatter,
                            sample,
                            combine,
                        );
                        let c = combine(None, attenuation, incoming, None);
                        proof {
                            assert(combine.ensures((None, attenuation, incoming, None), c));
                            assert(emitted.ensures((hit,), own) && scatter.ensures((*self, hit), record));
                        }
                        c
                    },
                    Some(ScatterRecord::Isotropic { attenuation, scattered_ray }) => {
                        let incoming = scattered_ray.color(
                            background,
                            lights,
                            depth - 1,
                            trace,
                            emitted,
                            scatter,
                            sample,
                            combine,
                        );
                        let c = combine(Some(own), attenuation, incoming, None);
                        proof {
                            assert(combine.ensures((Some(own), attenuation, incoming, None), c));
                            assert(emitted.ensures((hit,), own) && scatter.ensures((*self, hit), record));
                        }
                        c
                    },
                }
            },
        }
    }
}

} // verus!
