//! What a surface does to a ray: the kinds of scattering, and the decisions
//! that each material takes.
use crate::pdf::{Onb, Pdf};
use crate::ray::Ray;
use crate::scalar::{vlt, vmax, Scalar, ONE_BITS};
use crate::vector::Vec3;
use vstd::prelude::*;

verus! {

/// How a ray leaves a surface, with the share of light that the surface
/// passes on.
#[derive(Debug)]
pub enum ScatterRecord {
    /// A diffuse bounce: the next direction is drawn with the density `pdf`.
    Scatter { attenuation: Vec3, pdf: Pdf },
    /// A mirror or refractive bounce along `specular_ray`.
    Specular { attenuation: Vec3, specular_ray: Ray },
    /// A bounce inside a medium along `scattered_ray`.
    Isotropic { attenuation: Vec3, scattered_ray: Ray },
}

/// A cosine clamped from below at zero; a cosine that is not a number counts
/// as zero.
pub fn clamp_cosine(cosine: Scalar) -> (c: Scalar)
    ensures
        c@ == vmax(cosine@, Some(0int)),
        c@ is Some,
{
    cosine.max(Scalar::zero())
}

/// A diffuse surface with the texture number `albedo`.
#[derive(Clone, Copy, Debug)]
pub struct Lambertian {
    pub albedo: usize,
}

impl Lambertian {
    pub fn new(albedo: usize) -> (m: Lambertian)
        ensures
            m.albedo == albedo,
    {
        Lambertian { albedo }
    }

    /// Always scatters: with the texture's value as attenuation and the
    /// cosine-weighted density around the normal, whose basis is `uvw`.
    pub fn scatter(&self, attenuation: Vec3, uvw: Onb) -> (s: Option<ScatterRecord>)
        ensures
            s == Some(ScatterRecord::Scatter { attenuation, pdf: Pdf::Cosine { uvw } }),
    {
        Some(ScatterRecord::Scatter { attenuation, pdf: Pdf::cosine_pdf(uvw) })
    }

    /// The density with which the surface scatters into a direction whose
    /// cosine with the normal is `cosine`: the cosine, clamped at zero, over
    /// pi. `over_pi` does the division.
    pub fn scattering_pdf<F: Fn(Scalar) -> Scalar>(&self, cosine: Scalar, over_pi: &F) -> (d: Scalar)
        requires
            forall|c: Scalar| over_pi.requires((c,)),
        ensures
            exists|c: Scalar| c@ == vmax(cosine@, Some(0int)) && #[trigger] over_pi.ensures((c,), d),
    {
        let c = clamp_cosine(cosine);
        let d = over_pi(c);
        assert(c@ == vmax(cosine@, Some(0int)) && over_pi.ensures((c,), d));
        d
    }
}

/// A mirror with the texture number `albedo`, blurred by `fuzz`.
#[derive(Clone, Copy, Debug)]
pub struct Metal {
    pub albedo: usize,
    pub fuzz: Scalar,
}

impl Metal {
    pub fn new(albedo: usize, fuzz: Scalar) -> (m: Metal)
        ensures
            m.albedo == albedo,
            m.fuzz == fuzz,
    {
        Metal { albedo, fuzz }
    }

    /// Always scatters, along the reflected and blurred ray `specular_ray`,
    /// with the texture's value as attenuation.
    pub fn scatter(&self, attenuation: Vec3, specular_ray: Ray) -> (s: Option<ScatterRecord>)
        ensures
            s == Some(ScatterRecord::Specular { attenuation, specular_ray }),
    {
        Some(ScatterRecord::Specular { attenuation, specular_ray })
    }
}

/// A clear material with the given index of refraction.
#[derive(Clone, Copy, Debug)]
pub struct Dielectric {
    pub refraction_index: Scalar,
}

impl Dielectric {
    pub fn new(refraction_index: Scalar) -> (m: Dielectric)
        ensures
            m.refraction_index == refraction_index,
    {
        Dielectric { refraction_index }
    }

    /// The ratio of the indices across the surface: `inverse`, which the
    /// caller computed as one over the index, for a ray that enters, and the
    /// index itself for a ray that leaves.
    pub fn refraction_ratio(&self, front_face: bool, inverse: Scalar) -> (ratio: Scalar)
        ensures
            ratio == (if front_face {
                inverse
            } else {
                self.refraction_index
            }),
    {
        if front_face {
            inverse
        } else {
            self.refraction_index
        }
    }

    /// Whether the ray is reflected rather than refracted: it cannot be
    /// refracted where the ratio times the sine of the angle of incidence
    /// exceeds 1, and it is also reflected where the reflectance exceeds the
    /// number drawn.
    pub fn reflects(ratio_sine: Scalar, reflectance: Scalar, drawn: Scalar) -> (reflect: bool)
        ensures
            reflect == (vlt(Some(ONE_BITS as int), ratio_sine@) || vlt(drawn@, reflectance@)),
    {
        ratio_sine.gt(Scalar::one()) || reflectance.gt(drawn)
    }

    /// Always scatters, along `specular_ray`, and absorbs nothing.
    pub fn scatter(&self, specular_ray: Ray) -> (s: Option<ScatterRecord>)
        ensures
            s == Some(ScatterRecord::Specular { attenuation: Vec3::spec_ones(), specular_ray }),
    {
        Some(ScatterRecord::Specular { attenuation: Vec3::ones(), specular_ray })
    }
}

/// A light with the texture number `emit`. It scatters nothing.
#[derive(Clone, Copy, Debug)]
pub struct DiffuseLight {
    pub emit: usize,
}

impl DiffuseLight {
    pub fn new(emit: usize) -> (m: DiffuseLight)
        ensures
            m.emit == emit,
    {
        DiffuseLight { emit }
    }

    /// The light sent out: the texture's value, which `texture` looks up,
    /// towards the front, and nothing towards the back.
    pub fn emitted<F: Fn(usize) -> Vec3>(&self, front_face: bool, texture: &F) -> (e: Vec3)
        requires
            texture.requires((self.emit,)),
        ensures
            front_face ==> texture.ensures((self.emit,), e),
            !front_face ==> e == Vec3::spec_zeros(),
    {
        if front_face {
            texture(self.emit)
        } else {
            Vec3::zeros()
        }
    }

    /// Never scatters.
    pub fn scatter(&self) -> (s: Option<ScatterRecord>)
        ensures
            s is None,
    {
        None
    }
}

/// The material inside a medium, with the texture number `albedo`.
#[derive(Clone, Copy, Debug)]
pub struct Isotropic {
    pub albedo: usize,
}

impl Isotropic {
    pub fn new(albedo: usize) -> (m: Isotropic)
        ensures
            m.albedo == albedo,
    {
        Isotropic { albedo }
    }

    /// Always scatters, along the ray `scattered_ray` whose direction was
    /// drawn from the unit ball, with the texture's value as attenuation.
    pub fn scatter(&self, attenuation: Vec3, scattered_ray: Ray) -> (s: Option<ScatterRecord>)
        ensures
            s == Some(ScatterRecord::Isotropic { attenuation, scattered_ray }),
    {
        Some(ScatterRecord::Isotropic { attenuation, scattered_ray })
    }
}

} // verus!
