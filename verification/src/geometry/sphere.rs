//! Spheres: which of the two crossings of a ray counts as the hit.
use crate::hit::{recorded, HitRecord, Surface};
use crate::ray::{farthest_hit, nearest_hit, Ray, FARTHEST_HIT_BITS, NEAREST_HIT_BITS};
use crate::scalar::{vlt, Scalar};
use crate::vector::Vec3;
use vstd::prelude::*;

verus! {

/// A sphere around `center`; `material` is the number of its material.
#[derive(Clone, Copy, Debug)]
pub struct Sphere {
    pub center: Vec3,
    pub radius: Scalar,
    pub material: usize,
}

/// What the arithmetic reports of a ray and a sphere: the discriminant of
/// the quadratic for the crossings, and the ray parameters of the nearer and
/// of the farther crossing.
#[derive(Clone, Copy, Debug)]
pub struct Roots {
    pub discriminant: Scalar,
    pub near: Scalar,
    pub far: Scalar,
}

/// Whether `t` lies outside `[t_min, t_max]`.
pub open spec fn outside(t: Option<int>, t_min: Option<int>, t_max: Option<int>) -> bool {
    vlt(t_max, t) || vlt(t, t_min)
}

/// The ray parameter of the hit: none for a discriminant below zero; else the
/// nearer crossing unless it lies outside `[t_min, t_max]`, then the farther
/// one unless it lies outside too.
pub open spec fn root_in_range(roots: Roots, t_min: Scalar, t_max: Scalar) -> Option<Scalar> {
    if vlt(roots.discriminant@, Some(0int)) {
        None
    } else if !outside(roots.near@, t_min@, t_max@) {
        Some(roots.near)
    } else if !outside(roots.far@, t_min@, t_max@) {
        Some(roots.far)
    } else {
        None
    }
}

impl Sphere {
    pub fn new(center: Vec3, radius: Scalar, material: usize) -> (s: Sphere)
        ensures
            s == (Sphere { center, radius, material }),
    {
        Sphere { center, radius, material }
    }

    /// The ray parameter of the hit within `[t_min, t_max]`, see [`root_in_range`].
    pub fn pick_root(roots: &Roots, t_min: Scalar, t_max: Scalar) -> (t: Option<Scalar>)
        ensures
            t == root_in_range(*roots, t_min, t_max),
    {
        if roots.discriminant.lt(Scalar::zero()) {
            return None;
        }
        let mut t = roots.near;
        if t.gt(t_max) || t.lt(t_min) {
            t = roots.far;
            if t.gt(t_max) || t.lt(t_min) {
                return None;
            }
        }
        Some(t)
    }

    /// The hit of `r` on the sphere within `[t_min, t_max]`.
    ///
    /// `solve(sphere, r)` is asked for the crossings of the ray with the
    /// sphere, and, where one of them counts, `surface(sphere, r, t)` for the
    /// outward normal and the rest of what is known of the point at `t`.
    pub fn hit<Q: Fn(Sphere, Ray) -> Roots, F: Fn(Sphere, Ray, Scalar) -> (Vec3, Surface)>(
        &self,
        r: &Ray,
        t_min: Scalar,
        t_max: Scalar,
        solve: &Q,
        surface: &F,
    ) -> (res: Option<HitRecord>)
        requires
            forall|s: Sphere, ray: Ray| #[trigger] solve.requires((s, ray)),
            forall|s: Sphere, ray: Ray, t: Scalar| #[trigger] surface.requires((s, ray, t)),
        ensures
            exists|roots: Roots| #[trigger]
                solve.ensures((*self, *r), roots) && match root_in_range(roots, t_min, t_max) {
                    None => res is None,
                    Some(t) => exists|outward: Vec3, at: Surface| #[trigger]
                        surface.ensures((*self, *r, t), (outward, at)) && res == Some(
                            recorded(t, at, outward, self.material),
                        ),
                },
    {
        let roots = solve(*self, *r);
        match Sphere::pick_root(&roots, t_min, t_max) {
            None => None,
            Some(t) => {
                let (outward, at) = surface(*self, *r, t);
                let h = HitRecord::new(t, at, &outward, self.material);
                assert(surface.ensures((*self, *r, t), (outward, at)));
                Some(h)
            },
        }
    }

    /// The density with which sampling towards the sphere proposes the
    /// direction of `probe`, a ray from the point that samples: zero where
    /// the ray misses the sphere, and otherwise the density over the cone
    /// that the sphere fills as seen from there, which `cone` computes.
    pub fn pdf_value<Q: Fn(Sphere, Ray) -> Roots, D: Fn(Sphere, Vec3) -> Scalar>(
        &self,
        probe: &Ray,
        solve: &Q,
        cone: &D,
    ) -> (d: Scalar)
        requires
            forall|s: Sphere, ray: Ray| #[trigger] solve.requires((s, ray)),
            cone.requires((*self, probe.ori)),
        ensures
            exists|roots: Roots| #[trigger]
                solve.ensures((*self, *probe), roots) && match root_in_range(roots, nearest_hit(), farthest_hit()) {
                    None => d.bits == 0,
                    Some(t) => cone.ensures((*self, probe.ori), d),
                },
    {
        let nearest = Scalar::from_bits(NEAREST_HIT_BITS);
        let farthest = Scalar::from_bits(FARTHEST_HIT_BITS);
        let roots = solve(*self, *probe);
        match Sphere::pick_root(&roots, nearest, farthest) {
            None => Scalar::zero(),
            Some(_) => cone(*self, probe.ori),
        }
    }
}

} // verus!
