//! A medium of constant density inside a boundary: where a ray that crosses
//! it may be scattered.
use crate::hit::HitRecord;
use crate::ray::{farthest_hit, Ray, FARTHEST_HIT_BITS};
use crate::scalar::{vle, vlt, vmax, vmin, Scalar, SIGN_BIT};
use crate::vector::Vec3;
use vstd::prelude::*;

verus! {

/// A medium of constant density: the material number of its phase function
/// and minus one over its density.
#[derive(Clone, Copy, Debug)]
pub struct Constant {
    pub phase_function: usize,
    pub neg_inv_density: Scalar,
}

/// The least ray parameter: the largest finite number under a minus sign.
pub open spec fn lowest_hit() -> Scalar {
    Scalar { bits: (FARTHEST_HIT_BITS + SIGN_BIT) as u32 }
}

/// The stretch of a ray inside the medium that lies within `[t_min, t_max]`,
/// for a ray that enters the boundary at `entry` and leaves it at `exit`:
/// from the later of `entry` and `t_min`, but not before zero, to the
/// earlier of `exit` and `t_max`; nothing where the stretch would end at or
/// before its start.
pub open spec fn stretch(entry: Option<int>, exit: Option<int>, t_min: Option<int>, t_max: Option<int>) -> Option<
    (Option<int>, Option<int>),
> {
    let from = vmax(entry, t_min);
    let to = vmin(exit, t_max);
    if vle(to, from) {
        None
    } else {
        Some((vmax(from, Some(0int)), to))
    }
}

/// The record of a scattering inside a medium, at the point `p` and the ray
/// parameter `t`: the normal and the side are arbitrary and fixed.
pub open spec fn scattering(p: Vec3, t: Scalar, material: usize) -> HitRecord {
    HitRecord {
        p,
        n: Vec3::spec_unit_x(),
        t,
        u: Scalar { bits: 0 },
        v: Scalar { bits: 0 },
        m: material,
        front_face: true,
    }
}

impl Constant {
    pub fn new(phase_function: usize, neg_inv_density: Scalar) -> (c: Constant)
        ensures
            c.phase_function == phase_function,
            c.neg_inv_density == neg_inv_density,
    {
        Constant { phase_function, neg_inv_density }
    }

    /// The stretch of the ray inside the medium, see [`stretch`].
    pub fn span(entry: Scalar, exit: Scalar, t_min: Scalar, t_max: Scalar) -> (s: Option<(Scalar, Scalar)>)
        ensures
            s is Some <==> stretch(entry@, exit@, t_min@, t_max@) is Some,
            s matches Some((from, to)) ==> stretch(entry@, exit@, t_min@, t_max@) == Some((from@, to@)),
    {
        let from = entry.max(t_min);
        let to = exit.min(t_max);
        if from.ge(to) {
            return None;
        }
        Some((from.max(Scalar::zero()), to))
    }

    /// Whether the ray gets through the medium: it would be scattered only
    /// after `hit_distance`, which lies beyond the `distance_inside` that it
    /// covers inside the boundary.
    pub fn gets_through(hit_distance: Scalar, distance_inside: Scalar) -> (through: bool)
        ensures
            through == vlt(distance_inside@, hit_distance@),
    {
        hit_distance.gt(distance_inside)
    }

    /// Whether `res` may come out of [`Constant::hit`].
    pub open spec fn scatters<
        B: Fn(Ray, Scalar, Scalar) -> Option<HitRecord>,
        A: Fn(Scalar) -> Scalar,
        T: Fn(Ray, Scalar, Scalar, Scalar) -> Option<(Scalar, Vec3)>,
    >(
        &self,
        r: Ray,
        t_min: Scalar,
        t_max: Scalar,
        boundary_hit: &B,
        nudge: &A,
        travel: &T,
        res: Option<HitRecord>,
    ) -> bool {
        exists|first: Option<HitRecord>| #[trigger]
            boundary_hit.ensures((r, lowest_hit(), farthest_hit()), first) && match first {
                None => res is None,
                Some(hit1) => exists|later: Scalar, second: Option<HitRecord>|
                    #![trigger nudge.ensures((hit1.t,), later), boundary_hit.ensures((r, later, farthest_hit()), second)]
                    nudge.ensures((hit1.t,), later) && boundary_hit.ensures((r, later, farthest_hit()), second)
                        && match second {
                        None => res is None,
                        Some(hit2) => match stretch(hit1.t@, hit2.t@, t_min@, t_max@) {
                            None => res is None,
                            Some(inside) => exists|from: Scalar, to: Scalar, met: Option<(Scalar, Vec3)>|
                                #![trigger travel.ensures((r, from, to, self.neg_inv_density), met)]
                                from@ == inside.0 && to@ == inside.1 && travel.ensures(
                                    (r, from, to, self.neg_inv_density),
                                    met,
                                ) && res == (match met {
                                    None => None::<HitRecord>,
                                    Some((t, p)) => Some(scattering(p, t, self.phase_function)),
                                }),
                        },
                    },
            }
    }

    /// Where the ray is scattered inside the medium within `[t_min, t_max]`,
    /// if it is.
    ///
    /// `boundary_hit(r, t_min, t_max)` is asked where the ray enters the
    /// boundary, anywhere along the ray, and then where it leaves, from
    /// `nudge` of the entry on. The ray is not scattered unless it does
    /// both and a stretch inside lies in the interval. `travel(r, from, to,
    /// neg_inv_density)` is asked how far into the stretch the ray gets
    /// before it is scattered: the parameter and the point, or nothing where
    /// it gets through.
    pub fn hit<
        B: Fn(Ray, Scalar, Scalar) -> Option<HitRecord>,
        A: Fn(Scalar) -> Scalar,
        T: Fn(Ray, Scalar, Scalar, Scalar) -> Option<(Scalar, Vec3)>,
    >(&self, r: &Ray, t_min: Scalar, t_max: Scalar, boundary_hit: &B, nudge: &A, travel: &T) -> (res: Option<
        HitRecord,
    >)
        requires
            forall|ray: Ray, a: Scalar, b: Scalar| #[trigger] boundary_hit.requires((ray, a, b)),
            forall|t: Scalar| #[trigger] nudge.requires((t,)),
            forall|ray: Ray, a: Scalar, b: Scalar, d: Scalar| #[trigger] travel.requires((ray, a, b, d)),
        ensures
            self.scatters(*r, t_min, t_max, boundary_hit, nudge, travel, res),
    {
        let lowest = Scalar::from_bits(0xff7f_ffff);
        let farthest = Scalar::from_bits(FARTHEST_HIT_BITS);
        let first = boundary_hit(*r, lowest, farthest);
        match first {
            None => None,
            Some(hit1) => {
                let later = nudge(hit1.t);
                let second = boundary_hit(*r, later, farthest);
                proof {
                    assert(nudge.ensures((hit1.t,), later) && boundary_hit.ensures((*r, later, farthest_hit()), second));
                }
                match second {
                    None => None,
                    Some(hit2) => match Constant::span(hit1.t, hit2.t, t_min, t_max) {
                        None => None,
                        Some((from, to)) => {
                            let met = travel(*r, from, to, self.neg_inv_density);
                            let res = match met {
                                None => None,
                                Some((t, p)) => Some(
                                    HitRecord {
                                        p,
                                        n: Vec3::unit_x(),
                                        t,
                                        u: Scalar::zero(),
                                        v: Scalar::zero(),
                                        m: self.phase_function,
                                        front_face: true,
                                    },
                                ),
                            };
                            proof {
                                assert(travel.ensures((*r, from, to, self.neg_inv_density), met));
                            }
                            res
                        },
                    },
                }
            },
        }
    }
}

} // verus!
