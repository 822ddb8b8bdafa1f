//! Primitives that are another primitive moved or turned: what becomes of
//! the bounding box.
use crate::bounding_box::{Bounds, AABB};
use crate::hit::{carried, HitRecord};
use crate::ray::Ray;
use crate::scalar::{vmax, vmin, Scalar};
use crate::vector::{Triple, Vec3};
use vstd::prelude::*;

verus! {

/// A primitive moved by `offset`.
#[derive(Clone, Copy, Debug)]
pub struct Translate {
    pub offset: Vec3,
}

/// A primitive turned about the y axis by the angle with the given sine and
/// cosine; `aabb` is the box of the turned primitive, if the primitive has
/// one.
#[derive(Clone, Copy, Debug)]
pub struct Rotate {
    pub sin_theta: Scalar,
    pub cos_theta: Scalar,
    pub aabb: Option<AABB>,
}

/// The smallest box around the first `n` of the `points`, starting from the
/// empty box.
pub open spec fn around(points: Seq<Vec3>, n: int) -> Bounds
    decreases n,
{
    if n <= 0 {
        Bounds::empty()
    } else {
        let rest = around(points, n - 1);
        let p = points[n - 1]@;
        Bounds {
            lo: Triple { x: vmin(rest.lo.x, p.x), y: vmin(rest.lo.y, p.y), z: vmin(rest.lo.z, p.z) },
            hi: Triple { x: vmax(rest.hi.x, p.x), y: vmax(rest.hi.y, p.y), z: vmax(rest.hi.z, p.z) },
        }
    }
}

/// Which end of the box a corner takes on each axis: corner `c` of the eight
/// takes the far end on x for `c >= 4`, on y where `c / 2` is odd and on z
/// where `c` is odd.
pub open spec fn corner_ends(c: int) -> (bool, bool, bool) {
    (c / 4 % 2 == 1, c / 2 % 2 == 1, c % 2 == 1)
}

impl Translate {
    pub fn new(offset: Vec3) -> (t: Translate)
        ensures
            t.offset == offset,
    {
        Translate { offset }
    }

    /// The box of the moved primitive: both corners of the primitive's box,
    /// each moved by `shift`, which is given the corner and the offset; no
    /// box if the primitive has none.
    pub fn bounding_box<F: Fn(Vec3, Vec3) -> Vec3>(&self, inner: Option<AABB>, shift: &F) -> (b: Option<AABB>)
        requires
            forall|p: Vec3, o: Vec3| #[trigger] shift.requires((p, o)),
        ensures
            inner is None <==> b is None,
            inner matches Some(i) ==> shift.ensures((i.min, self.offset), b->0.min) && shift.ensures(
                (i.max, self.offset),
                b->0.max,
            ),
    {
        match inner {
            Some(aabb) => Some(AABB::new(shift(aabb.min(), self.offset), shift(aabb.max(), self.offset))),
            None => None,
        }
    }
}

impl Rotate {
    /// The turned primitive with the box around the eight turned corners of
    /// the primitive's box `bbox`, and without a box if the primitive has
    /// none. `turn(bbox, far_x, far_y, far_z)` is asked for each corner of
    /// `bbox`, named by the end it takes on each axis, where it is after the
    /// turn.
    pub fn new<F: Fn(AABB, bool, bool, bool) -> Vec3>(
        sin_theta: Scalar,
        cos_theta: Scalar,
        bbox: Option<AABB>,
        turn: &F,
    ) -> (r: Rotate)
        requires
            forall|b: AABB, x: bool, y: bool, z: bool| #[trigger] turn.requires((b, x, y, z)),
        ensures
            r.sin_theta == sin_theta,
            r.cos_theta == cos_theta,
            bbox is None <==> r.aabb is None,
            bbox matches Some(b) ==> exists|turned: Seq<Vec3>|
                {
                    &&& turned.len() == 8
                    &&& forall|c: int|
                        0 <= c < 8 ==> turn.ensures(
                            (b, corner_ends(c).0, corner_ends(c).1, corner_ends(c).2),
                            #[trigger] turned[c],
                        )
                    &&& r.aabb->0@ == around(turned, 8)
                },
    {
        match bbox {
            None => Rotate { sin_theta, cos_theta, aabb: None },
            Some(b) => {
                let mut min = Vec3::new(Scalar::infinity(), Scalar::infinity(), Scalar::infinity());
                let mut max = Vec3::new(Scalar::neg_infinity(), Scalar::neg_infinity(), Scalar::neg_infinity());
                let ghost mut turned: Seq<Vec3> = Seq::empty();
                let mut c: usize = 0;
                while c < 8
                    invariant
                        c <= 8,
                        turned.len() == c,
                        forall|b: AABB, x: bool, y: bool, z: bool| #[trigger] turn.requires((b, x, y, z)),
                        forall|d: int|
                            0 <= d < c ==> turn.ensures(
                                (b, corner_ends(d).0, corner_ends(d).1, corner_ends(d).2),
                                #[trigger] turned[d],
                            ),
                        (AABB { min, max })@ == around(turned, c as int),
                    decreases 8 - c,
                {
                    let tester = turn(b, c / 4 % 2 == 1, c / 2 % 2 == 1, c % 2 == 1);
                    let ghost before = turned;
                    proof {
                        turned = turned.push(tester);
                        lemma_around_ignores_rest(before, turned, c as int);
                    }
                    min = Vec3::new(min.x.min(tester.x), min.y.min(tester.y), min.z.min(tester.z));
                    max = Vec3::new(max.x.max(tester.x), max.y.max(tester.y), max.z.max(tester.z));
                    c += 1;
                }
                Rotate { sin_theta, cos_theta, aabb: Some(AABB::new(min, max)) }
            },
        }
    }

    /// The box of the turned primitive.
    pub fn bounding_box(&self) -> (b: Option<AABB>)
        ensures
            b == self.aabb,
    {
        self.aabb
    }
}

impl Translate {
    /// The hit of `r` on the moved primitive within `[t_min, t_max]`.
    ///
    /// `moved(r, offset)` is asked for the ray as the primitive sees it,
    /// `inner` for the hit of that ray on the primitive, and `back(hit, ray,
    /// offset)` for the point of the hit moved back, with the dot product of
    /// the moved ray's direction and the normal of the hit. The normal is
    /// that of the hit, turned against the moved ray.
    pub fn hit<
        M: Fn(Ray, Vec3) -> Ray,
        H: Fn(Ray, Scalar, Scalar) -> Option<HitRecord>,
        B: Fn(HitRecord, Ray, Vec3) -> (Vec3, Scalar),
    >(&self, r: &Ray, t_min: Scalar, t_max: Scalar, moved: &M, inner: &H, back: &B) -> (res: Option<HitRecord>)
        requires
            forall|ray: Ray, o: Vec3| #[trigger] moved.requires((ray, o)),
            forall|ray: Ray, a: Scalar, b: Scalar| #[trigger] inner.requires((ray, a, b)),
            forall|h: HitRecord, ray: Ray, o: Vec3| #[trigger] back.requires((h, ray, o)),
        ensures
            exists|seen: Ray, found: Option<HitRecord>|
                #![trigger moved.ensures((*r, self.offset), seen), inner.ensures((seen, t_min, t_max), found)]
                moved.ensures((*r, self.offset), seen) && inner.ensures((seen, t_min, t_max), found) && match found {
                    None => res is None,
                    Some(h) => exists|p: Vec3, dot: Scalar| #[trigger]
                        back.ensures((h, seen, self.offset), (p, dot)) && res == Some(carried(h, p, h.n, dot)),
                },
    {
        let seen = moved(*r, self.offset);
        let found = inner(seen, t_min, t_max);
        proof {
            assert(moved.ensures((*r, self.offset), seen) && inner.ensures((seen, t_min, t_max), found));
        }
        match found {
            Some(h) => {
                let (p, dot) = back(h, seen, self.offset);
                let on = h.n;
                let out = h.carry(p, &on, dot);
                assert(back.ensures((h, seen, self.offset), (p, dot)));
                Some(out)
            },
            None => None,
        }
    }
}

impl Rotate {
    /// The hit of `r` on the turned primitive within `[t_min, t_max]`.
    ///
    /// `turned(r, sin, cos)` is asked for the ray as the primitive sees it,
    /// `inner` for the hit of that ray on the primitive, and `back(hit, ray,
    /// sin, cos)` for the point and the normal of the hit turned back, with
    /// the dot product of the turned ray's direction and that normal. The
    /// normal is turned against the turned ray.
    pub fn hit<
        M: Fn(Ray, Scalar, Scalar) -> Ray,
        H: Fn(Ray, Scalar, Scalar) -> Option<HitRecord>,
        B: Fn(HitRecord, Ray, Scalar, Scalar) -> (Vec3, Vec3, Scalar),
    >(&self, r: &Ray, t_min: Scalar, t_max: Scalar, turned: &M, inner: &H, back: &B) -> (res: Option<HitRecord>)
        requires
            forall|ray: Ray, s: Scalar, c: Scalar| #[trigger] turned.requires((ray, s, c)),
            forall|ray: Ray, a: Scalar, b: Scalar| #[trigger] inner.requires((ray, a, b)),
            forall|h: HitRecord, ray: Ray, s: Scalar, c: Scalar| #[trigger] back.requires((h, ray, s, c)),
        ensures
            exists|seen: Ray, found: Option<HitRecord>|
                #![trigger turned.ensures((*r, self.sin_theta, self.cos_theta), seen), inner.ensures((seen, t_min, t_max), found)]
                turned.ensures((*r, self.sin_theta, self.cos_theta), seen) && inner.ensures(
                    (seen, t_min, t_max),
                    found,
                ) && match found {
                    None => res is None,
                    Some(h) => exists|p: Vec3, n: Vec3, dot: Scalar| #[trigger]
                        back.ensures((h, seen, self.sin_theta, self.cos_theta), (p, n, dot)) && res == Some(
                            carried(h, p, n, dot),
                        ),
                },
    {
        let seen = turned(*r, self.sin_theta, self.cos_theta);
        let found = inner(seen, t_min, t_max);
        proof {
            assert(turned.ensures((*r, self.sin_theta, self.cos_theta), seen) && inner.ensures(
                (seen, t_min, t_max),
                found,
            ));
        }
        match found {
            Some(h) => {
                let (p, n, dot) = back(h, seen, self.sin_theta, self.cos_theta);
                let out = h.carry(p, &n, dot);
                assert(back.ensures((h, seen, self.sin_theta, self.cos_theta), (p, n, dot)));
                Some(out)
            },
            None => None,
        }
    }
}

/// The box around the first `n` points depends on those points alone.
proof fn lemma_around_ignores_rest(a: Seq<Vec3>, b: Seq<Vec3>, n: int)
    requires
        0 <= n <= a.len(),
        n <= b.len(),
        forall|i: int| 0 <= i < n ==> a[i] == b[i],
    ensures
        around(a, n) == around(b, n),
    decreases n,
{
    if n > 0 {
        lemma_around_ignores_rest(a, b, n - 1);
    }
}

} // verus!
