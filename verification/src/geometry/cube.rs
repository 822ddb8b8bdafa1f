//! Boxes made of six rectangles.
use crate::bounding_box::AABB;
use crate::geometry::rectangle::{Plane, RectAA};
use crate::hit::{answers, is_closest, lemma_scanned_all, reported, scan, settled, tracks, HitRecord};
use crate::ray::Ray;
use crate::scalar::Scalar;
use crate::vector::Vec3;
use vstd::prelude::*;

verus! {

/// An axis-aligned box between the corners `box_min` and `box_max`, as its
/// six faces.
pub struct Cube {
    pub box_min: Vec3,
    pub box_max: Vec3,
    pub sides: Vec<RectAA>,
    pub order: Vec<usize>,
}

/// The six faces of the box between `p0` and `p1`: for each pair of axes the
/// face at the far end of the third axis, then the face at its near end.
pub open spec fn faces(p0: Vec3, p1: Vec3, material: usize) -> Seq<RectAA> {
    seq![
        RectAA { plane: Plane::XY, a0: p0.x, a1: p1.x, b0: p0.y, b1: p1.y, k: p1.z, material },
        RectAA { plane: Plane::XY, a0: p0.x, a1: p1.x, b0: p0.y, b1: p1.y, k: p0.z, material },
        RectAA { plane: Plane::XZ, a0: p0.x, a1: p1.x, b0: p0.z, b1: p1.z, k: p1.y, material },
        RectAA { plane: Plane::XZ, a0: p0.x, a1: p1.x, b0: p0.z, b1: p1.z, k: p0.y, material },
        RectAA { plane: Plane::YZ, a0: p0.y, a1: p1.y, b0: p0.z, b1: p1.z, k: p1.x, material },
        RectAA { plane: Plane::YZ, a0: p0.y, a1: p1.y, b0: p0.z, b1: p1.z, k: p0.x, material },
    ]
}

impl Cube {
    /// Whether the cube has its six faces, numbered in order.
    pub open spec fn wf(&self) -> bool {
        &&& self.sides@.len() == 6
        &&& self.order@ == seq![0usize, 1, 2, 3, 4, 5]
    }

    /// The box between the corners `p0` and `p1`, all of one material.
    pub fn new(p0: Vec3, p1: Vec3, material: usize) -> (c: Cube)
        ensures
            c.box_min == p0,
            c.box_max == p1,
            c.sides@ == faces(p0, p1, material),
            c.wf(),
    {
        let mut sides: Vec<RectAA> = Vec::new();
        sides.push(RectAA::xy(p0.x, p1.x, p0.y, p1.y, p1.z, material));
        sides.push(RectAA::xy(p0.x, p1.x, p0.y, p1.y, p0.z, material));
        sides.push(RectAA::xz(p0.x, p1.x, p0.z, p1.z, p1.y, material));
        sides.push(RectAA::xz(p0.x, p1.x, p0.z, p1.z, p0.y, material));
        sides.push(RectAA::yz(p0.y, p1.y, p0.z, p1.z, p1.x, material));
        sides.push(RectAA::yz(p0.y, p1.y, p0.z, p1.z, p0.x, material));
        let mut order: Vec<usize> = Vec::new();
        order.push(0);
        order.push(1);
        order.push(2);
        order.push(3);
        order.push(4);
        order.push(5);
        assert(sides@ =~= faces(p0, p1, material));
        assert(order@ =~= seq![0usize, 1, 2, 3, 4, 5]);
        Cube { box_min: p0, box_max: p1, sides, order }
    }

    /// The box between the two corners.
    pub fn bounding_box(&self) -> (b: Option<AABB>)
        ensures
            b == Some(AABB { min: self.box_min, max: self.box_max }),
    {
        Some(AABB::new(self.box_min, self.box_max))
    }

    /// The closest hit among the six faces within `[t_min, t_max]`.
    ///
    /// `side_hit(i, r, t_min, bound)` is asked for the hit of face `i`, in
    /// order and with the bound lowered to each hit reported.
    pub fn hit<P: Fn(usize, Ray, Scalar, Scalar) -> Option<HitRecord>>(
        &self,
        r: &Ray,
        t_min: Scalar,
        t_max: Scalar,
        side_hit: &P,
    ) -> (res: Option<HitRecord>)
        requires
            forall|o: usize, b: Scalar| self.order@.contains(o) ==> #[trigger] side_hit.requires((o, *r, t_min, b)),
        ensures
            reported(side_hit, self.order@, *r, t_min, res),
            forall|hits: Seq<Option<HitRecord>>| #[trigger]
                answers(side_hit, *r, t_min, hits) && self.wf() && hits.len() == 6 ==> is_closest(res, hits, t_max),
    {
        let (res, bound) = scan(&self.order, 0, self.order.len(), r, t_min, None, t_max, side_hit);
        proof {
            assert forall|hits: Seq<Option<HitRecord>>| #[trigger]
                answers(side_hit, *r, t_min, hits) && self.wf() && hits.len() == 6 implies is_closest(
                res,
                hits,
                t_max,
            ) by {
                assert(tracks(None, t_max, hits, t_max));
                assert forall|i: int| 0 <= i < hits.len() implies #[trigger] settled(res, bound, hits, i) by {
                    assert(self.order@[i] == i);
                    assert(settled(res, bound, hits, self.order@[i] as int));
                }
                lemma_scanned_all(hits, res, bound, t_max);
            }
        }
        res
    }
}

} // verus!
