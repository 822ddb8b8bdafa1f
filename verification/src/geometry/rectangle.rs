//! Rectangles that lie in a plane parallel to two of the axes.
use crate::bounding_box::AABB;
use crate::hit::{recorded, HitRecord, Surface};
use crate::ray::Ray;
use crate::scalar::{vlt, Scalar};
use crate::vector::Vec3;
use vstd::prelude::*;

verus! {

/// The pair of axes that a rectangle is parallel to.
#[derive(Clone, Copy, Debug, PartialEq, Eq, Structural)]
pub enum Plane {
    XY,
    XZ,
    YZ,
}

/// A rectangle in the plane `plane` at the height `k` on the third axis. It
/// spans `a0..a1` on the first axis of the plane and `b0..b1` on the second;
/// `material` is the number of its material.
#[derive(Clone, Copy, Debug)]
pub struct RectAA {
    pub plane: Plane,
    pub a0: Scalar,
    pub a1: Scalar,
    pub b0: Scalar,
    pub b1: Scalar,
    pub k: Scalar,
    pub material: usize,
}

impl RectAA {
    pub fn new(plane: Plane, a0: Scalar, a1: Scalar, b0: Scalar, b1: Scalar, k: Scalar, material: usize) -> (r:
        RectAA)
        ensures
            r == (RectAA { plane, a0, a1, b0, b1, k, material }),
    {
        RectAA { plane, a0, a1, b0, b1, k, material }
    }

    /// A rectangle parallel to the x and y axes, at `z = k`.
    pub fn xy(x0: Scalar, x1: Scalar, y0: Scalar, y1: Scalar, k: Scalar, material: usize) -> (r: RectAA)
        ensures
            r == (RectAA { plane: Plane::XY, a0: x0, a1: x1, b0: y0, b1: y1, k, material }),
    {
        RectAA { plane: Plane::XY, a0: x0, a1: x1, b0: y0, b1: y1, k, material }
    }

    /// A rectangle parallel to the x and z axes, at `y = k`.
    pub fn xz(x0: Scalar, x1: Scalar, z0: Scalar, z1: Scalar, k: Scalar, material: usize) -> (r: RectAA)
        ensures
            r == (RectAA { plane: Plane::XZ, a0: x0, a1: x1, b0: z0, b1: z1, k, material }),
    {
        RectAA { plane: Plane::XZ, a0: x0, a1: x1, b0: z0, b1: z1, k, material }
    }

    /// A rectangle parallel to the y and z axes, at `x = k`.
    pub fn yz(y0: Scalar, y1: Scalar, z0: Scalar, z1: Scalar, k: Scalar, material: usize) -> (r: RectAA)
        ensures
            r == (RectAA { plane: Plane::YZ, a0: y0, a1: y1, b0: z0, b1: z1, k, material }),
    {
        RectAA { plane: Plane::YZ, a0: y0, a1: y1, b0: z0, b1: z1, k, material }
    }

    /// The box of the rectangle, given the heights `below` and `above` that
    /// pad it on the axis on which it is flat: the rectangle's own span on
    /// the two axes of its plane, and `below..above` on the third.
    pub fn bounding_box(&self, below: Scalar, above: Scalar) -> (b: Option<AABB>)
        ensures
            b == Some(self.spec_bounding_box(below, above)),
    {
        match self.plane {
            Plane::XY => Some(
                AABB::new(Vec3::new(self.a0, self.b0, below), Vec3::new(self.a1, self.b1, above)),
            ),
            Plane::XZ => Some(
                AABB::new(Vec3::new(self.a0, below, self.b0), Vec3::new(self.a1, above, self.b1)),
            ),
            Plane::YZ => Some(
                AABB::new(Vec3::new(below, self.a0, self.b0), Vec3::new(above, self.a1, self.b1)),
            ),
        }
    }

    pub open spec fn spec_bounding_box(&self, below: Scalar, above: Scalar) -> AABB {
        match self.plane {
            Plane::XY => AABB {
                min: Vec3 { x: self.a0, y: self.b0, z: below },
                max: Vec3 { x: self.a1, y: self.b1, z: above },
            },
            Plane::XZ => AABB {
                min: Vec3 { x: self.a0, y: below, z: self.b0 },
                max: Vec3 { x: self.a1, y: above, z: self.b1 },
            },
            Plane::YZ => AABB {
                min: Vec3 { x: below, y: self.a0, z: self.b0 },
                max: Vec3 { x: above, y: self.a1, z: self.b1 },
            },
        }
    }

    /// The outward normal of the rectangle: the unit vector along the axis on
    /// which it is flat.
    pub fn normal(&self) -> (n: Vec3)
        ensures
            n == (match self.plane {
                Plane::XY => Vec3::spec_unit_z(),
                Plane::XZ => Vec3::spec_unit_y(),
                Plane::YZ => Vec3::spec_unit_x(),
            }),
    {
        match self.plane {
            Plane::XY => Vec3::unit_z(),
            Plane::XZ => Vec3::unit_y(),
            Plane::YZ => Vec3::unit_x(),
        }
    }

    /// Whether a ray that meets the plane at parameter `t`, in the point
    /// `(a, b)` of the plane, hits the rectangle within `[t_min, t_max]`: the
    /// parameter is not outside the interval and the point not outside the
    /// rectangle's span.
    pub fn accepts(&self, t: Scalar, a: Scalar, b: Scalar, t_min: Scalar, t_max: Scalar) -> (hit: bool)
        ensures
            hit == !(vlt(t@, t_min@) || vlt(t_max@, t@) || vlt(a@, self.a0@) || vlt(self.a1@, a@) || vlt(
                b@,
                self.b0@,
            ) || vlt(self.b1@, b@)),
    {
        if t.lt(t_min) || t.gt(t_max) {
            return false;
        }
        !(a.lt(self.a0) || a.gt(self.a1) || b.lt(self.b0) || b.gt(self.b1))
    }
}

/// What the arithmetic reports of a ray and the plane of a rectangle: the
/// ray parameter `t` at which the ray meets the plane and the point `(a, b)`
/// of the plane in which it does.
#[derive(Clone, Copy, Debug)]
pub struct Crossing {
    pub t: Scalar,
    pub a: Scalar,
    pub b: Scalar,
}

impl RectAA {
    /// Whether a ray with the crossing `c` hits the rectangle within
    /// `[t_min, t_max]`.
    pub open spec fn admits(&self, c: Crossing, t_min: Scalar, t_max: Scalar) -> bool {
        !(vlt(c.t@, t_min@) || vlt(t_max@, c.t@) || vlt(c.a@, self.a0@) || vlt(self.a1@, c.a@) || vlt(
            c.b@,
            self.b0@,
        ) || vlt(self.b1@, c.b@))
    }

    /// The outward normal of the rectangle.
    pub open spec fn spec_normal(&self) -> Vec3 {
        match self.plane {
            Plane::XY => Vec3::spec_unit_z(),
            Plane::XZ => Vec3::spec_unit_y(),
            Plane::YZ => Vec3::spec_unit_x(),
        }
    }

    /// The hit of `r` on the rectangle within `[t_min, t_max]`.
    ///
    /// `cross(rect, r)` is asked where the ray meets the rectangle's plane,
    /// and, where that is a hit, `surface(rect, r, crossing)` for what is
    /// known of the point.
    pub fn hit<Q: Fn(RectAA, Ray) -> Crossing, F: Fn(RectAA, Ray, Crossing) -> Surface>(
        &self,
        r: &Ray,
        t_min: Scalar,
        t_max: Scalar,
        cross: &Q,
        surface: &F,
    ) -> (res: Option<HitRecord>)
        requires
            forall|rect: RectAA, ray: Ray| #[trigger] cross.requires((rect, ray)),
            forall|rect: RectAA, ray: Ray, c: Crossing| #[trigger] surface.requires((rect, ray, c)),
        ensures
            exists|c: Crossing| #[trigger]
                cross.ensures((*self, *r), c) && if self.admits(c, t_min, t_max) {
                    exists|at: Surface| #[trigger]
                        surface.ensures((*self, *r, c), at) && res == Some(
                            recorded(c.t, at, self.spec_normal(), self.material),
                        )
                } else {
                    res is None
                },
    {
        let c = cross(*self, *r);
        if !self.accepts(c.t, c.a, c.b, t_min, t_max) {
            return None;
        }
        let at = surface(*self, *r, c);
        let outward = self.normal();
        let h = HitRecord::new(c.t, at, &outward, self.material);
        assert(surface.ensures((*self, *r, c), at));
        Some(h)
    }
}

} // verus!
