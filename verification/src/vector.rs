//! Points and directions: three scalars, one per axis.
use crate::scalar::Scalar;
use vstd::prelude::*;

verus! {

/// The model of a [`Vec3`]: the model of each of its components.
pub struct Triple {
    pub x: Option<int>,
    pub y: Option<int>,
    pub z: Option<int>,
}

impl Triple {
    /// The component along axis 0, 1 or 2; any other axis reads as the last one.
    pub open spec fn axis(self, k: int) -> Option<int> {
        if k == 0 {
            self.x
        } else if k == 1 {
            self.y
        } else {
            self.z
        }
    }

    /// Whether every component is a number.
    pub open spec fn is_real(self) -> bool {
        self.x is Some && self.y is Some && self.z is Some
    }
}

/// Three scalars, for the axes x, y and z.
#[derive(Clone, Copy, Debug)]
pub struct Vec3 {
    pub x: Scalar,
    pub y: Scalar,
    pub z: Scalar,
}

impl View for Vec3 {
    type V = Triple;

    open spec fn view(&self) -> Triple {
        Triple { x: self.x@, y: self.y@, z: self.z@ }
    }
}

impl Vec3 {
    /// The component along axis 0, 1 or 2; any other axis reads as the last one.
    pub open spec fn axis(self, k: int) -> Scalar {
        if k == 0 {
            self.x
        } else if k == 1 {
            self.y
        } else {
            self.z
        }
    }

    pub fn new(x: Scalar, y: Scalar, z: Scalar) -> (v: Vec3)
        ensures
            v == (Vec3 { x, y, z }),
    {
        Vec3 { x, y, z }
    }

    /// The vector whose components are all positive zero.
    pub open spec fn spec_zeros() -> Vec3 {
        Vec3 { x: Scalar { bits: 0 }, y: Scalar { bits: 0 }, z: Scalar { bits: 0 } }
    }

    /// The vector whose components are all 1.
    pub open spec fn spec_ones() -> Vec3 {
        Vec3 {
            x: Scalar { bits: crate::scalar::ONE_BITS },
            y: Scalar { bits: crate::scalar::ONE_BITS },
            z: Scalar { bits: crate::scalar::ONE_BITS },
        }
    }

    /// The vector whose components are all 1.
    pub fn ones() -> (v: Vec3)
        ensures
            v == Vec3::spec_ones(),
    {
        Vec3 { x: Scalar::one(), y: Scalar::one(), z: Scalar::one() }
    }

    /// The vector whose components are all positive zero.
    pub fn zeros() -> (v: Vec3)
        ensures
            v == Vec3::spec_zeros(),
    {
        Vec3 { x: Scalar::zero(), y: Scalar::zero(), z: Scalar::zero() }
    }

    /// The unit vector along the x axis.
    pub open spec fn spec_unit_x() -> Vec3 {
        Vec3 { x: Scalar { bits: crate::scalar::ONE_BITS }, y: Scalar { bits: 0 }, z: Scalar { bits: 0 } }
    }

    /// The unit vector along the y axis.
    pub open spec fn spec_unit_y() -> Vec3 {
        Vec3 { x: Scalar { bits: 0 }, y: Scalar { bits: crate::scalar::ONE_BITS }, z: Scalar { bits: 0 } }
    }

    /// The unit vector along the z axis.
    pub open spec fn spec_unit_z() -> Vec3 {
        Vec3 { x: Scalar { bits: 0 }, y: Scalar { bits: 0 }, z: Scalar { bits: crate::scalar::ONE_BITS } }
    }

    /// The unit vector along the z axis.
    pub fn unit_z() -> (v: Vec3)
        ensures
            v == Vec3::spec_unit_z(),
    {
        Vec3 { x: Scalar::zero(), y: Scalar::zero(), z: Scalar::one() }
    }

    /// The unit vector along the x axis.
    pub fn unit_x() -> (v: Vec3)
        ensures
            v == Vec3::spec_unit_x(),
    {
        Vec3 { x: Scalar::one(), y: Scalar::zero(), z: Scalar::zero() }
    }

    /// The unit vector along the y axis.
    pub fn unit_y() -> (v: Vec3)
        ensures
            v == Vec3::spec_unit_y(),
    {
        Vec3 { x: Scalar::zero(), y: Scalar::one(), z: Scalar::zero() }
    }

    /// Whether some component is not a number.
    pub fn has_nan(&self) -> (b: bool)
        ensures
            b == !self@.is_real(),
    {
        self.x.nan() || self.y.nan() || self.z.nan()
    }

    /// The component along axis 0, 1 or 2; any other axis reads as the last one.
    pub fn get(&self, axis: usize) -> (s: Scalar)
        ensures
            s == self.axis(axis as int),
    {
        if axis == 0 {
            self.x
        } else if axis == 1 {
            self.y
        } else {
            self.z
        }
    }

    /// The opposite vector: every component under the opposite sign.
    pub open spec fn neg_spec(self) -> Vec3 {
        Vec3 { x: self.x.neg_spec(), y: self.y.neg_spec(), z: self.z.neg_spec() }
    }

    /// The opposite vector: every component under the opposite sign.
    pub fn neg(&self) -> (v: Vec3)
        ensures
            v == self.neg_spec(),
    {
        Vec3 { x: self.x.neg(), y: self.y.neg(), z: self.z.neg() }
    }
}

} // verus!
