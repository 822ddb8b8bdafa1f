//! Sampling strategies: which of them proposes a direction, and how the
//! density of a mixture is put together from the densities of its parts.
use crate::scalar::Scalar;
use crate::vector::Vec3;
use rand::Rng;
use vstd::prelude::*;

verus! {

/// The magnitude above which the x component of a unit normal counts as
/// nearly parallel to the x axis: the bit pattern of 0.9.
pub const NEARLY_PARALLEL_BITS: u32 = 0x3f66_6666;

/// An orthonormal basis around the normal `w`.
#[derive(Clone, Copy, Debug)]
pub struct Onb {
    pub u: Vec3,
    pub v: Vec3,
    pub w: Vec3,
}

impl Onb {
    /// The axis from which the basis around the unit normal `w` is derived:
    /// one that is not nearly parallel to `w`. That is the y axis where the
    /// x component of `w` exceeds 0.9 in magnitude, and the x axis otherwise.
    pub fn helper_axis(w: &Vec3) -> (a: Vec3)
        ensures
            a == (if w.x@ is Some && w.x.magnitude() > NEARLY_PARALLEL_BITS {
                Vec3::spec_unit_y()
            } else {
                Vec3::spec_unit_x()
            }),
    {
        if w.x.abs().gt(Scalar::from_bits(NEARLY_PARALLEL_BITS)) {
            Vec3::unit_y()
        } else {
            Vec3::unit_x()
        }
    }

    /// The basis with the given axes.
    pub fn new(u: Vec3, v: Vec3, w: Vec3) -> (b: Onb)
        ensures
            b == (Onb { u, v, w }),
    {
        Onb { u, v, w }
    }
}

/// A sampling strategy: cosine-weighted around a normal, towards a
/// primitive (known by its number) as seen from `origin`, or an even mixture
/// of two strategies.
#[derive(Debug)]
pub enum Pdf {
    Cosine { uvw: Onb },
    Hittable { origin: Vec3, hittable: usize },
    Mixture { p: Box<Pdf>, q: Box<Pdf> },
}

/// `gen` of the crate rand for a `bool`, on the generator of the current
/// thread: a fair coin. Nothing is claimed of the outcome.
#[verifier::external_body]
fn flip() -> (heads: bool) {
    rand::thread_rng().gen::<bool>()
}

impl Pdf {
    /// Whether `leaf` is one of the strategies that `self` is mixed from, or
    /// `self` itself where `self` is no mixture.
    pub open spec fn has_leaf(&self, leaf: Pdf) -> bool
        decreases self,
    {
        match self {
            Pdf::Mixture { p, q } => p.has_leaf(leaf) || q.has_leaf(leaf),
            _ => *self == leaf,
        }
    }

    /// Whether `value` may come out as the density of `self` for
    /// `direction`: for a mixture it is what `mean` makes of the densities of
    /// the two parts, and for any other strategy what `density` gives.
    pub open spec fn evaluates<D: Fn(&Pdf, Vec3) -> Scalar, M: Fn(Scalar, Scalar) -> Scalar>(
        &self,
        direction: Vec3,
        density: &D,
        mean: &M,
        value: Scalar,
    ) -> bool
        decreases self,
    {
        match self {
            Pdf::Mixture { p, q } => exists|a: Scalar, b: Scalar|
                p.evaluates(direction, density, mean, a) && q.evaluates(direction, density, mean, b)
                    && #[trigger] mean.ensures((a, b), value),
            _ => density.ensures((self, direction), value),
        }
    }

    /// The cosine-weighted strategy around the normal of `uvw`.
    pub fn cosine_pdf(uvw: Onb) -> (pdf: Pdf)
        ensures
            pdf == (Pdf::Cosine { uvw }),
    {
        Pdf::Cosine { uvw }
    }

    /// The strategy that samples towards the primitive `hittable` from `origin`.
    pub fn hittable_pdf(hittable: usize, origin: &Vec3) -> (pdf: Pdf)
        ensures
            pdf == (Pdf::Hittable { origin: *origin, hittable }),
    {
        Pdf::Hittable { origin: *origin, hittable }
    }

    /// The even mixture of `p` and `q`.
    pub fn mixture_pdf(p: Pdf, q: Pdf) -> (pdf: Pdf)
        ensures
            pdf == (Pdf::Mixture { p: Box::new(p), q: Box::new(q) }),
    {
        Pdf::Mixture { p: Box::new(p), q: Box::new(q) }
    }

    /// The density of the strategy for `direction`.
    ///
    /// `density` is asked for the density of each strategy that is no
    /// mixture, and `mean` for the mean of the densities of the two parts of
    /// a mixture. No random draw enters: both parts of a mixture are always
    /// evaluated.
    pub fn value<D: Fn(&Pdf, Vec3) -> Scalar, M: Fn(Scalar, Scalar) -> Scalar>(
        &self,
        direction: Vec3,
        density: &D,
        mean: &M,
    ) -> (value: Scalar)
        requires
            forall|leaf: &Pdf, d: Vec3| #[trigger] density.requires((leaf, d)),
            forall|a: Scalar, b: Scalar| #[trigger] mean.requires((a, b)),
        ensures
            self.evaluates(direction, density, mean, value),
        decreases self,
    {
        match self {
            Pdf::Mixture { p, q } => {
                let a = p.value(direction, density, mean);
                let b = q.value(direction, density, mean);
                let value = mean(a, b);
                assert(p.evaluates(direction, density, mean, a) && q.evaluates(direction, density, mean, b)
                    && mean.ensures((a, b), value));
                value
            },
            _ => density(self, direction),
        }
    }

    /// A direction drawn from the strategy.
    ///
    /// A mixture flips a fair coin for the part that draws. `draw` is asked
    /// for the direction, with the strategy, no mixture, that the coins led
    /// to.
    pub fn generate<G: Fn(&Pdf) -> Vec3>(&self, draw: &G) -> (direction: Vec3)
        requires
            forall|leaf: &Pdf| #[trigger] draw.requires((leaf,)),
        ensures
            exists|leaf: Pdf| self.has_leaf(leaf) && #[trigger] draw.ensures((&leaf,), direction),
        decreases self,
    {
        match self {
            Pdf::Mixture { p, q } => {
                if flip() {
                    p.generate(draw)
                } else {
                    q.generate(draw)
                }
            },
            _ => {
                let direction = draw(self);
                assert(self.has_leaf(*self) && draw.ensures((self,), direction));
                direction
            },
        }
    }
}

} // verus!
