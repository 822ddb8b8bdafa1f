//! Real numbers as the library sees them.
//!
//! A [`Scalar`] is a binary32 number held as its bit pattern. The library
//! never does arithmetic on scalars: it orders them, selects among them and
//! flips their sign, all of which are exact operations on the bit pattern.
//! Whoever owns the arithmetic converts with `to_bits` and `from_bits`.
//!
//! The mathematical model of a scalar is an `Option<int>`: `None` for a
//! not-a-number pattern, and otherwise a *rank*, an integer whose order is the
//! numeric order of the values. Both zeros have rank 0 and the infinities have
//! the ranks `-INFINITY_RANK` and `INFINITY_RANK`.
use vstd::prelude::*;

verus! {

/// The bit that holds the sign.
pub const SIGN_BIT: u32 = 0x8000_0000;

/// The magnitude bits of an infinity; larger magnitudes are not numbers.
pub const INFINITY_BITS: u32 = 0x7f80_0000;

/// The bit pattern of 1.
pub const ONE_BITS: u32 = 0x3f80_0000;

/// The key under which `sort_key` files every not-a-number pattern.
pub const NAN_KEY: i64 = 0x8000_0000;

/// The rank of positive infinity.
pub open spec fn infinity_rank() -> int {
    INFINITY_BITS as int
}

/// The lesser of two modelled numbers, where a missing number yields to the other.
pub open spec fn vmin(a: Option<int>, b: Option<int>) -> Option<int> {
    match (a, b) {
        (None, _) => b,
        (_, None) => a,
        (Some(x), Some(y)) => if x <= y {
            a
        } else {
            b
        },
    }
}

/// The greater of two modelled numbers, where a missing number yields to the other.
pub open spec fn vmax(a: Option<int>, b: Option<int>) -> Option<int> {
    match (a, b) {
        (None, _) => b,
        (_, None) => a,
        (Some(x), Some(y)) => if x >= y {
            a
        } else {
            b
        },
    }
}

/// `a < b` on modelled numbers: false as soon as one of them is missing.
pub open spec fn vlt(a: Option<int>, b: Option<int>) -> bool {
    a is Some && b is Some && a->0 < b->0
}

/// `a <= b` on modelled numbers: false as soon as one of them is missing.
pub open spec fn vle(a: Option<int>, b: Option<int>) -> bool {
    a is Some && b is Some && a->0 <= b->0
}

/// A binary32 number, as its bit pattern.
#[derive(Clone, Copy, Debug)]
pub struct Scalar {
    pub bits: u32,
}

impl View for Scalar {
    type V = Option<int>;

    open spec fn view(&self) -> Option<int> {
        if self.is_nan() {
            None
        } else {
            Some(self.rank())
        }
    }
}

impl Scalar {
    /// The pattern without its sign bit.
    pub open spec fn magnitude(self) -> int {
        if self.bits >= SIGN_BIT {
            self.bits - SIGN_BIT
        } else {
            self.bits as int
        }
    }

    /// Whether the sign bit is set.
    pub open spec fn sign(self) -> bool {
        self.bits >= SIGN_BIT
    }

    /// Whether the pattern is not a number.
    pub open spec fn is_nan(self) -> bool {
        self.magnitude() > INFINITY_BITS
    }

    /// The signed magnitude; it orders the patterns that are numbers as their values.
    pub open spec fn rank(self) -> int {
        if self.sign() {
            -self.magnitude()
        } else {
            self.magnitude()
        }
    }

    /// The integer by which `sort_key` orders this scalar.
    pub open spec fn spec_sort_key(self) -> int {
        if self.is_nan() {
            NAN_KEY as int
        } else {
            self.rank()
        }
    }

    pub fn from_bits(bits: u32) -> (s: Scalar)
        ensures
            s.bits == bits,
    {
        Scalar { bits }
    }

    pub fn to_bits(self) -> (bits: u32)
        ensures
            bits == self.bits,
    {
        self.bits
    }

    /// Positive zero.
    pub fn zero() -> (s: Scalar)
        ensures
            s.bits == 0,
            s@ == Some(0int),
    {
        Scalar { bits: 0 }
    }

    /// The number 1.
    pub fn one() -> (s: Scalar)
        ensures
            s.bits == ONE_BITS,
            s@ == Some(ONE_BITS as int),
    {
        Scalar { bits: ONE_BITS }
    }

    /// Positive infinity.
    pub fn infinity() -> (s: Scalar)
        ensures
            s.bits == INFINITY_BITS,
            s@ == Some(infinity_rank()),
    {
        Scalar { bits: INFINITY_BITS }
    }

    /// Negative infinity.
    pub fn neg_infinity() -> (s: Scalar)
        ensures
            s.bits == INFINITY_BITS + SIGN_BIT,
            s@ == Some(-infinity_rank()),
    {
        Scalar { bits: 0xff80_0000 }
    }

    fn magnitude_bits(self) -> (m: u32)
        ensures
            m == self.magnitude(),
    {
        if self.bits >= SIGN_BIT {
            self.bits - SIGN_BIT
        } else {
            self.bits
        }
    }

    pub fn nan(self) -> (b: bool)
        ensures
            b == self.is_nan(),
            b == (self@ is None),
    {
        self.magnitude_bits() > INFINITY_BITS
    }

    /// The signed magnitude of a number, and `NAN_KEY`, which lies above every
    /// rank, for a pattern that is not a number.
    pub fn sort_key(self) -> (k: i64)
        ensures
            k == self.spec_sort_key(),
            -infinity_rank() <= k <= NAN_KEY,
    {
        let m: u32 = self.magnitude_bits();
        if m > INFINITY_BITS {
            NAN_KEY
        } else if self.bits >= SIGN_BIT {
            -(m as i64)
        } else {
            m as i64
        }
    }

    /// `self < other` as numbers; false if either is not a number.
    pub fn lt(self, other: Scalar) -> (b: bool)
        ensures
            b == vlt(self@, other@),
    {
        !self.nan() && !other.nan() && self.sort_key() < other.sort_key()
    }

    /// `self <= other` as numbers; false if either is not a number.
    pub fn le(self, other: Scalar) -> (b: bool)
        ensures
            b == vle(self@, other@),
    {
        !self.nan() && !other.nan() && self.sort_key() <= other.sort_key()
    }

    /// `self > other` as numbers; false if either is not a number.
    pub fn gt(self, other: Scalar) -> (b: bool)
        ensures
            b == vlt(other@, self@),
    {
        other.lt(self)
    }

    /// `self >= other` as numbers; false if either is not a number.
    pub fn ge(self, other: Scalar) -> (b: bool)
        ensures
            b == vle(other@, self@),
    {
        other.le(self)
    }

    /// The lesser of the two. A pattern that is not a number yields to the
    /// other argument; of two equal numbers the first is returned.
    pub fn min(self, other: Scalar) -> (m: Scalar)
        ensures
            m@ == vmin(self@, other@),
            m == self || m == other,
    {
        if self.nan() {
            other
        } else if other.nan() {
            self
        } else if self.sort_key() <= other.sort_key() {
            self
        } else {
            other
        }
    }

    /// The greater of the two. A pattern that is not a number yields to the
    /// other argument; of two equal numbers the first is returned.
    pub fn max(self, other: Scalar) -> (m: Scalar)
        ensures
            m@ == vmax(self@, other@),
            m == self || m == other,
    {
        if self.nan() {
            other
        } else if other.nan() {
            self
        } else if self.sort_key() >= other.sort_key() {
            self
        } else {
            other
        }
    }

    /// The same magnitude under the opposite sign.
    pub open spec fn neg_spec(self) -> Scalar {
        if self.bits >= SIGN_BIT {
            Scalar { bits: (self.bits - SIGN_BIT) as u32 }
        } else {
            Scalar { bits: (self.bits + SIGN_BIT) as u32 }
        }
    }

    /// The same magnitude under the opposite sign.
    pub fn neg(self) -> (n: Scalar)
        ensures
            n == self.neg_spec(),
            n.magnitude() == self.magnitude(),
            n.sign() == !self.sign(),
            n@ == (match self@ {
                Some(r) => Some(-r),
                None => None,
            }),
    {
        if self.bits >= SIGN_BIT {
            Scalar { bits: self.bits - SIGN_BIT }
        } else {
            Scalar { bits: self.bits + SIGN_BIT }
        }
    }

    /// The same magnitude with the sign bit cleared.
    pub fn abs(self) -> (a: Scalar)
        ensures
            a.bits == self.magnitude(),
            a@ == (match self@ {
                Some(r) => Some(if r < 0 {
                    -r
                } else {
                    r
                }),
                None => None,
            }),
    {
        Scalar { bits: self.magnitude_bits() }
    }
}

/// Every scalar that is a number has a rank between those of the infinities.
pub proof fn lemma_rank_bounded(s: Scalar)
    ensures
        s@ matches Some(r) ==> -infinity_rank() <= r <= infinity_rank(),
{
}

} // verus!
