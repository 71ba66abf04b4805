//! Single-precision numbers held by their IEEE-754 bit patterns.
//!
//! The library never computes with such a number: it only orders, negates,
//! classifies and truncates it, and all of that is exact on the bits.  A
//! non-NaN pattern is a sign and a magnitude, and the order of the numbers is
//! the order of the signed magnitudes, with both zeros equal.

use vstd::arithmetic::power2::{lemma2_to64, pow2};
use vstd::prelude::*;

verus! {

/// Pattern of the sign bit.
pub const SIGN_BIT: u32 = 0x8000_0000;

/// Pattern of positive infinity; every larger magnitude is a NaN.
pub const INFINITY_BITS: u32 = 0x7f80_0000;

/// Pattern of `1.0`.
pub const ONE_BITS: u32 = 0x3f80_0000;

/// Pattern of `0.5`.
pub const HALF_BITS: u32 = 0x3f00_0000;

/// Pattern of the largest finite number.
pub const MAX_BITS: u32 = 0x7f7f_ffff;

/// Pattern of `256.0`, the least number above every byte.
pub const BYTE_END_BITS: u32 = 0x4380_0000;

/// The weight of the hidden leading bit of a normal number's significand,
/// and the number of patterns that share one exponent.
pub const HIDDEN_BIT: u32 = 0x80_0000;

/// A single-precision number, identified with its bit pattern.
///
/// `==` on this type compares patterns; the numeric comparisons are the
/// methods `lt`, `le`, `gt`, `ge` and `same`.
#[derive(Clone, Copy, Debug, PartialEq, Eq, Structural)]
pub struct Scalar {
    pub bits: u32,
}

impl Scalar {
    /// The pattern without its sign bit.
    pub open spec fn magnitude(self) -> int {
        if self.bits >= SIGN_BIT {
            self.bits - SIGN_BIT
        } else {
            self.bits as int
        }
    }

    /// Whether the sign bit is set (true of `-0.0` and of some NaNs too).
    pub open spec fn is_negative(self) -> bool {
        self.bits >= SIGN_BIT
    }

    pub open spec fn is_nan(self) -> bool {
        self.magnitude() > INFINITY_BITS
    }

    pub open spec fn is_finite(self) -> bool {
        self.magnitude() < INFINITY_BITS
    }

    /// The signed magnitude.  On patterns that are not NaN it grows exactly as
    /// the number grows, and both zeros have rank 0.
    pub open spec fn rank(self) -> int {
        if self.is_negative() {
            -self.magnitude()
        } else {
            self.magnitude()
        }
    }

    /// `self < other` as numbers: false as soon as one side is NaN.
    pub open spec fn lt_spec(self, other: Scalar) -> bool {
        !self.is_nan() && !other.is_nan() && self.rank() < other.rank()
    }

    /// `self <= other` as numbers: false as soon as one side is NaN.
    pub open spec fn le_spec(self, other: Scalar) -> bool {
        !self.is_nan() && !other.is_nan() && self.rank() <= other.rank()
    }

    /// `self == other` as numbers: NaN equals nothing, the two zeros are equal.
    pub open spec fn same_spec(self, other: Scalar) -> bool {
        !self.is_nan() && !other.is_nan() && self.rank() == other.rank()
    }

    /// The number with the opposite sign.
    pub open spec fn neg_spec(self) -> Scalar {
        if self.bits >= SIGN_BIT {
            Scalar { bits: (self.bits - SIGN_BIT) as u32 }
        } else {
            Scalar { bits: (self.bits + SIGN_BIT) as u32 }
        }
    }

    /// The number with its sign bit cleared.
    pub open spec fn abs_spec(self) -> Scalar {
        Scalar { bits: self.magnitude() as u32 }
    }

    /// The smaller of two numbers; a NaN gives way to the other argument.
    pub open spec fn min_spec(self, other: Scalar) -> Scalar {
        if self.is_nan() {
            other
        } else if other.is_nan() {
            self
        } else if other.rank() < self.rank() {
            other
        } else {
            self
        }
    }

    /// The larger of two numbers; a NaN gives way to the other argument.
    pub open spec fn max_spec(self, other: Scalar) -> Scalar {
        if self.is_nan() {
            other
        } else if other.is_nan() {
            self
        } else if self.rank() < other.rank() {
            other
        } else {
            self
        }
    }

    /// The number kept within `low ..= high`; a NaN stays what it is.
    pub open spec fn clamp_spec(self, low: Scalar, high: Scalar) -> Scalar {
        if self.lt_spec(low) {
            low
        } else if high.lt_spec(self) {
            high
        } else {
            self
        }
    }

    /// The exponent field of the pattern.
    pub open spec fn exponent(self) -> int {
        self.magnitude() / (HIDDEN_BIT as int)
    }

    /// The fraction field of the pattern.
    pub open spec fn fraction(self) -> int {
        self.magnitude() % (HIDDEN_BIT as int)
    }

    /// The byte nearest to the number among those not above it, for numbers
    /// from 0 up; 0 for a NaN and everything below 0, 255 for everything
    /// from 256 up.
    ///
    /// A number from 1 up to 256 has an exponent field `e` from 127 to 134
    /// and the value `(HIDDEN_BIT + fraction) / 2^(150 - e)`, whose whole
    /// part is taken.
    pub open spec fn to_u8_spec(self) -> int {
        if self.is_nan() || self.is_negative() {
            0
        } else if self.magnitude() >= BYTE_END_BITS {
            255
        } else if self.exponent() < 127 {
            0
        } else {
            (HIDDEN_BIT + self.fraction()) / (pow2((150 - self.exponent()) as nat) as int)
        }
    }

    pub fn from_bits(bits: u32) -> (r: Scalar)
        ensures
            r.bits == bits,
    {
        Scalar { bits }
    }

    pub fn to_bits(self) -> (r: u32)
        ensures
            r == self.bits,
    {
        self.bits
    }

    pub fn zero() -> (r: Scalar)
        ensures
            r.bits == 0,
            r.rank() == 0,
            !r.is_nan(),
    {
        Scalar { bits: 0 }
    }

    pub fn one() -> (r: Scalar)
        ensures
            r.bits == ONE_BITS,
            !r.is_nan(),
    {
        Scalar { bits: ONE_BITS }
    }

    pub fn half() -> (r: Scalar)
        ensures
            r.bits == HALF_BITS,
            !r.is_nan(),
    {
        Scalar { bits: HALF_BITS }
    }

    pub fn infinity() -> (r: Scalar)
        ensures
            r.bits == INFINITY_BITS,
            !r.is_nan(),
            forall|s: Scalar| !s.is_nan() ==> s.le_spec(r),
    {
        Scalar { bits: INFINITY_BITS }
    }

    /// The largest finite number.
    pub fn max_value() -> (r: Scalar)
        ensures
            r.bits == MAX_BITS,
            r.is_finite(),
            forall|s: Scalar| s.is_finite() ==> s.le_spec(r),
    {
        Scalar { bits: MAX_BITS }
    }

    pub fn is_nan_value(self) -> (r: bool)
        ensures
            r == self.is_nan(),
    {
        self.abs_bits() > INFINITY_BITS
    }

    fn abs_bits(self) -> (r: u32)
        ensures
            r == self.magnitude(),
    {
        if self.bits >= SIGN_BIT {
            self.bits - SIGN_BIT
        } else {
            self.bits
        }
    }

    /// The signed magnitude as a machine integer.
    pub fn rank_value(self) -> (r: i64)
        ensures
            r == self.rank(),
    {
        if self.bits >= SIGN_BIT {
            let m: u32 = self.bits - SIGN_BIT;
            0 - (m as i64)
        } else {
            self.bits as i64
        }
    }

    pub fn lt(self, other: Scalar) -> (r: bool)
        ensures
            r == self.lt_spec(other),
    {
        !self.is_nan_value() && !other.is_nan_value() && self.rank_value() < other.rank_value()
    }

    pub fn le(self, other: Scalar) -> (r: bool)
        ensures
            r == self.le_spec(other),
    {
        !self.is_nan_value() && !other.is_nan_value() && self.rank_value() <= other.rank_value()
    }

    pub fn gt(self, other: Scalar) -> (r: bool)
        ensures
            r == other.lt_spec(self),
    {
        other.lt(self)
    }

    pub fn ge(self, other: Scalar) -> (r: bool)
        ensures
            r == other.le_spec(self),
    {
        other.le(self)
    }

    /// Numeric equality.
    pub fn same(self, other: Scalar) -> (r: bool)
        ensures
            r == self.same_spec(other),
    {
        !self.is_nan_value() && !other.is_nan_value() && self.rank_value() == other.rank_value()
    }

    pub fn neg(self) -> (r: Scalar)
        ensures
            r == self.neg_spec(),
    {
        if self.bits >= SIGN_BIT {
            Scalar { bits: self.bits - SIGN_BIT }
        } else {
            Scalar { bits: self.bits + SIGN_BIT }
        }
    }

    pub fn abs(self) -> (r: Scalar)
        ensures
            r == self.abs_spec(),
    {
        Scalar { bits: self.abs_bits() }
    }

    /// The number kept within `low ..= high`.
    pub fn clamp(self, low: Scalar, high: Scalar) -> (r: Scalar)
        ensures
            r == self.clamp_spec(low, high),
    {
        if self.lt(low) {
            low
        } else if self.gt(high) {
            high
        } else {
            self
        }
    }

    /// The number as a byte: cut off behind the point and kept within
    /// `0 ..= 255`.
    pub fn to_u8(self) -> (r: u8)
        ensures
            r == self.to_u8_spec(),
    {
        if self.is_nan_value() || self.bits >= SIGN_BIT {
            0
        } else if self.bits >= BYTE_END_BITS {
            255
        } else {
            let exponent = self.bits / HIDDEN_BIT;
            let fraction = self.bits % HIDDEN_BIT;
            if exponent < 127 {
                0
            } else {
                assert(exponent <= 134);
                let mut divisor: u32 = 0x1_0000;
                let mut steps: u32 = 134;
                proof {
                    lemma2_to64();
                }
                while steps > exponent
                    invariant
                        127 <= exponent <= steps <= 134,
                        divisor == pow2((150 - steps) as nat),
                        divisor <= pow2(23),
                        divisor >= 0x1_0000,
                        pow2(23) == 0x80_0000,
                    decreases steps,
                {
                    proof {
                        vstd::arithmetic::power2::lemma_pow2_unfold((150 - steps + 1) as nat);
                        if 150 - steps + 1 < 23 {
                            vstd::arithmetic::power2::lemma_pow2_strictly_increases(
                                (150 - steps + 1) as nat,
                                23,
                            );
                        }
                    }
                    divisor = divisor * 2;
                    steps -= 1;
                }
                let whole = (HIDDEN_BIT + fraction) / divisor;
                proof {
                    let significand = HIDDEN_BIT as int + fraction as int;
                    let by = divisor as int;
                    assert(0 <= significand / by < 256) by (nonlinear_arith)
                        requires
                            0 <= significand < 0x100_0000,
                            by >= 0x1_0000,
                    ;
                }
                whole as u8
            }
        }
    }

    pub fn min(self, other: Scalar) -> (r: Scalar)
        ensures
            r == self.min_spec(other),
    {
        if self.is_nan_value() {
            other
        } else if other.is_nan_value() {
            self
        } else if other.rank_value() < self.rank_value() {
            other
        } else {
            self
        }
    }

    pub fn max(self, other: Scalar) -> (r: Scalar)
        ensures
            r == self.max_spec(other),
    {
        if self.is_nan_value() {
            other
        } else if other.is_nan_value() {
            self
        } else if self.rank_value() < other.rank_value() {
            other
        } else {
            self
        }
    }
}

/// Negation keeps the magnitude and, away from NaN, mirrors the rank; applied
/// twice it gives the pattern back.
pub proof fn lemma_neg(s: Scalar)
    ensures
        s.neg_spec().magnitude() == s.magnitude(),
        s.neg_spec().is_nan() == s.is_nan(),
        s.neg_spec().rank() == -s.rank(),
        s.neg_spec().neg_spec() == s,
{
}

/// Away from NaN the numeric order is total: exactly one of `a < b`,
/// `a == b`, `b < a` holds.
pub proof fn lemma_order_total(a: Scalar, b: Scalar)
    requires
        !a.is_nan(),
        !b.is_nan(),
    ensures
        a.lt_spec(b) || a.same_spec(b) || b.lt_spec(a),
        !(a.lt_spec(b) && b.lt_spec(a)),
        !(a.lt_spec(b) && a.same_spec(b)),
        a.le_spec(b) <==> !b.lt_spec(a),
{
}

/// The minimum and the maximum of two numbers that are not NaN bound both of
/// them, and each is one of the two.
pub proof fn lemma_min_max(a: Scalar, b: Scalar)
    requires
        !a.is_nan(),
        !b.is_nan(),
    ensures
        a.min_spec(b).le_spec(a),
        a.min_spec(b).le_spec(b),
        a.le_spec(a.max_spec(b)),
        b.le_spec(a.max_spec(b)),
        a.min_spec(b) == a || a.min_spec(b) == b,
        a.max_spec(b) == a || a.max_spec(b) == b,
{
}

} // verus!
