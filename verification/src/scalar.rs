//! Double-precision numbers as bit patterns, with their order and their sign.

use vstd::arithmetic::power2::pow2;
use vstd::prelude::*;

verus! {

/// The pattern with only the sign bit set.
pub const SIGN_BIT: u64 = 0x8000_0000_0000_0000;

/// The pattern of positive infinity. Every pattern whose magnitude lies above
/// it is not a number.
pub const INFINITY_BITS: u64 = 0x7FF0_0000_0000_0000;

/// The pattern of the greatest finite number.
pub const GREATEST_FINITE_BITS: u64 = 0x7FEF_FFFF_FFFF_FFFF;

/// The pattern of the least finite number.
pub const LEAST_FINITE_BITS: u64 = 0xFFEF_FFFF_FFFF_FFFF;

/// The pattern of one.
pub const ONE_BITS: u64 = 0x3FF0_0000_0000_0000;

/// Two to the power of 52: the magnitude of a pattern is its exponent times
/// this, plus its fraction.
pub const FRACTION_SPAN: u64 = 0x0010_0000_0000_0000;

/// The exponent field of the numbers from one up to two, two excluded.
pub const EXPONENT_OF_ONE: u64 = 1023;

/// A double-precision number, held as its 64 bits: the sign on top, then the
/// exponent and the fraction.
#[derive(Clone, Copy, Debug, PartialEq, Eq, Structural)]
pub struct Scalar {
    pub bits: u64,
}

impl Scalar {
    /// The pattern without its sign bit.
    pub open spec fn magnitude(self) -> int {
        if self.bits >= SIGN_BIT {
            self.bits - SIGN_BIT
        } else {
            self.bits as int
        }
    }

    /// Whether the sign bit is set.
    pub open spec fn is_negative(self) -> bool {
        self.bits >= SIGN_BIT
    }

    /// Whether the pattern stands for no number at all.
    pub open spec fn is_nan(self) -> bool {
        self.magnitude() > INFINITY_BITS
    }

    /// The place of a number in the order of numbers: patterns of numbers
    /// compare as their ranks do. The two zeros share rank zero.
    pub open spec fn rank(self) -> int {
        if self.is_negative() {
            -self.magnitude()
        } else {
            self.magnitude()
        }
    }

    /// `self < other` as numbers: false whenever either is not a number.
    pub open spec fn lt(self, other: Scalar) -> bool {
        !self.is_nan() && !other.is_nan() && self.rank() < other.rank()
    }

    /// `self > other` as numbers.
    pub open spec fn gt(self, other: Scalar) -> bool {
        other.lt(self)
    }

    /// `self <= other` as numbers: false whenever either is not a number.
    pub open spec fn le(self, other: Scalar) -> bool {
        !self.is_nan() && !other.is_nan() && self.rank() <= other.rank()
    }

    /// The same magnitude under the opposite sign.
    pub open spec fn neg(self) -> Scalar {
        if self.bits >= SIGN_BIT {
            Scalar { bits: (self.bits - SIGN_BIT) as u64 }
        } else {
            Scalar { bits: (self.bits + SIGN_BIT) as u64 }
        }
    }

    /// The same magnitude with the sign cleared.
    pub open spec fn abs(self) -> Scalar {
        Scalar { bits: self.magnitude() as u64 }
    }

    /// The exponent field of the pattern.
    pub open spec fn exponent(self) -> int {
        self.magnitude() / (FRACTION_SPAN as int)
    }

    /// The digits of a number that is one at least in magnitude, as a whole
    /// number: the fraction field with the leading one before it. The number
    /// is this times two to the power of `exponent() - 1075`.
    pub open spec fn significand(self) -> int {
        FRACTION_SPAN + self.magnitude() % (FRACTION_SPAN as int)
    }

    /// The number cut to a whole number of 32 bits, as a cast cuts it:
    /// toward zero; to the nearest end of the 32-bit range where it lies
    /// outside; to zero where it is not a number.
    pub open spec fn trunc(self) -> int {
        let e = self.exponent();
        if self.is_nan() || e < EXPONENT_OF_ONE {
            0
        } else if e >= EXPONENT_OF_ONE + 31 {
            if self.is_negative() {
                i32::MIN as int
            } else {
                i32::MAX as int
            }
        } else {
            let whole = self.significand() / (pow2((EXPONENT_OF_ONE + 52 - e) as nat) as int);
            if self.is_negative() {
                -whole
            } else {
                whole
            }
        }
    }

    /// Positive zero.
    pub fn zero() -> (r: Scalar)
        ensures
            r.bits == 0,
    {
        Scalar { bits: 0 }
    }

    /// One.
    pub fn one() -> (r: Scalar)
        ensures
            r.bits == ONE_BITS,
    {
        Scalar { bits: ONE_BITS }
    }

    /// The greatest finite number.
    pub fn greatest_finite() -> (r: Scalar)
        ensures
            r.bits == GREATEST_FINITE_BITS,
    {
        Scalar { bits: GREATEST_FINITE_BITS }
    }

    /// The least finite number.
    pub fn least_finite() -> (r: Scalar)
        ensures
            r.bits == LEAST_FINITE_BITS,
    {
        Scalar { bits: LEAST_FINITE_BITS }
    }

    /// Tells whether the pattern stands for no number.
    pub fn not_a_number(&self) -> (r: bool)
        ensures
            r == self.is_nan(),
    {
        if self.bits >= SIGN_BIT {
            self.bits - SIGN_BIT > INFINITY_BITS
        } else {
            self.bits > INFINITY_BITS
        }
    }

    /// Tells whether `self < other` as numbers.
    pub fn less_than(&self, other: &Scalar) -> (r: bool)
        ensures
            r == self.lt(*other),
    {
        if self.not_a_number() || other.not_a_number() {
            return false;
        }
        if self.bits >= SIGN_BIT {
            let mine: u64 = self.bits - SIGN_BIT;
            if other.bits >= SIGN_BIT {
                mine > other.bits - SIGN_BIT
            } else {
                mine > 0 || other.bits > 0
            }
        } else {
            if other.bits >= SIGN_BIT {
                false
            } else {
                self.bits < other.bits
            }
        }
    }

    /// Tells whether `self > other` as numbers.
    pub fn greater_than(&self, other: &Scalar) -> (r: bool)
        ensures
            r == self.gt(*other),
    {
        other.less_than(self)
    }

    /// Tells whether `self <= other` as numbers.
    pub fn at_most(&self, other: &Scalar) -> (r: bool)
        ensures
            r == self.le(*other),
    {
        if self.not_a_number() || other.not_a_number() {
            return false;
        }
        !other.less_than(self)
    }

    /// The number under the opposite sign: the sign bit flipped, nothing else
    /// touched.
    pub fn negated(&self) -> (r: Scalar)
        ensures
            r == self.neg(),
    {
        if self.bits >= SIGN_BIT {
            Scalar { bits: self.bits - SIGN_BIT }
        } else {
            Scalar { bits: self.bits + SIGN_BIT }
        }
    }

    /// Cuts the number to a whole number of 32 bits.
    pub fn truncated(&self) -> (r: i32)
        ensures
            r == self.trunc(),
    {
        let negative = self.bits >= SIGN_BIT;
        let magnitude: u64 = if negative {
            self.bits - SIGN_BIT
        } else {
            self.bits
        };
        if magnitude > INFINITY_BITS {
            return 0;
        }
        let exponent: u64 = magnitude / FRACTION_SPAN;
        if exponent < EXPONENT_OF_ONE {
            return 0;
        }
        if exponent >= EXPONENT_OF_ONE + 31 {
            return if negative {
                i32::MIN
            } else {
                i32::MAX
            };
        }
        let significand: u64 = FRACTION_SPAN + magnitude % FRACTION_SPAN;
        let shift: u64 = EXPONENT_OF_ONE + 52 - exponent;
        let whole: u64 = significand >> shift;
        proof {
            vstd::bits::lemma_u64_shr_is_div(significand, shift);
            assert(significand >> shift < 0x8000_0000u64) by (bit_vector)
                requires
                    significand < 0x0020_0000_0000_0000u64,
                    22 <= shift <= 52,
            ;
        }
        if negative {
            -(whole as i32)
        } else {
            whole as i32
        }
    }

    /// The absolute value: the sign bit cleared, nothing else touched.
    pub fn absolute(&self) -> (r: Scalar)
        ensures
            r == self.abs(),
    {
        if self.bits >= SIGN_BIT {
            Scalar { bits: self.bits - SIGN_BIT }
        } else {
            Scalar { bits: self.bits }
        }
    }
}

} // verus!
