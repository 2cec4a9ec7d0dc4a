//! Double-precision numbers as bit patterns, with correctly rounded arithmetic.
//!
//! A [`Float`] is an IEEE 754 binary64 value. Its finite values are modelled
//! as integers in units of `2^-1074`, the spacing of the smallest ones, so
//! that sums and products of values are exact integers and "the nearest
//! representable value" can be stated without real numbers.
use vstd::prelude::*;

pub mod value;
pub mod round;
pub mod product;
pub mod sum;
pub mod quotient;
pub mod root;
pub mod order;
pub mod laws;
pub mod convert;
pub mod accuracy;

use crate::binary64::value::HIDDEN;
use crate::binary64::value::INF;
use crate::binary64::value::SIGN;
use crate::binary64::value::mag;
use crate::binary64::value::ulp_exp;
use vstd::arithmetic::power2::pow2;

verus! {

/// An IEEE 754 double, held by its bit pattern.
#[derive(Clone, Copy, Debug, PartialEq, Eq, Structural)]
pub struct Float {
    pub bits: u64,
}

/// The bit pattern of the number one.
pub const ONE_BITS: u64 = 0x3FF0_0000_0000_0000;

/// The bit pattern of one half.
pub const HALF_BITS: u64 = 0x3FE0_0000_0000_0000;

impl Float {
    /// Whether the sign bit is set.
    pub open spec fn sign(self) -> bool {
        self.bits >= SIGN
    }

    /// The bits without the sign: exponent and fraction.
    pub open spec fn abs_bits(self) -> u64 {
        if self.bits >= SIGN {
            (self.bits - SIGN) as u64
        } else {
            self.bits
        }
    }

    /// Not a number.
    pub open spec fn is_nan_spec(self) -> bool {
        self.abs_bits() > INF
    }

    /// Positive or negative infinity.
    pub open spec fn is_infinite_spec(self) -> bool {
        self.abs_bits() == INF
    }

    /// Neither infinite nor not a number.
    pub open spec fn is_finite_spec(self) -> bool {
        self.abs_bits() < INF
    }

    /// Positive or negative zero.
    pub open spec fn is_zero_spec(self) -> bool {
        self.abs_bits() == 0
    }

    /// The value in units of `2^-1074`: an integer for every finite double.
    /// Infinity counts as `2^1024`, signed.
    pub open spec fn scaled(self) -> int {
        if self.sign() {
            -mag(self.abs_bits())
        } else {
            mag(self.abs_bits())
        }
    }

    /// The double with the given sign and magnitude bits.
    pub open spec fn compose(sign: bool, o: u64) -> Float {
        Float { bits: if sign { (o + SIGN) as u64 } else { o } }
    }

    /// Positive zero.
    pub fn zero() -> (r: Float)
        ensures
            r.bits == 0,
    {
        Float { bits: 0 }
    }

    /// The number one.
    pub fn one() -> (r: Float)
        ensures
            r.bits == ONE_BITS,
    {
        Float { bits: ONE_BITS }
    }

    /// The double with the given bit pattern.
    pub fn from_bits(bits: u64) -> (r: Float)
        ensures
            r.bits == bits,
    {
        Float { bits }
    }

    /// The bit pattern.
    pub fn to_bits(self) -> (r: u64)
        ensures
            r == self.bits,
    {
        self.bits
    }

    /// Whether the sign bit is set.
    pub fn sign_bit(self) -> (r: bool)
        ensures
            r == self.sign(),
    {
        self.bits >= SIGN
    }

    /// The bits without the sign.
    pub fn magnitude_bits(self) -> (r: u64)
        ensures
            r == self.abs_bits(),
            r < SIGN,
    {
        if self.bits >= SIGN {
            self.bits - SIGN
        } else {
            self.bits
        }
    }

    /// The double with the given sign and magnitude bits.
    pub fn from_parts(sign: bool, o: u64) -> (r: Float)
        requires
            o < SIGN,
        ensures
            r == Float::compose(sign, o),
            r.sign() == sign,
            r.abs_bits() == o,
    {
        Float { bits: if sign { o + SIGN } else { o } }
    }

    /// Not a number.
    pub fn is_nan(self) -> (r: bool)
        ensures
            r == self.is_nan_spec(),
    {
        self.magnitude_bits() > INF
    }

    /// Positive or negative infinity.
    pub fn is_infinite(self) -> (r: bool)
        ensures
            r == self.is_infinite_spec(),
    {
        self.magnitude_bits() == INF
    }

    /// Neither infinite nor not a number.
    pub fn is_finite(self) -> (r: bool)
        ensures
            r == self.is_finite_spec(),
    {
        self.magnitude_bits() < INF
    }

    /// Positive or negative zero.
    pub fn is_zero(self) -> (r: bool)
        ensures
            r == self.is_zero_spec(),
    {
        self.magnitude_bits() == 0
    }

    /// The same number with the sign bit flipped.
    pub open spec fn neg_spec(self) -> Float {
        Float::compose(!self.sign(), self.abs_bits())
    }

    /// The same number with the sign bit flipped.
    pub fn neg(self) -> (r: Float)
        ensures
            r == self.neg_spec(),
    {
        Float::from_parts(!self.sign_bit(), self.magnitude_bits())
    }

    /// The same number with the sign bit cleared.
    pub open spec fn abs_spec(self) -> Float {
        Float { bits: self.abs_bits() }
    }

    /// The same number with the sign bit cleared.
    pub fn abs(self) -> (r: Float)
        ensures
            r == self.abs_spec(),
    {
        Float { bits: self.magnitude_bits() }
    }
}

/// A double is its sign and its magnitude bits.
pub proof fn lemma_float_parts(a: Float, b: Float)
    requires
        a.sign() == b.sign(),
        a.abs_bits() == b.abs_bits(),
    ensures
        a == b,
{
}

/// Splits finite magnitude bits into a significand and a spacing exponent:
/// the magnitude is worth `m * 2^k`.
pub fn unpack(o: u64) -> (r: (u64, i64))
    requires
        o < INF,
    ensures
        mag(o) == r.0 * pow2(r.1 as nat),
        r.1 == ulp_exp(o),
        0 <= r.1 <= 2045,
        r.0 < 2 * HIDDEN,
        r.1 > 0 ==> r.0 >= HIDDEN,
        (r.0 == 0) == (o == 0),
{
    proof {
        vstd::arithmetic::power2::lemma2_to64();
    }
    if o < 2 * HIDDEN {
        assert(o * pow2(0) == o) by (nonlinear_arith)
            requires
                pow2(0) == 1,
        ;
        (o, 0)
    } else {
        (HIDDEN + o % HIDDEN, (o / HIDDEN - 1) as i64)
    }
}

} // verus!
