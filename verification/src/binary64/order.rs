//! Comparisons.
use vstd::prelude::*;
use crate::binary64::Float;
use crate::binary64::value::INF;
use crate::binary64::value::lemma_mag_increases;

verus! {

impl Float {
    /// Less than, as numbers: false where either side is a NaN, and the two
    /// zeros are equal.
    pub open spec fn lt_spec(self, rhs: Float) -> bool {
        !self.is_nan_spec() && !rhs.is_nan_spec() && self.scaled() < rhs.scaled()
    }

    /// Less than or equal, as numbers: false where either side is a NaN.
    pub open spec fn le_spec(self, rhs: Float) -> bool {
        !self.is_nan_spec() && !rhs.is_nan_spec() && self.scaled() <= rhs.scaled()
    }

    /// Above zero: neither a NaN, nor a zero, nor negative.
    pub open spec fn is_positive_spec(self) -> bool {
        !self.sign() && 0 < self.abs_bits() <= INF
    }

    /// The place of a number in the order of all numbers: its magnitude
    /// bits, negated for a negative number.
    pub open spec fn rank(self) -> int {
        if self.sign() {
            -(self.abs_bits() as int)
        } else {
            self.abs_bits() as int
        }
    }

    /// The place of the number in the order of all numbers.
    fn rank_exec(self) -> (r: i128)
        ensures
            r == self.rank(),
    {
        let o = self.magnitude_bits();
        if self.sign_bit() {
            -(o as i128)
        } else {
            o as i128
        }
    }

    /// Less than, as numbers.
    pub fn lt(self, rhs: Float) -> (r: bool)
        ensures
            r == self.lt_spec(rhs),
    {
        if self.is_nan() || rhs.is_nan() {
            return false;
        }
        proof {
            lemma_rank_orders(self, rhs);
        }
        self.rank_exec() < rhs.rank_exec()
    }

    /// Less than or equal, as numbers.
    pub fn le(self, rhs: Float) -> (r: bool)
        ensures
            r == self.le_spec(rhs),
    {
        if self.is_nan() || rhs.is_nan() {
            return false;
        }
        proof {
            lemma_rank_orders(self, rhs);
        }
        self.rank_exec() <= rhs.rank_exec()
    }

    /// The place of a bit pattern in the total order of all bit patterns,
    /// in which negative zero comes before positive zero, the infinities
    /// enclose the numbers and the NaNs lie outside them.
    pub open spec fn total_key(self) -> int {
        if self.sign() {
            -(self.abs_bits() as int) - 1
        } else {
            self.abs_bits() as int
        }
    }

    /// The place of a bit pattern in the total order of all bit patterns.
    pub fn total_key_exec(self) -> (r: i64)
        ensures
            r == self.total_key(),
    {
        let o = self.magnitude_bits();
        if self.sign_bit() {
            -(o as i64) - 1
        } else {
            o as i64
        }
    }

    /// Above zero.
    pub fn is_positive(self) -> (r: bool)
        ensures
            r == self.is_positive_spec(),
    {
        let o = self.magnitude_bits();
        !self.sign_bit() && 0 < o && o <= INF
    }
}

/// Numbers are ordered as their ranks are.
pub proof fn lemma_rank_orders(a: Float, b: Float)
    requires
        !a.is_nan_spec(),
        !b.is_nan_spec(),
    ensures
        (a.rank() < b.rank()) == (a.scaled() < b.scaled()),
        (a.rank() <= b.rank()) == (a.scaled() <= b.scaled()),
{
    let oa = a.abs_bits();
    let ob = b.abs_bits();
    lemma_mag_increases(0, oa);
    lemma_mag_increases(0, ob);
    if oa > 0 {
        lemma_mag_increases(0, oa);
    }
    if ob > 0 {
        lemma_mag_increases(0, ob);
    }
    if oa <= ob {
        lemma_mag_increases(oa, ob);
    } else {
        lemma_mag_increases(ob, oa);
    }
}

/// The total order refines the order of the numbers: what is less as a
/// number comes first, and what comes first is not greater.
pub proof fn lemma_total_key_orders(a: Float, b: Float)
    requires
        !a.is_nan_spec(),
        !b.is_nan_spec(),
    ensures
        a.lt_spec(b) ==> a.total_key() < b.total_key(),
        a.total_key() <= b.total_key() ==> a.le_spec(b),
        a.total_key() == b.total_key() <==> a == b,
{
    lemma_rank_orders(a, b);
    lemma_rank_orders(b, a);
}

/// A number is above zero where its value is.
pub proof fn lemma_positive_value(a: Float)
    ensures
        a.is_positive_spec() == (!a.is_nan_spec() && a.scaled() > 0),
{
    if !a.is_nan_spec() {
        lemma_mag_increases(0, a.abs_bits());
    }
}

} // verus!
