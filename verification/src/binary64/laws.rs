//! What follows from correct rounding.
use vstd::prelude::*;
use crate::binary64::Float;
use crate::binary64::ONE_BITS;
use crate::binary64::HALF_BITS;
use crate::binary64::value::INF;
use crate::binary64::value::mag;
use crate::binary64::value::nearest;
use crate::binary64::value::lemma_mag_increases;
use crate::binary64::sum::lemma_sum_exists;

verus! {

/// Positive zero.
pub open spec fn zero() -> Float {
    Float { bits: 0 }
}

/// The number one.
pub open spec fn one() -> Float {
    Float { bits: ONE_BITS }
}

/// One half.
pub open spec fn half() -> Float {
    Float { bits: HALF_BITS }
}

/// Negating a number negates its value.
pub proof fn lemma_neg_value(a: Float)
    ensures
        a.neg_spec().scaled() == -a.scaled(),
        a.neg_spec().abs_bits() == a.abs_bits(),
        a.neg_spec().sign() == !a.sign(),
{
}

/// The sum of two numbers that are not below zero is not below either:
/// adding what is not negative does not make less.
pub proof fn lemma_sum_grows(a: Float, d: Float)
    requires
        zero().le_spec(a),
        zero().le_spec(d),
    ensures
        a.le_spec(a.add_spec(d)),
        d.le_spec(a.add_spec(d)),
        zero().le_spec(a.add_spec(d)),
{
    let r = a.add_spec(d);
    lemma_sum_exists(a, d);
    lemma_mag_increases(0, a.abs_bits());
    lemma_mag_increases(0, d.abs_bits());
    if a.is_infinite_spec() || d.is_infinite_spec() {
        lemma_mag_increases(a.abs_bits(), INF);
        lemma_mag_increases(d.abs_bits(), INF);
    } else {
        let s = a.scaled() + d.scaled();
        if s > 0 {
            let o = r.abs_bits();
            lemma_mag_increases(0, o);
            lemma_not_below(o, a.abs_bits(), s);
            lemma_not_below(o, d.abs_bits(), s);
        }
    }
}

/// What is nearest to a number at or above a magnitude is not below that
/// magnitude.
proof fn lemma_not_below(o: u64, floor: u64, s: int)
    requires
        nearest(o, s, 1),
        floor < INF,
        mag(floor) <= s,
    ensures
        mag(floor) <= mag(o),
{
    if o < floor {
        lemma_mag_increases((o + 1) as u64, floor);
        lemma_mag_increases(o, floor);
    } else {
        lemma_mag_increases(floor, o);
    }
}

/// The difference of two finite numbers is not below zero exactly where
/// the subtrahend is not above the minuend.
pub proof fn lemma_difference_sign(t: Float, g: Float)
    requires
        t.is_finite_spec(),
        g.is_finite_spec(),
    ensures
        zero().le_spec(t.sub_spec(g)) == g.le_spec(t),
        !t.sub_spec(g).is_nan_spec(),
{
    let d = t.sub_spec(g);
    lemma_sum_exists(t, g.neg_spec());
    lemma_neg_value(g);
    let s = t.scaled() + g.neg_spec().scaled();
    lemma_mag_increases(0, d.abs_bits());
    if s != 0 {
        assert(mag(1) == 1);
        if d.abs_bits() == 0 {
            assert(mag(0) == 0);
        } else {
            lemma_mag_increases(1, d.abs_bits());
        }
    }
}

} // verus!
