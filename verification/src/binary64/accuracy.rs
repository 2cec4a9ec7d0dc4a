//! How far a rounded result lies from the exact one.
use vstd::prelude::*;
use vstd::arithmetic::power2::pow2;
use vstd::arithmetic::power2::lemma_pow2_pos;
use crate::binary64::value::HIDDEN;
use crate::binary64::value::INF;
use crate::binary64::value::mag;
use crate::binary64::value::ulp_exp;
use crate::binary64::value::nearest;
use crate::binary64::value::distance;
use crate::binary64::value::lemma_mag_step;
use crate::binary64::round::lemma_pow2_order;

verus! {

/// A finite rounded result lies within half a spacing of the exact one:
/// twice its distance from the rational `num / den` is not above the
/// spacing of the magnitudes at the result.
pub proof fn lemma_nearest_within_half_spacing(o: u64, num: int, den: int)
    requires
        den > 0,
        num >= 0,
        nearest(o, num, den),
        o < INF,
    ensures
        2 * distance(o, num, den) <= pow2(ulp_exp(o)) * den,
{
    let p = pow2(ulp_exp(o)) as int;
    let a = mag(o) * den;
    lemma_mag_step(o);
    assert((mag(o) + mag((o + 1) as u64)) * den == 2 * a + p * den) by (nonlinear_arith)
        requires
            mag((o + 1) as u64) == mag(o) + p,
            a == mag(o) * den,
    ;
    if o > 0 {
        let q = pow2(ulp_exp((o - 1) as u64)) as int;
        lemma_mag_step((o - 1) as u64);
        lemma_pow2_order(ulp_exp((o - 1) as u64), ulp_exp(o));
        assert((mag((o - 1) as u64) + mag(o)) * den == 2 * a - q * den) by (nonlinear_arith)
            requires
                mag(o) == mag((o - 1) as u64) + q,
                a == mag(o) * den,
        ;
        assert(q * den <= p * den) by (nonlinear_arith)
            requires
                q <= p,
                den > 0,
        ;
    } else {
        assert(a == 0) by (nonlinear_arith)
            requires
                a == mag(o) * den,
                mag(o) == 0,
        ;
    }
}

/// A rounded result that is a normal number has a relative error of at
/// most `2^-53`: its distance from the rational `num / den`, times `2^53`,
/// is not above the result.
pub proof fn lemma_nearest_relative_error(o: u64, num: int, den: int)
    requires
        den > 0,
        num >= 0,
        nearest(o, num, den),
        2 * HIDDEN <= o < INF,
    ensures
        2 * HIDDEN * distance(o, num, den) <= mag(o) * den,
{
    lemma_nearest_within_half_spacing(o, num, den);
    let p = pow2(ulp_exp(o)) as int;
    let f = (o % HIDDEN) as int;
    let h = HIDDEN as int;
    let d = distance(o, num, den);
    lemma_pow2_pos(ulp_exp(o));
    assert(h * (p * den) <= ((h + f) * p) * den) by (nonlinear_arith)
        requires
            f >= 0,
            p > 0,
            den > 0,
            h > 0,
    ;
    assert(2 * h * d <= h * (p * den)) by (nonlinear_arith)
        requires
            2 * d <= p * den,
            h > 0,
    ;
}

} // verus!
