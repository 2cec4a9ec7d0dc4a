//! Division.
use vstd::prelude::*;
use vstd::arithmetic::power2::pow2;
use vstd::arithmetic::power2::lemma2_to64;
use vstd::arithmetic::power2::lemma2_to64_rest;
use vstd::arithmetic::div_mod::lemma_fundamental_div_mod;
use crate::binary64::Float;
use crate::binary64::unpack;
use crate::binary64::lemma_float_parts;
use crate::binary64::value::INF;
use crate::binary64::value::QNAN;
use crate::binary64::value::SCALE;
use crate::binary64::value::mag;
use crate::binary64::value::nearest;
use crate::binary64::value::lemma_nearest_unique;
use crate::binary64::value::lemma_nearest_exists;
use crate::binary64::value::lemma_mag_increases;
use crate::binary64::round::round_pack;
use crate::binary64::round::pow2_exec;
use crate::binary64::round::bit_length;
use crate::binary64::round::lemma_rounded_nearest;
use crate::binary64::round::lemma_pow2_product;
use crate::binary64::round::lemma_pow2_order;
use crate::binary64::round::lemma_pow2_126;
use crate::binary64::product::lemma_describes_quotient;

verus! {

/// `r` is the quotient of `a` by `b`, correctly rounded: the double nearest
/// to the exact quotient, a tie going to the even significand, with the
/// exclusive-or of the signs. A finite number over infinity is zero, anything
/// but zero over zero is infinity. A quotient that involves a NaN, zero over
/// zero and infinity over infinity are the quiet NaN.
pub open spec fn is_quotient(a: Float, b: Float, r: Float) -> bool {
    if a.is_nan_spec() || b.is_nan_spec() || (a.is_infinite_spec() && b.is_infinite_spec()) || (
    a.is_zero_spec() && b.is_zero_spec()) {
        r.bits == QNAN
    } else {
        &&& r.sign() == (a.sign() != b.sign())
        &&& if a.is_infinite_spec() || b.is_zero_spec() {
            r.abs_bits() == INF
        } else if b.is_infinite_spec() {
            r.abs_bits() == 0
        } else {
            nearest(
                r.abs_bits(),
                mag(a.abs_bits()) * pow2(SCALE as nat),
                mag(b.abs_bits()),
            )
        }
    }
}

/// There is one quotient.
pub proof fn lemma_quotient_unique(a: Float, b: Float, r1: Float, r2: Float)
    requires
        is_quotient(a, b, r1),
        is_quotient(a, b, r2),
    ensures
        r1 == r2,
{
    if a.is_nan_spec() || b.is_nan_spec() || (a.is_infinite_spec() && b.is_infinite_spec()) || (
    a.is_zero_spec() && b.is_zero_spec()) {
    } else {
        if !(a.is_infinite_spec() || b.is_zero_spec() || b.is_infinite_spec()) {
            lemma_mag_increases(0, b.abs_bits());
            lemma_nearest_unique(
                r1.abs_bits(),
                r2.abs_bits(),
                mag(a.abs_bits()) * pow2(SCALE as nat),
                mag(b.abs_bits()),
            );
        }
        lemma_float_parts(r1, r2);
    }
}

/// Every two doubles have a quotient.
pub proof fn lemma_quotient_exists(a: Float, b: Float)
    ensures
        is_quotient(a, b, a.div_spec(b)),
{
    let sign = a.sign() != b.sign();
    let r = if a.is_nan_spec() || b.is_nan_spec() || (a.is_infinite_spec() && b.is_infinite_spec())
        || (a.is_zero_spec() && b.is_zero_spec()) {
        Float { bits: QNAN }
    } else if a.is_infinite_spec() || b.is_zero_spec() {
        Float::compose(sign, INF)
    } else if b.is_infinite_spec() {
        Float::compose(sign, 0)
    } else {
        let o = lemma_nearest_exists(
            mag(a.abs_bits()) * pow2(SCALE as nat),
            mag(b.abs_bits()),
        );
        Float::compose(sign, o)
    };
    assert(is_quotient(a, b, r));
}

impl Float {
    /// The correctly rounded quotient.
    pub open spec fn div_spec(self, rhs: Float) -> Float {
        choose|r: Float| is_quotient(self, rhs, r)
    }

    /// The correctly rounded quotient.
    pub fn div(self, rhs: Float) -> (r: Float)
        ensures
            is_quotient(self, rhs, r),
            r == self.div_spec(rhs),
    {
        let r = self.div_rounded(rhs);
        proof {
            lemma_quotient_unique(self, rhs, r, self.div_spec(rhs));
        }
        r
    }

    /// Divides the significands with a remainder and rounds once.
    fn div_rounded(self, rhs: Float) -> (r: Float)
        ensures
            is_quotient(self, rhs, r),
    {
        let oa = self.magnitude_bits();
        let ob = rhs.magnitude_bits();
        let sign = self.sign_bit() != rhs.sign_bit();
        if oa > INF || ob > INF || (oa == INF && ob == INF) || (oa == 0 && ob == 0) {
            return Float { bits: QNAN };
        }
        if oa == INF || ob == 0 {
            return Float::from_parts(sign, INF);
        }
        if ob == INF {
            return Float::from_parts(sign, 0);
        }
        let (ma, ka) = unpack(oa);
        let (mb, kb) = unpack(ob);
        if ma == 0 {
            proof {
                lemma_mag_increases(0, ob);
                assert(mag(0) == 0 && mag(1) == 1);
                assert(mag(oa) * pow2(SCALE as nat) == 0) by (nonlinear_arith)
                    requires
                        mag(oa) == 0,
                ;
                assert((mag(0) + mag(1)) * mag(ob) == mag(ob)) by (nonlinear_arith)
                    requires
                        mag(0) + mag(1) == 1,
                ;
            }
            return Float::from_parts(sign, 0);
        }
        // the dividend, shifted so that it has 115 bits
        let len = bit_length(ma as u128);
        proof {
            lemma2_to64();
            lemma2_to64_rest();
            if len > 53 {
                lemma_pow2_order(53, (len - 1) as nat);
            }
        }
        let s: u32 = 115 - len;
        let p = pow2_exec(s);
        proof {
            lemma_pow2_126();
            lemma_pow2_product(len as nat, s as nat, 115);
            lemma_pow2_product((len - 1) as nat, s as nat, 114);
            lemma_pow2_order(115, 126);
            lemma_pow2_product(61, 53, 114);
            assert(pow2(114) <= ma * p < pow2(115)) by (nonlinear_arith)
                requires
                    pow2((len - 1) as nat) <= ma < pow2(len as nat),
                    p > 0,
                    pow2(len as nat) * p == pow2(115),
                    pow2((len - 1) as nat) * p == pow2(114),
            ;
        }
        let a: u128 = (ma as u128) * p;
        let q = a / (mb as u128);
        let rem = a % (mb as u128);
        let e: i64 = ka - kb + 1074 - (s as i64);
        proof {
            lemma_fundamental_div_mod(a as int, mb as int);
            assert(q >= pow2(61)) by (nonlinear_arith)
                requires
                    a == mb * q + rem,
                    0 <= rem < mb,
                    0 < mb < 0x20_0000_0000_0000,
                    a >= pow2(61) * 0x20_0000_0000_0000,
            ;
            lemma_pow2_order(53, 61);
            assert(q <= a) by (nonlinear_arith)
                requires
                    a == mb * q + rem,
                    0 <= rem,
                    mb >= 1,
                    q >= 0,
            ;
        }
        let o = round_pack(q, e, rem != 0);
        proof {
            let num = mag(oa) * pow2(SCALE as nat);
            let den = mag(ob);
            lemma_pow2_product(ka as nat, SCALE as nat, (ka + 1074) as nat);
            assert(num == ma * pow2((ka + 1074) as nat)) by (nonlinear_arith)
                requires
                    num == (ma * pow2(ka as nat)) * pow2(SCALE as nat),
                    pow2(ka as nat) * pow2(SCALE as nat) == pow2((ka + 1074) as nat),
            ;
            assert(a == q * mb + rem) by (nonlinear_arith)
                requires
                    a == mb * q + rem,
            ;
            lemma_describes_quotient(
                ma as int,
                (ka + 1074) as nat,
                s as nat,
                mb as int,
                kb as nat,
                q as int,
                rem as int,
                num,
                den,
            );
            lemma_rounded_nearest(o, q as int, e as int, rem != 0, num, den);
        }
        Float::from_parts(sign, o)
    }
}

/// `a / b` is the correctly rounded quotient.
impl core::ops::Div<Float> for Float {
    type Output = Float;

    fn div(self, rhs: Float) -> (r: Float) {
        self.div(rhs)
    }
}

impl vstd::std_specs::ops::DivSpecImpl<Float> for Float {
    open spec fn obeys_div_spec() -> bool {
        true
    }

    open spec fn div_req(self, rhs: Float) -> bool {
        true
    }

    open spec fn div_spec(self, rhs: Float) -> Float {
        self.div_spec(rhs)
    }
}


} // verus!
