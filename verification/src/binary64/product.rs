//! Multiplication.
use vstd::prelude::*;
use vstd::arithmetic::power2::pow2;
use vstd::arithmetic::power2::lemma_pow2_pos;
use vstd::arithmetic::power2::lemma_pow2_adds;
use vstd::arithmetic::power2::lemma_pow2_unfold;
use vstd::arithmetic::power2::lemma2_to64;
use vstd::arithmetic::power2::lemma2_to64_rest;
use crate::binary64::Float;
use crate::binary64::unpack;
use crate::binary64::lemma_float_parts;
use crate::binary64::value::INF;
use crate::binary64::value::QNAN;
use crate::binary64::value::SCALE;
use crate::binary64::value::mag;
use crate::binary64::value::nearest;
use crate::binary64::value::lemma_nearest_unique;
use crate::binary64::value::lemma_nearest_exists;
use crate::binary64::round::round_pack;
use crate::binary64::round::rounded;
use crate::binary64::round::describes;
use crate::binary64::round::up_scale;
use crate::binary64::round::down_scale;
use crate::binary64::round::lemma_rounded_nearest;

verus! {

/// `q` with remainder `r` is the quotient of `an * 2^s` by `b`, and the
/// rational in question is `(an * 2^x) / (b * 2^y)`: then `q`, the exponent
/// `x - y - s` and the flag "the remainder is not zero" describe it.
pub proof fn lemma_describes_quotient(
    an: int,
    x: nat,
    s: nat,
    b: int,
    y: nat,
    q: int,
    r: int,
    num: int,
    den: int,
)
    requires
        an >= 0,
        b > 0,
        0 <= r < b,
        an * pow2(s) == q * b + r,
        num == an * pow2(x),
        den == b * pow2(y),
    ensures
        describes(q, x - y - s, r != 0, num, den),
{
    let e = x - y - s;
    let neg = (if e + 1 >= 0 { 0 } else { -(e + 1) }) as nat;
    let pos = (if e + 1 >= 0 { e + 1 } else { 0 }) as nat;
    let n = down_scale(e);
    let u = up_scale(e);
    let px = pow2(x) as int;
    let py = pow2(y) as int;
    let ps = pow2(s) as int;
    lemma_pow2_pos(x);
    lemma_pow2_pos(y);
    lemma_pow2_pos(s);
    lemma_pow2_pos(neg);
    lemma_pow2_pos(pos);
    // 2 * 2^x * 2^neg == 2^s * 2^pos * 2^y, as  1 + x + neg == s + pos + y
    lemma_pow2_adds(x, neg);
    lemma_pow2_unfold(x + neg + 1);
    lemma_pow2_adds(s, pos);
    lemma_pow2_adds(s + pos, y);
    let w = pow2(s + pos + y) as int;
    assert(2 * (px * n) == w);
    assert(ps * u * py == w);
    assert(den > 0) by (nonlinear_arith)
        requires
            den == b * py,
            b > 0,
            py > 0,
    ;
    let l = 2 * num * n;
    assert(l == (q * b + r) * (u * py)) by (nonlinear_arith)
        requires
            l == 2 * num * n,
            num == an * px,
            2 * (px * n) == w,
            ps * u * py == w,
            an * ps == q * b + r,
    ;
    let c = u * py;
    assert(c > 0) by (nonlinear_arith)
        requires
            c == u * py,
            u > 0,
            py > 0,
    ;
    assert(q * u * den == q * b * c && (q + 1) * u * den == (q + 1) * b * c) by (nonlinear_arith)
        requires
            den == b * py,
            c == u * py,
    ;
    assert(q * b * c <= (q * b + r) * c < (q + 1) * b * c) by (nonlinear_arith)
        requires
            0 <= r < b,
            c > 0,
    ;
    assert((q * b * c == (q * b + r) * c) == (r == 0)) by (nonlinear_arith)
        requires
            0 <= r,
            c > 0,
    ;
}

/// `r` is the product of `a` and `b`, correctly rounded: the double nearest
/// to the exact product, a tie going to the even significand, with the
/// exclusive-or of the signs. A product that involves a NaN, or zero times
/// infinity, is the quiet NaN.
pub open spec fn is_product(a: Float, b: Float, r: Float) -> bool {
    if a.is_nan_spec() || b.is_nan_spec() || (a.is_infinite_spec() && b.is_zero_spec()) || (
    a.is_zero_spec() && b.is_infinite_spec()) {
        r.bits == QNAN
    } else {
        &&& r.sign() == (a.sign() != b.sign())
        &&& if a.is_infinite_spec() || b.is_infinite_spec() {
            r.abs_bits() == INF
        } else {
            nearest(r.abs_bits(), mag(a.abs_bits()) * mag(b.abs_bits()), pow2(SCALE as nat) as int)
        }
    }
}

/// There is one product.
pub proof fn lemma_product_unique(a: Float, b: Float, r1: Float, r2: Float)
    requires
        is_product(a, b, r1),
        is_product(a, b, r2),
    ensures
        r1 == r2,
{
    if a.is_nan_spec() || b.is_nan_spec() || (a.is_infinite_spec() && b.is_zero_spec()) || (
    a.is_zero_spec() && b.is_infinite_spec()) {
    } else {
        if !(a.is_infinite_spec() || b.is_infinite_spec()) {
            lemma_pow2_pos(SCALE as nat);
            lemma_nearest_unique(
                r1.abs_bits(),
                r2.abs_bits(),
                mag(a.abs_bits()) * mag(b.abs_bits()),
                pow2(SCALE as nat) as int,
            );
        }
        lemma_float_parts(r1, r2);
    }
}

/// Every two doubles have a product.
pub proof fn lemma_product_exists(a: Float, b: Float)
    ensures
        is_product(a, b, a.mul_spec(b)),
{
    let r = if a.is_nan_spec() || b.is_nan_spec() || (a.is_infinite_spec() && b.is_zero_spec()) || (
    a.is_zero_spec() && b.is_infinite_spec()) {
        Float { bits: QNAN }
    } else if a.is_infinite_spec() || b.is_infinite_spec() {
        Float::compose(a.sign() != b.sign(), INF)
    } else {
        let o = lemma_nearest_exists(
            mag(a.abs_bits()) * mag(b.abs_bits()),
            pow2(SCALE as nat) as int,
        );
        Float::compose(a.sign() != b.sign(), o)
    };
    assert(is_product(a, b, r));
}

impl Float {
    /// The correctly rounded product.
    pub open spec fn mul_spec(self, rhs: Float) -> Float {
        choose|r: Float| is_product(self, rhs, r)
    }

    /// The correctly rounded product.
    pub fn mul(self, rhs: Float) -> (r: Float)
        ensures
            is_product(self, rhs, r),
            r == self.mul_spec(rhs),
    {
        let r = self.mul_rounded(rhs);
        proof {
            lemma_product_unique(self, rhs, r, self.mul_spec(rhs));
        }
        r
    }

    /// Multiplies the significands exactly and rounds once.
    fn mul_rounded(self, rhs: Float) -> (r: Float)
        ensures
            is_product(self, rhs, r),
    {
        let oa = self.magnitude_bits();
        let ob = rhs.magnitude_bits();
        let sign = self.sign_bit() != rhs.sign_bit();
        if oa > INF || ob > INF || (oa == INF && ob == 0) || (oa == 0 && ob == INF) {
            return Float { bits: QNAN };
        }
        if oa == INF || ob == INF {
            return Float::from_parts(sign, INF);
        }
        let (ma, ka) = unpack(oa);
        let (mb, kb) = unpack(ob);
        if ma == 0 || mb == 0 {
            proof {
                lemma_pow2_pos(SCALE as nat);
                assert(mag(0) == 0 && mag(1) == 1);
                assert(mag(oa) * mag(ob) == 0) by (nonlinear_arith)
                    requires
                        mag(oa) == 0 || mag(ob) == 0,
                ;
                assert((mag(0) + mag(1)) * pow2(SCALE as nat) == pow2(SCALE as nat))
                    by (nonlinear_arith)
                    requires
                        mag(0) + mag(1) == 1,
                ;
            }
            return Float::from_parts(sign, 0);
        }
        proof {
            lemma2_to64();
            lemma2_to64_rest();
            assert(0 < ma * mb < 0x40_0000_0000_0000 * 0x40_0000_0000_0000) by (nonlinear_arith)
                requires
                    0 < ma < 0x20_0000_0000_0000,
                    0 < mb < 0x20_0000_0000_0000,
            ;
            lemma_pow2_adds(54, 54);
            lemma_pow2_adds(108, 18);
            lemma_pow2_pos(18);
            assert(pow2(108) <= pow2(126)) by (nonlinear_arith)
                requires
                    pow2(126) == pow2(108) * pow2(18),
                    pow2(18) > 0,
                    pow2(108) > 0,
            ;
        }
        let sig: u128 = (ma as u128) * (mb as u128);
        let e: i64 = ka + kb - 1074;
        let o = round_pack(sig, e, false);
        proof {
            let num = mag(oa) * mag(ob);
            let den = pow2(SCALE as nat) as int;
            lemma_pow2_adds(ka as nat, kb as nat);
            assert(num == (ma * mb) * pow2((ka + kb) as nat)) by (nonlinear_arith)
                requires
                    num == (ma * pow2(ka as nat)) * (mb * pow2(kb as nat)),
                    pow2((ka + kb) as nat) == pow2(ka as nat) * pow2(kb as nat),
            ;
            assert(pow2(0) == 1);
            assert(sig * pow2(0) == sig * 1 + 0) by (nonlinear_arith)
                requires
                    pow2(0) == 1,
            ;
            assert(den == 1 * den);
            lemma_describes_quotient(
                sig as int,
                (ka + kb) as nat,
                0,
                1,
                SCALE as nat,
                sig as int,
                0,
                num,
                den,
            );
            lemma_rounded_nearest(o, sig as int, e as int, false, num, den);
        }
        Float::from_parts(sign, o)
    }
}

/// `a * b` is the correctly rounded product.
impl core::ops::Mul<Float> for Float {
    type Output = Float;

    fn mul(self, rhs: Float) -> (r: Float) {
        self.mul(rhs)
    }
}

impl vstd::std_specs::ops::MulSpecImpl<Float> for Float {
    open spec fn obeys_mul_spec() -> bool {
        true
    }

    open spec fn mul_req(self, rhs: Float) -> bool {
        true
    }

    open spec fn mul_spec(self, rhs: Float) -> Float {
        self.mul_spec(rhs)
    }
}


} // verus!
