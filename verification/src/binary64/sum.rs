//! Addition and subtraction.
use vstd::prelude::*;
use vstd::arithmetic::power2::pow2;
use vstd::arithmetic::power2::lemma_pow2_unfold;
use vstd::arithmetic::power2::lemma2_to64;
use vstd::arithmetic::power2::lemma2_to64_rest;
use crate::binary64::Float;
use crate::binary64::unpack;
use crate::binary64::lemma_float_parts;
use crate::binary64::value::HIDDEN;
use crate::binary64::value::INF;
use crate::binary64::value::QNAN;
use crate::binary64::value::mag;
use crate::binary64::value::nearest;
use crate::binary64::value::lemma_nearest_unique;
use crate::binary64::value::lemma_nearest_exists;
use crate::binary64::value::lemma_mag_increases;
use crate::binary64::round::round_pack;
use crate::binary64::round::pow2_exec;
use crate::binary64::round::describes;
use crate::binary64::round::up_scale;
use crate::binary64::round::down_scale;
use crate::binary64::round::lemma_rounded_nearest;
use crate::binary64::round::lemma_pow2_product;
use crate::binary64::round::lemma_pow2_order;
use crate::binary64::product::lemma_describes_quotient;

verus! {

/// `r` is the sum of `a` and `b`, correctly rounded: the double nearest to
/// the exact sum, a tie going to the even significand. An exact sum of zero
/// is negative zero only where both terms are negative. A sum that involves
/// a NaN, or infinities of opposite signs, is the quiet NaN.
pub open spec fn is_sum(a: Float, b: Float, r: Float) -> bool {
    if a.is_nan_spec() || b.is_nan_spec() || (a.is_infinite_spec() && b.is_infinite_spec()
        && a.sign() != b.sign()) {
        r.bits == QNAN
    } else if a.is_infinite_spec() {
        r == a
    } else if b.is_infinite_spec() {
        r == b
    } else {
        let s = a.scaled() + b.scaled();
        if s == 0 {
            r.abs_bits() == 0 && r.sign() == (a.sign() && b.sign())
        } else {
            r.sign() == (s < 0) && nearest(r.abs_bits(), if s < 0 { -s } else { s }, 1)
        }
    }
}

/// There is one sum.
pub proof fn lemma_sum_unique(a: Float, b: Float, r1: Float, r2: Float)
    requires
        is_sum(a, b, r1),
        is_sum(a, b, r2),
    ensures
        r1 == r2,
{
    if a.is_nan_spec() || b.is_nan_spec() || (a.is_infinite_spec() && b.is_infinite_spec()
        && a.sign() != b.sign()) {
    } else if a.is_infinite_spec() {
    } else if b.is_infinite_spec() {
    } else {
        let s = a.scaled() + b.scaled();
        if s != 0 {
            lemma_nearest_unique(r1.abs_bits(), r2.abs_bits(), if s < 0 { -s } else { s }, 1);
        }
        lemma_float_parts(r1, r2);
    }
}

/// Every two doubles have a sum.
pub proof fn lemma_sum_exists(a: Float, b: Float)
    ensures
        is_sum(a, b, a.add_spec(b)),
{
    let r = if a.is_nan_spec() || b.is_nan_spec() || (a.is_infinite_spec() && b.is_infinite_spec()
        && a.sign() != b.sign()) {
        Float { bits: QNAN }
    } else if a.is_infinite_spec() {
        a
    } else if b.is_infinite_spec() {
        b
    } else {
        let s = a.scaled() + b.scaled();
        if s == 0 {
            Float::compose(a.sign() && b.sign(), 0)
        } else {
            let o = lemma_nearest_exists(if s < 0 { -s } else { s }, 1);
            Float::compose(s < 0, o)
        }
    };
    assert(is_sum(a, b, r));
}

/// A finite magnitude is nearest to its own value.
pub proof fn lemma_nearest_self(o: u64)
    requires
        o < INF,
    ensures
        nearest(o, mag(o), 1),
{
    if o > 0 {
        lemma_mag_increases((o - 1) as u64, o);
    }
    lemma_mag_increases(o, (o + 1) as u64);
}

/// A term far below the spacing of the other only tips the rounding: the
/// sum or difference lies strictly between two eighths of that spacing.
proof fn lemma_far_term(mh: int, kh: int, ml: int, kl: int, minus: bool, num: int)
    requires
        0 < mh,
        0 < ml < 2 * HIDDEN,
        0 <= kl,
        kl + 60 < kh,
        num == (if minus {
            mh * pow2(kh as nat) - ml * pow2(kl as nat)
        } else {
            mh * pow2(kh as nat) + ml * pow2(kl as nat)
        }),
    ensures
        describes(if minus { 8 * mh - 1 } else { 8 * mh }, kh - 3, true, num, 1),
{
    lemma2_to64();
    lemma2_to64_rest();
    let e = kh - 3;
    let u = up_scale(e);
    assert(down_scale(e) == 1);
    assert(u == pow2((kh - 2) as nat));
    lemma_pow2_product(2, (kh - 2) as nat, kh as nat);
    lemma_pow2_product(54, kl as nat, (kl + 54) as nat);
    lemma_pow2_order((kl + 54) as nat, (kh - 2) as nat);
    let ph = pow2(kh as nat) as int;
    let pl = pow2(kl as nat) as int;
    let small = 2 * ml * pl;
    assert(0 < small < u) by (nonlinear_arith)
        requires
            small == 2 * ml * pl,
            0 < ml < 0x20_0000_0000_0000,
            pl > 0,
            0x40_0000_0000_0000 * pl <= u,
    ;
    let sig = if minus {
        8 * mh - 1
    } else {
        8 * mh
    };
    assert(sig * u * 1 == 2 * mh * ph - (if minus { u } else { 0 })) by (nonlinear_arith)
        requires
            sig == (if minus { 8 * mh - 1 } else { 8 * mh }),
            ph == 4 * u,
    ;
    assert((sig + 1) * u * 1 == sig * u * 1 + u) by (nonlinear_arith);
    assert(2 * num * 1 == 2 * mh * ph + (if minus { -small } else { small })) by (nonlinear_arith)
        requires
            num == (if minus { mh * ph - ml * pl } else { mh * ph + ml * pl }),
            small == 2 * ml * pl,
    ;
}

/// A term within reach of the other is added exactly: both are multiples of
/// the smaller spacing.
proof fn lemma_near_term(mh: int, kh: int, ml: int, kl: int, minus: bool, num: int, sig: int)
    requires
        0 <= kl <= kh,
        num == (if minus {
            mh * pow2(kh as nat) - ml * pow2(kl as nat)
        } else {
            mh * pow2(kh as nat) + ml * pow2(kl as nat)
        }),
        sig == (if minus {
            mh * pow2((kh - kl) as nat) - ml
        } else {
            mh * pow2((kh - kl) as nat) + ml
        }),
        sig >= 0,
    ensures
        describes(sig, kl, false, num, 1),
        num == sig * pow2(kl as nat),
{
    lemma2_to64();
    lemma_pow2_product((kh - kl) as nat, kl as nat, kh as nat);
    let pd = pow2((kh - kl) as nat) as int;
    let pl = pow2(kl as nat) as int;
    assert(num == sig * pl) by (nonlinear_arith)
        requires
            num == (if minus { mh * (pd * pl) - ml * pl } else { mh * (pd * pl) + ml * pl }),
            sig == (if minus { mh * pd - ml } else { mh * pd + ml }),
    ;
    assert(sig * pow2(0) == sig * 1 + 0) by (nonlinear_arith)
        requires
            pow2(0) == 1,
    ;
    lemma_describes_quotient(sig, kl as nat, 0, 1, 0, sig, 0, num, 1);
}

impl Float {
    /// The correctly rounded sum.
    pub open spec fn add_spec(self, rhs: Float) -> Float {
        choose|r: Float| is_sum(self, rhs, r)
    }

    /// The correctly rounded difference: the sum with the negated subtrahend.
    pub open spec fn sub_spec(self, rhs: Float) -> Float {
        self.add_spec(rhs.neg_spec())
    }

    /// The correctly rounded sum.
    pub fn add(self, rhs: Float) -> (r: Float)
        ensures
            is_sum(self, rhs, r),
            r == self.add_spec(rhs),
    {
        let r = self.add_rounded(rhs);
        proof {
            lemma_sum_unique(self, rhs, r, self.add_spec(rhs));
        }
        r
    }

    /// The correctly rounded difference.
    pub fn sub(self, rhs: Float) -> (r: Float)
        ensures
            is_sum(self, rhs.neg_spec(), r),
            r == self.sub_spec(rhs),
    {
        self.add(rhs.neg())
    }

    /// Aligns the significands, adds or subtracts them exactly and rounds
    /// once.
    fn add_rounded(self, rhs: Float) -> (r: Float)
        ensures
            is_sum(self, rhs, r),
    {
        let oa = self.magnitude_bits();
        let ob = rhs.magnitude_bits();
        let sa = self.sign_bit();
        let sb = rhs.sign_bit();
        if oa > INF || ob > INF || (oa == INF && ob == INF && sa != sb) {
            return Float { bits: QNAN };
        }
        if oa == INF {
            return self;
        }
        if ob == INF {
            return rhs;
        }
        if oa == 0 && ob == 0 {
            return Float::from_parts(sa && sb, 0);
        }
        if ob == 0 {
            proof {
                lemma_nearest_self(oa);
                lemma_mag_increases(0, oa);
                lemma_float_parts(self, Float::compose(sa, oa));
            }
            return self;
        }
        if oa == 0 {
            proof {
                lemma_nearest_self(ob);
                lemma_mag_increases(0, ob);
                lemma_float_parts(rhs, Float::compose(sb, ob));
            }
            return rhs;
        }
        if sa != sb && oa == ob {
            return Float::from_parts(false, 0);
        }
        let (ma, ka) = unpack(oa);
        let (mb, kb) = unpack(ob);
        let minus = sa != sb;
        let a_high = if minus { oa > ob } else { ka >= kb };
        let (mh, kh, ml, kl) = if a_high { (ma, ka, mb, kb) } else { (mb, kb, ma, ka) };
        let sign = if a_high { sa } else { sb };
        let d = kh - kl;
        let ghost num: int = if minus {
            mh * pow2(kh as nat) - ml * pow2(kl as nat)
        } else {
            mh * pow2(kh as nat) + ml * pow2(kl as nat)
        };
        proof {
            lemma2_to64();
            lemma2_to64_rest();
            lemma_mag_increases(0, oa);
            lemma_mag_increases(0, ob);
            if oa < ob {
                lemma_mag_increases(oa, ob);
            }
            if ob < oa {
                lemma_mag_increases(ob, oa);
            }
            let s = self.scaled() + rhs.scaled();
            assert(num > 0);
            assert(s != 0);
            assert((s < 0) == sign);
            assert(num == (if s < 0 { -s } else { s }));
        }
        let o = if d <= 60 {
            let p = pow2_exec(d as u32);
            proof {
                lemma_pow2_order(d as nat, 60);
                lemma_pow2_product(60, 53, 113);
                lemma_pow2_order(114, 126);
                lemma_pow2_unfold(114);
                assert(mh * p <= pow2(113)) by (nonlinear_arith)
                    requires
                        0 <= mh < 0x20_0000_0000_0000,
                        0 < p <= pow2(60),
                        pow2(60) * 0x20_0000_0000_0000 == pow2(113),
                ;
                if minus {
                    lemma_pow2_product(d as nat, kl as nat, kh as nat);
                    // the exact difference is positive, so the aligned one is
                    assert(mh * p - ml > 0) by (nonlinear_arith)
                        requires
                            mh * (p * pow2(kl as nat)) - ml * pow2(kl as nat) > 0,
                            pow2(kl as nat) > 0,
                    ;
                }
            }
            let aligned = (mh as u128) * p;
            let sig = if minus { aligned - ml as u128 } else { aligned + ml as u128 };
            proof {
                lemma_near_term(mh as int, kh as int, ml as int, kl as int, minus, num, sig as int);
            }
            let o = round_pack(sig, kl, false);
            proof {
                lemma_rounded_nearest(o, sig as int, kl as int, false, num, 1);
            }
            o
        } else {
            let sig = if minus { 8 * (mh as u128) - 1 } else { 8 * (mh as u128) };
            proof {
                lemma_pow2_order(57, 126);
                lemma_far_term(mh as int, kh as int, ml as int, kl as int, minus, num);
            }
            let o = round_pack(sig, kh - 3, true);
            proof {
                lemma_rounded_nearest(o, sig as int, kh - 3, true, num, 1);
            }
            o
        };
        Float::from_parts(sign, o)
    }
}

/// `a + b` is the correctly rounded sum.
impl core::ops::Add<Float> for Float {
    type Output = Float;

    fn add(self, rhs: Float) -> (r: Float) {
        self.add(rhs)
    }
}

impl vstd::std_specs::ops::AddSpecImpl<Float> for Float {
    open spec fn obeys_add_spec() -> bool {
        true
    }

    open spec fn add_req(self, rhs: Float) -> bool {
        true
    }

    open spec fn add_spec(self, rhs: Float) -> Float {
        self.add_spec(rhs)
    }
}

/// `a - b` is the correctly rounded difference.
impl core::ops::Sub<Float> for Float {
    type Output = Float;

    fn sub(self, rhs: Float) -> (r: Float) {
        self.sub(rhs)
    }
}

impl vstd::std_specs::ops::SubSpecImpl<Float> for Float {
    open spec fn obeys_sub_spec() -> bool {
        true
    }

    open spec fn sub_req(self, rhs: Float) -> bool {
        true
    }

    open spec fn sub_spec(self, rhs: Float) -> Float {
        self.sub_spec(rhs)
    }
}


} // verus!
