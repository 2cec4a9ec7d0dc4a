//! Square root.
use vstd::prelude::*;
use vstd::arithmetic::power2::pow2;
use vstd::arithmetic::power2::lemma2_to64;
use vstd::arithmetic::power2::lemma2_to64_rest;
use crate::binary64::Float;
use crate::binary64::unpack;
use crate::binary64::lemma_float_parts;
use crate::binary64::value::INF;
use crate::binary64::value::QNAN;
use crate::binary64::value::SCALE;
use crate::binary64::value::mag;
use crate::binary64::value::nearest_root;
use crate::binary64::value::lemma_nearest_root_unique;
use crate::binary64::value::lemma_nearest_root_exists;
use crate::binary64::round::round_pack;
use crate::binary64::round::pow2_exec;
use crate::binary64::round::bit_length;
use crate::binary64::round::describes_root;
use crate::binary64::round::up_scale;
use crate::binary64::round::down_scale;
use crate::binary64::round::lemma_rounded_nearest_root;
use crate::binary64::round::lemma_pow2_product;
use crate::binary64::round::lemma_pow2_order;
use crate::binary64::round::lemma_pow2_126;

verus! {

/// `r` is the square root of `a`, correctly rounded: the double nearest to
/// the exact root. The root of a zero or of positive infinity is the
/// argument itself; that of a NaN or of a negative number is the quiet NaN.
pub open spec fn is_root(a: Float, r: Float) -> bool {
    if a.is_nan_spec() || (a.sign() && !a.is_zero_spec()) {
        r.bits == QNAN
    } else if a.is_zero_spec() || a.is_infinite_spec() {
        r == a
    } else {
        !r.sign() && nearest_root(r.abs_bits(), mag(a.abs_bits()) * pow2(SCALE as nat))
    }
}

/// There is one square root.
pub proof fn lemma_root_unique(a: Float, r1: Float, r2: Float)
    requires
        is_root(a, r1),
        is_root(a, r2),
    ensures
        r1 == r2,
{
    if a.is_nan_spec() || (a.sign() && !a.is_zero_spec()) {
    } else if a.is_zero_spec() || a.is_infinite_spec() {
    } else {
        lemma_nearest_root_unique(
            r1.abs_bits(),
            r2.abs_bits(),
            mag(a.abs_bits()) * pow2(SCALE as nat),
        );
        lemma_float_parts(r1, r2);
    }
}

/// Every double has a square root.
pub proof fn lemma_root_exists(a: Float)
    ensures
        is_root(a, a.sqrt_spec()),
{
    let r = if a.is_nan_spec() || (a.sign() && !a.is_zero_spec()) {
        Float { bits: QNAN }
    } else if a.is_zero_spec() || a.is_infinite_spec() {
        a
    } else {
        let o = lemma_nearest_root_exists(mag(a.abs_bits()) * pow2(SCALE as nat));
        Float::compose(false, o)
    };
    assert(is_root(a, r));
}

/// The integer square root: the largest `r` whose square is not above `x`.
pub fn integer_sqrt(x: u128) -> (r: u64)
    requires
        x < pow2(126),
    ensures
        r * r <= x < (r + 1) * (r + 1),
        r < pow2(63),
{
    proof {
        lemma2_to64();
        lemma2_to64_rest();
        lemma_pow2_product(63, 63, 126);
    }
    let mut lo: u64 = 0;
    let mut hi: u64 = 0x8000_0000_0000_0000;
    while hi - lo > 1
        invariant
            lo < hi <= 0x8000_0000_0000_0000,
            lo * lo <= x < hi * hi,
        decreases hi - lo,
    {
        let mid: u64 = lo + (hi - lo) / 2;
        assert(mid * mid < 0x8000_0000_0000_0000 * 0x8000_0000_0000_0000) by (nonlinear_arith)
            requires
                0 <= mid < 0x8000_0000_0000_0000,
        ;
        if (mid as u128) * (mid as u128) <= x {
            lo = mid;
        } else {
            hi = mid;
        }
    }
    lo
}

/// The root of `m * 2^(k + 1074)` is described by the integer root of
/// `m * 2^s`, where `s` has the parity of `k`, at the exponent
/// `(k + 1074 - s) / 2`.
proof fn lemma_describes_root(m: int, k: int, s: int, x: int, root: int, e: int, radicand: int)
    requires
        0 <= k,
        0 <= s <= 1074,
        x == m * pow2(s as nat),
        2 * e == k + 1074 - s,
        0 <= root,
        root * root <= x < (root + 1) * (root + 1),
        radicand == m * pow2((k + 1074) as nat),
    ensures
        describes_root(root, e, root * root != x, radicand),
{
    lemma2_to64();
    let u = up_scale(e);
    assert(down_scale(e) == 1);
    assert(u == pow2((e + 1) as nat));
    lemma_pow2_product((e + 1) as nat, (e + 1) as nat, (2 * e + 2) as nat);
    lemma_pow2_product(s as nat, (2 * e + 2) as nat, (k + 1076) as nat);
    lemma_pow2_product(2, (k + 1074) as nat, (k + 1076) as nat);
    let uu = u * u;
    let l = 4 * radicand * down_scale(e) * down_scale(e);
    assert(l == x * uu) by (nonlinear_arith)
        requires
            l == 4 * radicand * 1 * 1,
            radicand == m * pow2((k + 1074) as nat),
            x == m * pow2(s as nat),
            pow2(s as nat) * uu == 4 * pow2((k + 1074) as nat),
    ;
    assert(uu > 0) by (nonlinear_arith)
        requires
            uu == u * u,
            u > 0,
    ;
    let lo = root * u;
    let hi = (root + 1) * u;
    assert(lo * lo == (root * root) * uu && hi * hi == ((root + 1) * (root + 1)) * uu)
        by (nonlinear_arith)
        requires
            lo == root * u,
            hi == (root + 1) * u,
            uu == u * u,
    ;
    let rr = root * root;
    let tt = (root + 1) * (root + 1);
    assert(rr * uu <= x * uu < tt * uu && ((rr * uu == x * uu) == (rr == x))) by (nonlinear_arith)
        requires
            rr <= x < tt,
            uu > 0,
    ;
}

impl Float {
    /// The correctly rounded square root.
    pub open spec fn sqrt_spec(self) -> Float {
        choose|r: Float| is_root(self, r)
    }

    /// The correctly rounded square root.
    pub fn sqrt(self) -> (r: Float)
        ensures
            is_root(self, r),
            r == self.sqrt_spec(),
    {
        let r = self.sqrt_rounded();
        proof {
            lemma_root_unique(self, r, self.sqrt_spec());
        }
        r
    }

    /// Takes the integer root of the shifted significand and rounds once.
    fn sqrt_rounded(self) -> (r: Float)
        ensures
            is_root(self, r),
    {
        let oa = self.magnitude_bits();
        if oa > INF || (self.sign_bit() && oa != 0) {
            return Float { bits: QNAN };
        }
        if oa == 0 || oa == INF {
            return self;
        }
        let (ma, ka) = unpack(oa);
        let len = bit_length(ma as u128);
        proof {
            lemma2_to64();
            lemma2_to64_rest();
            if len > 53 {
                lemma_pow2_order(53, (len - 1) as nat);
            }
        }
        // the shift that gives the radicand 124 or 125 bits and the parity of
        // the exponent
        let s0: u32 = 125 - len;
        let s: u32 = if (ka + 1074 - (s0 as i64)) % 2 == 0 { s0 } else { s0 - 1 };
        let p = pow2_exec(s);
        proof {
            lemma_pow2_126();
            lemma_pow2_product(len as nat, s as nat, (len + s) as nat);
            lemma_pow2_product((len - 1) as nat, s as nat, (len + s - 1) as nat);
            lemma_pow2_order((len + s) as nat, 125);
            lemma_pow2_order(125, 126);
            lemma_pow2_order(122, (len + s - 1) as nat);
            assert(pow2(122) <= ma * p < pow2(126)) by (nonlinear_arith)
                requires
                    pow2((len - 1) as nat) <= ma < pow2(len as nat),
                    p > 0,
                    pow2(len as nat) * p <= pow2(126),
                    pow2((len - 1) as nat) * p >= pow2(122),
            ;
        }
        let x: u128 = (ma as u128) * p;
        let root = integer_sqrt(x);
        let e: i64 = (ka + 1074 - (s as i64)) / 2;
        proof {
            lemma_pow2_product(61, 61, 122);
            lemma_pow2_order(53, 61);
            lemma_pow2_order(63, 126);
            assert(root >= pow2(61)) by (nonlinear_arith)
                requires
                    (root + 1) * (root + 1) > pow2(61) * pow2(61),
                    root >= 0,
                    pow2(61) > 0,
            ;
        }
        let sticky = (root as u128) * (root as u128) != x;
        let o = round_pack(root as u128, e, sticky);
        proof {
            let radicand = mag(oa) * pow2(SCALE as nat);
            lemma_pow2_product(ka as nat, SCALE as nat, (ka + 1074) as nat);
            assert(radicand == ma * pow2((ka + 1074) as nat)) by (nonlinear_arith)
                requires
                    radicand == (ma * pow2(ka as nat)) * pow2(SCALE as nat),
                    pow2(ka as nat) * pow2(SCALE as nat) == pow2((ka + 1074) as nat),
            ;
            lemma_describes_root(
                ma as int,
                ka as int,
                s as int,
                x as int,
                root as int,
                e as int,
                radicand,
            );
            lemma_rounded_nearest_root(o, root as int, e as int, sticky, radicand);
            assert(!self.sign());
        }
        Float::from_parts(false, o)
    }
}

} // verus!
