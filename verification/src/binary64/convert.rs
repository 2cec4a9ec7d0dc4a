//! Conversions between doubles and whole numbers.
use vstd::prelude::*;
use vstd::arithmetic::power2::pow2;
use vstd::arithmetic::power2::lemma_pow2_pos;
use vstd::arithmetic::power2::lemma2_to64;
use vstd::arithmetic::power2::lemma2_to64_rest;
use vstd::arithmetic::div_mod::lemma_div_by_multiple;
use vstd::arithmetic::div_mod::lemma_div_multiples_vanish_quotient;
use vstd::arithmetic::div_mod::lemma_basic_div;
use crate::binary64::Float;
use crate::binary64::unpack;
use crate::binary64::lemma_float_parts;
use crate::binary64::value::HIDDEN;
use crate::binary64::value::INF;
use crate::binary64::value::SCALE;
use crate::binary64::value::mag;
use crate::binary64::value::nearest;
use crate::binary64::value::lemma_nearest_unique;
use crate::binary64::value::lemma_nearest_exists;
use crate::binary64::round::round_pack;
use crate::binary64::round::pow2_exec;
use crate::binary64::round::lemma_rounded_nearest;
use crate::binary64::round::lemma_pow2_product;
use crate::binary64::round::lemma_pow2_order;
use crate::binary64::product::lemma_describes_quotient;

verus! {

/// The whole number `n` in units of `2^-1074`.
pub open spec fn whole_scaled(n: nat) -> int {
    n as int * pow2(SCALE as nat) as int
}

/// `r` is the whole number `n`, correctly rounded: the double nearest to
/// it, a tie going to the even significand.
pub open spec fn is_whole(n: nat, r: Float) -> bool {
    !r.sign() && nearest(r.abs_bits(), whole_scaled(n), 1)
}

/// There is one double for a whole number.
pub proof fn lemma_whole_unique(n: nat, r1: Float, r2: Float)
    requires
        is_whole(n, r1),
        is_whole(n, r2),
    ensures
        r1 == r2,
{
    lemma_nearest_unique(r1.abs_bits(), r2.abs_bits(), whole_scaled(n), 1);
    lemma_float_parts(r1, r2);
}

/// Every whole number has a double.
pub proof fn lemma_whole_exists(n: nat)
    ensures
        is_whole(n, Float::from_whole_spec(n)),
{
    let o = lemma_nearest_exists(whole_scaled(n), 1);
    assert(is_whole(n, Float::compose(false, o)));
}

impl Float {
    /// The whole part of a number that is not below zero, and zero for
    /// every other.
    pub open spec fn whole_part(self) -> nat {
        if self.is_nan_spec() || self.sign() {
            0
        } else {
            (mag(self.abs_bits()) / (pow2(SCALE as nat) as int)) as nat
        }
    }

    /// The double nearest to the whole number `n`.
    pub open spec fn from_whole_spec(n: nat) -> Float {
        choose|r: Float| is_whole(n, r)
    }

    /// The double nearest to `n`.
    pub fn from_u64(n: u64) -> (r: Float)
        ensures
            is_whole(n as nat, r),
            r == Float::from_whole_spec(n as nat),
    {
        let r = if n == 0 {
            proof {
                assert(mag(0) == 0 && mag(1) == 1);
                assert(whole_scaled(0) == 0) by (nonlinear_arith)
                    requires
                        whole_scaled(0) == 0 * pow2(SCALE as nat),
                ;
            }
            Float::from_parts(false, 0)
        } else {
            proof {
                lemma2_to64();
                lemma2_to64_rest();
                lemma_pow2_order(64, 126);
            }
            let o = round_pack(n as u128, 1074, false);
            proof {
                let num = whole_scaled(n as nat);
                assert(n * pow2(0) == n * 1 + 0) by (nonlinear_arith)
                    requires
                        pow2(0) == 1,
                ;
                assert(1 == 1 * pow2(0));
                lemma_describes_quotient(n as int, SCALE as nat, 0, 1, 0, n as int, 0, num, 1);
                lemma_rounded_nearest(o, n as int, 1074, false, num, 1);
            }
            Float::from_parts(false, o)
        };
        proof {
            lemma_whole_unique(n as nat, r, Float::from_whole_spec(n as nat));
        }
        r
    }

    /// The double nearest to `n`.
    pub fn from_usize(n: usize) -> (r: Float)
        ensures
            is_whole(n as nat, r),
            r == Float::from_whole_spec(n as nat),
    {
        Float::from_u64(n as u64)
    }

    /// The whole part of the number, as far as it fits: zero for a NaN and
    /// for what is below zero, the largest `u64` for what is above it.
    pub fn to_u64(self) -> (r: u64)
        ensures
            r == (if self.whole_part() > u64::MAX { u64::MAX as nat } else { self.whole_part() }),
    {
        let o = self.magnitude_bits();
        if o > INF || self.sign_bit() {
            return 0;
        }
        proof {
            lemma2_to64();
            lemma2_to64_rest();
            lemma_pow2_pos(SCALE as nat);
        }
        if o == INF {
            proof {
                assert(INF / HIDDEN == 2047 && INF % HIDDEN == 0);
                lemma_pow2_product(52, 2046, 2098);
                lemma_pow2_product(1024, SCALE as nat, 2098);
                lemma_div_by_multiple(pow2(1024) as int, pow2(SCALE as nat) as int);
                lemma_pow2_order(64, 1024);
            }
            return u64::MAX;
        }
        let (m, k) = unpack(o);
        if k >= 1074 {
            let up = k - 1074;
            proof {
                lemma_pow2_product(up as nat, SCALE as nat, k as nat);
                let whole = m * pow2(up as nat);
                assert(m * pow2(k as nat) == whole * pow2(SCALE as nat)) by (nonlinear_arith)
                    requires
                        pow2(up as nat) * pow2(SCALE as nat) == pow2(k as nat),
                        whole == m * pow2(up as nat),
                ;
                assert(whole >= 0) by (nonlinear_arith)
                    requires
                        whole == m * pow2(up as nat),
                        m >= 0,
                        pow2(up as nat) > 0,
                ;
                lemma_div_by_multiple(whole, pow2(SCALE as nat) as int);
            }
            if up >= 12 {
                proof {
                    lemma_pow2_order(12, up as nat);
                    assert(m * pow2(up as nat) >= 0x10_0000_0000_0000 * 0x1000) by (nonlinear_arith)
                        requires
                            m >= 0x10_0000_0000_0000,
                            pow2(up as nat) >= 0x1000,
                    ;
                }
                return u64::MAX;
            }
            let p = pow2_exec(up as u32);
            proof {
                lemma_pow2_order(up as nat, 11);
                assert(m * p < 0x20_0000_0000_0000 * 0x800) by (nonlinear_arith)
                    requires
                        0 <= m < 0x20_0000_0000_0000,
                        0 < p <= 0x800,
                ;
            }
            ((m as u128) * p) as u64
        } else {
            let down = 1074 - k;
            proof {
                lemma_pow2_product(k as nat, down as nat, SCALE as nat);
                lemma_div_multiples_vanish_quotient(
                    pow2(k as nat) as int,
                    m as int,
                    pow2(down as nat) as int,
                );
                assert(m * pow2(k as nat) == pow2(k as nat) * m) by (nonlinear_arith);
            }
            if down >= 53 {
                proof {
                    lemma_pow2_order(53, down as nat);
                    lemma_basic_div(m as int, pow2(down as nat) as int);
                }
                return 0;
            }
            let p = pow2_exec(down as u32);
            ((m as u128) / p) as u64
        }
    }

    /// The whole part of the number, as far as it fits.
    pub fn to_usize(self) -> (r: usize)
        ensures
            r == (if self.whole_part() > usize::MAX { usize::MAX as nat } else { self.whole_part() }),
    {
        let w = self.to_u64();
        if w > usize::MAX as u64 {
            usize::MAX
        } else {
            w as usize
        }
    }
}

} // verus!
