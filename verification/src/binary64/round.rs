//! Rounding a fixed-point number to the nearest magnitude.
//!
//! The number to be rounded is given as a significand `sig`, an exponent `e`
//! and a sticky flag: it is `w * 2^e` (in units of `2^-1074`) for a real `w`
//! with `sig <= w < sig + 1`, and `w == sig` exactly when the flag is off.
//! That is all an operation has to know of its exact result.
use vstd::prelude::*;
use vstd::arithmetic::power2::pow2;
use vstd::arithmetic::power2::lemma_pow2_pos;
use vstd::arithmetic::power2::lemma_pow2_adds;
use vstd::arithmetic::power2::lemma_pow2_unfold;
use vstd::arithmetic::power2::lemma_pow2_strictly_increases;
use vstd::arithmetic::power2::lemma2_to64;
use vstd::arithmetic::power2::lemma2_to64_rest;
use vstd::arithmetic::div_mod::lemma_div_by_multiple;
use vstd::arithmetic::div_mod::lemma_fundamental_div_mod;
use vstd::bits::lemma_u128_shr_is_div;
use crate::binary64::value::HIDDEN;
use crate::binary64::value::INF;
use crate::binary64::value::mag;
use crate::binary64::value::ulp_exp;
use crate::binary64::value::nearest;
use crate::binary64::value::nearest_root;
use crate::binary64::value::lemma_mag_step;
use crate::binary64::value::lemma_mag_increases;

verus! {

/// `2^127`, the top bit of a `u128`.
pub const TOP: u128 = 0x8000_0000_0000_0000_0000_0000_0000_0000;

/// The power of two by which the fixed-point side of a comparison in half
/// units is multiplied: `2^(e + 1)` where that is an integer, else 1.
pub open spec fn up_scale(e: int) -> int {
    pow2((if e + 1 >= 0 { e + 1 } else { 0 }) as nat) as int
}

/// The power of two by which the half-unit side is multiplied instead:
/// `2^-(e + 1)` where that is an integer, else 1.
pub open spec fn down_scale(e: int) -> int {
    pow2((if e + 1 >= 0 { 0 } else { -(e + 1) }) as nat) as int
}

/// `m / 2` lies below the number described by `sig`, `e` and `sticky`.
pub open spec fn half_below(m: int, sig: int, e: int, sticky: bool) -> bool {
    let l = m * down_scale(e);
    let r = sig * up_scale(e);
    l < r || (l == r && sticky)
}

/// `m / 2` is the number described by `sig`, `e` and `sticky`.
pub open spec fn half_equal(m: int, sig: int, e: int, sticky: bool) -> bool {
    m * down_scale(e) == sig * up_scale(e) && !sticky
}

/// `m / 2` lies above the number described by `sig`, `e` and `sticky`.
pub open spec fn half_above(m: int, sig: int, e: int, sticky: bool) -> bool {
    let l = m * down_scale(e);
    l >= (sig + 1) * up_scale(e) || (l > sig * up_scale(e) && !sticky)
}

/// `o` is the magnitude nearest to the number described by `sig`, `e` and
/// `sticky`, a tie going to the even one.
pub open spec fn rounded(o: u64, sig: int, e: int, sticky: bool) -> bool {
    &&& o <= INF
    &&& o > 0 ==> {
        let m = mag((o - 1) as u64) + mag(o);
        half_below(m, sig, e, sticky) || (half_equal(m, sig, e, sticky) && o % 2 == 0)
    }
    &&& o < INF ==> {
        let m = mag(o) + mag((o + 1) as u64);
        half_above(m, sig, e, sticky) || (half_equal(m, sig, e, sticky) && o % 2 == 0)
    }
}

/// The rational `num / den` is the number described by `sig`, `e` and
/// `sticky`.
pub open spec fn describes(sig: int, e: int, sticky: bool, num: int, den: int) -> bool {
    let l = 2 * num * down_scale(e);
    &&& den > 0
    &&& sig * up_scale(e) * den <= l
    &&& l < (sig + 1) * up_scale(e) * den
    &&& (sig * up_scale(e) * den == l) == !sticky
}

/// The square root of `radicand` is the number described by `sig`, `e` and
/// `sticky`.
pub open spec fn describes_root(sig: int, e: int, sticky: bool, radicand: int) -> bool {
    let l = 4 * radicand * down_scale(e) * down_scale(e);
    let lo = sig * up_scale(e);
    let hi = (sig + 1) * up_scale(e);
    &&& sig >= 0
    &&& lo * lo <= l
    &&& l < hi * hi
    &&& (lo * lo == l) == !sticky
}

/// What is nearest to the description of a rational is nearest to the
/// rational.
pub proof fn lemma_rounded_nearest(o: u64, sig: int, e: int, sticky: bool, num: int, den: int)
    requires
        rounded(o, sig, e, sticky),
        describes(sig, e, sticky, num, den),
    ensures
        nearest(o, num, den),
{
    let n = down_scale(e);
    let r = sig * up_scale(e);
    let t = (sig + 1) * up_scale(e);
    lemma_pow2_pos((if e + 1 >= 0 { 0 } else { -(e + 1) }) as nat);
    if o > 0 {
        let m = mag((o - 1) as u64) + mag(o);
        lemma_half_order(m, n, r, t, den, num);
    }
    if o < INF {
        let m = mag(o) + mag((o + 1) as u64);
        lemma_half_order(m, n, r, t, den, num);
    }
}

proof fn lemma_half_order(m: int, n: int, r: int, t: int, den: int, num: int)
    requires
        n > 0,
        den > 0,
        r * den <= 2 * num * n,
        2 * num * n < t * den,
    ensures
        m * n < r ==> m * den < 2 * num,
        m * n == r ==> (m * den == 2 * num <==> r * den == 2 * num * n),
        m * n == r ==> m * den <= 2 * num,
        m * n >= t ==> m * den > 2 * num,
        m * n > r && r * den == 2 * num * n ==> m * den > 2 * num,
{
    assert(m * n < r ==> m * den < 2 * num) by (nonlinear_arith)
        requires
            n > 0,
            den > 0,
            r * den <= 2 * num * n,
    ;
    assert(m * n == r ==> (m * den) * n == r * den) by (nonlinear_arith);
    assert(m * n == r ==> (m * den == 2 * num <==> r * den == 2 * num * n)) by (nonlinear_arith)
        requires
            n > 0,
            m * n == r ==> (m * den) * n == r * den,
    ;
    assert(m * n == r ==> m * den <= 2 * num) by (nonlinear_arith)
        requires
            n > 0,
            r * den <= 2 * num * n,
            m * n == r ==> (m * den) * n == r * den,
    ;
    assert(m * n >= t ==> m * den > 2 * num) by (nonlinear_arith)
        requires
            n > 0,
            den > 0,
            2 * num * n < t * den,
    ;
    assert(m * n > r && r * den == 2 * num * n ==> m * den > 2 * num) by (nonlinear_arith)
        requires
            n > 0,
            den > 0,
    ;
}

/// What is nearest to the description of a square root is nearest to the
/// square root.
pub proof fn lemma_rounded_nearest_root(o: u64, sig: int, e: int, sticky: bool, radicand: int)
    requires
        rounded(o, sig, e, sticky),
        describes_root(sig, e, sticky, radicand),
    ensures
        nearest_root(o, radicand),
{
    let n = down_scale(e);
    let r = sig * up_scale(e);
    let t = (sig + 1) * up_scale(e);
    lemma_pow2_pos((if e + 1 >= 0 { 0 } else { -(e + 1) }) as nat);
    lemma_pow2_pos((if e + 1 >= 0 { e + 1 } else { 0 }) as nat);
    assert(0 <= r <= t) by (nonlinear_arith)
        requires
            r == sig * up_scale(e),
            t == (sig + 1) * up_scale(e),
            sig >= 0,
            up_scale(e) > 0,
    ;
    lemma_mag_increases(0, o);
    if o > 0 {
        let m = mag((o - 1) as u64) + mag(o);
        lemma_mag_increases(0, (o - 1) as u64);
        lemma_half_order_root(m, n, r, t, radicand);
    }
    if o < INF {
        let m = mag(o) + mag((o + 1) as u64);
        lemma_mag_increases(0, (o + 1) as u64);
        lemma_half_order_root(m, n, r, t, radicand);
    }
}

proof fn lemma_half_order_root(m: int, n: int, r: int, t: int, radicand: int)
    requires
        n > 0,
        m >= 0,
        0 <= r <= t,
        r * r <= 4 * radicand * n * n,
        4 * radicand * n * n < t * t,
    ensures
        m * n < r ==> m * m < 4 * radicand,
        m * n == r ==> (m * m == 4 * radicand <==> r * r == 4 * radicand * n * n),
        m * n == r ==> m * m <= 4 * radicand,
        m * n >= t ==> m * m > 4 * radicand,
        m * n > r && r * r == 4 * radicand * n * n ==> m * m > 4 * radicand,
{
    let x = m * n;
    let y = 4 * radicand;
    assert(x * x == (m * m) * (n * n)) by (nonlinear_arith)
        requires
            x == m * n,
    ;
    assert(y * n * n == y * (n * n)) by (nonlinear_arith);
    let nn = n * n;
    assert(nn > 0) by (nonlinear_arith)
        requires
            nn == n * n,
            n > 0,
    ;
    assert(x >= 0) by (nonlinear_arith)
        requires
            x == m * n,
            m >= 0,
            n > 0,
    ;
    assert(x < r ==> x * x < r * r) by (nonlinear_arith)
        requires
            0 <= x,
    ;
    assert(x >= t ==> x * x >= t * t) by (nonlinear_arith)
        requires
            0 <= t,
    ;
    assert(x > r ==> x * x > r * r) by (nonlinear_arith)
        requires
            0 <= r,
    ;
    let mm = m * m;
    assert(mm * nn < y * nn ==> mm < y) by (nonlinear_arith)
        requires
            nn > 0,
    ;
    assert(mm * nn > y * nn ==> mm > y) by (nonlinear_arith)
        requires
            nn > 0,
    ;
    assert(mm * nn == y * nn ==> mm == y) by (nonlinear_arith)
        requires
            nn > 0,
    ;
    assert(mm * nn <= y * nn ==> mm <= y) by (nonlinear_arith)
        requires
            nn > 0,
    ;
}

/// Two to the power `n`.
pub fn pow2_exec(n: u32) -> (r: u128)
    requires
        n <= 127,
    ensures
        r == pow2(n as nat),
{
    let s: u128 = (127 - n) as u128;
    proof {
        lemma2_to64();
        lemma2_to64_rest();
        lemma_pow2_adds(64, 63);
        assert(pow2(127) == TOP) by (nonlinear_arith)
            requires
                pow2(127) == pow2(64) * pow2(63),
                pow2(64) == 0x1_0000_0000_0000_0000,
                pow2(63) == 0x8000_0000_0000_0000,
                TOP == 0x8000_0000_0000_0000_0000_0000_0000_0000,
        ;
        lemma_pow2_adds(n as nat, s as nat);
        lemma_pow2_pos(s as nat);
        lemma_div_by_multiple(pow2(n as nat) as int, pow2(s as nat) as int);
        lemma_u128_shr_is_div(TOP, s);
    }
    TOP >> s
}

/// The number of bits of `x`.
pub fn bit_length(x: u128) -> (len: u32)
    requires
        x > 0,
    ensures
        1 <= len <= 128,
        pow2((len - 1) as nat) <= x,
        len < 128 ==> x < pow2(len as nat),
{
    let mut len: u32 = 0;
    let mut t: u128 = x;
    proof {
        lemma2_to64();
    }
    while t > 0
        invariant
            len <= 128,
            t * pow2(len as nat) <= x < (t + 1) * pow2(len as nat),
            len > 0 ==> pow2((len - 1) as nat) <= x,
            len == 0 ==> t > 0,
            len == 128 ==> t == 0,
        decreases t,
    {
        proof {
            let p = pow2(len as nat) as int;
            lemma_pow2_pos(len as nat);
            lemma_pow2_unfold((len + 1) as nat);
            let h = (t / 2) as int;
            assert(h * (2 * p) <= t * p && (t + 1) * p <= (h + 1) * (2 * p)) by (nonlinear_arith)
                requires
                    2 * h <= t <= 2 * h + 1,
                    p > 0,
            ;
            assert(1 * p <= t * p) by (nonlinear_arith)
                requires
                    t >= 1,
                    p > 0,
            ;
            if len == 127 {
                lemma2_to64();
                lemma2_to64_rest();
                lemma_pow2_adds(64, 63);
                assert(pow2(127) == TOP) by (nonlinear_arith)
                    requires
                        pow2(127) == pow2(64) * pow2(63),
                        pow2(64) == 0x1_0000_0000_0000_0000,
                        pow2(63) == 0x8000_0000_0000_0000,
                        TOP == 0x8000_0000_0000_0000_0000_0000_0000_0000,
                ;
                assert(t < 2) by (nonlinear_arith)
                    requires
                        t * p <= x,
                        p == 0x8000_0000_0000_0000_0000_0000_0000_0000,
                        x <= 0xffff_ffff_ffff_ffff_ffff_ffff_ffff_ffff,
                ;
            }
        }
        t = t / 2;
        len = len + 1;
    }
    assert((t + 1) * pow2(len as nat) == pow2(len as nat)) by (nonlinear_arith)
        requires
            t == 0,
    ;
    len
}

/// Products of powers of two add their exponents.
pub proof fn lemma_pow2_product(a: nat, b: nat, c: nat)
    requires
        a + b == c,
    ensures
        pow2(a) * pow2(b) == pow2(c),
        pow2(a) > 0,
        pow2(b) > 0,
        pow2(c) > 0,
{
    lemma_pow2_adds(a, b);
    lemma_pow2_pos(a);
    lemma_pow2_pos(b);
    lemma_pow2_pos(c);
}

/// The bound on significands, `2^126`, as a number.
pub proof fn lemma_pow2_126()
    ensures
        pow2(126) == 0x4000_0000_0000_0000_0000_0000_0000_0000,
{
    lemma2_to64_rest();
    lemma_pow2_adds(63, 63);
    assert(pow2(126) == 0x4000_0000_0000_0000_0000_0000_0000_0000) by (nonlinear_arith)
        requires
            pow2(126) == pow2(63) * pow2(63),
            pow2(63) == 0x8000_0000_0000_0000,
    ;
}

/// Powers of two grow with their exponents.
pub proof fn lemma_pow2_order(a: nat, b: nat)
    requires
        a <= b,
    ensures
        pow2(a) <= pow2(b),
{
    if a < b {
        lemma_pow2_strictly_increases(a, b);
    }
}

/// The magnitude bits made of the spacing exponent `k` and the significand
/// `q` are worth `q * 2^k`.
proof fn lemma_mag_compose(k: int, q: int)
    requires
        0 <= k <= 2046,
        0 <= q < 2 * HIDDEN,
        k > 0 ==> q >= HIDDEN,
    ensures
        mag((k * HIDDEN + q) as u64) == q * pow2(k as nat),
        ulp_exp((k * HIDDEN + q) as u64) == k,
        k * HIDDEN + q <= INF + HIDDEN,
        pow2(k as nat) > 0,
{
    lemma2_to64();
    lemma_pow2_pos(k as nat);
    let o = (k * HIDDEN + q) as u64;
    if k == 0 {
        assert(q * pow2(0) == q) by (nonlinear_arith)
            requires
                pow2(0) == 1,
        ;
    } else {
        assert(o / HIDDEN == k + 1);
        assert(o % HIDDEN == q - HIDDEN);
    }
}

/// A number at or above `2^1024` rounds to infinity.
proof fn lemma_round_overflow(sig: int, e: int, sticky: bool, len: int)
    requires
        1 <= len <= 128,
        pow2((len - 1) as nat) <= sig,
        e + len - 53 >= 2046,
    ensures
        rounded(INF, sig, e, sticky),
{
    lemma2_to64();
    lemma2_to64_rest();
    let m = mag((INF - 1) as u64) + mag(INF);
    lemma_mag_increases((INF - 1) as u64, INF);
    assert(INF / HIDDEN == 2047 && INF % HIDDEN == 0);
    assert(mag(INF) == HIDDEN * pow2(2046));
    lemma_pow2_product(52, 2046, 2098);
    lemma_pow2_unfold(2099);
    lemma_pow2_product((len - 1) as nat, (e + 1) as nat, (len + e) as nat);
    lemma_pow2_order(2099, (len + e) as nat);
    let u = pow2((e + 1) as nat) as int;
    assert(pow2((len - 1) as nat) * u <= sig * u) by (nonlinear_arith)
        requires
            pow2((len - 1) as nat) <= sig,
            u > 0,
    ;
    assert(m * down_scale(e) == m) by (nonlinear_arith)
        requires
            down_scale(e) == 1,
    ;
}

/// A number below a quarter of the least magnitude rounds to zero.
proof fn lemma_round_tiny(sig: int, e: int, sticky: bool)
    requires
        0 < sig < pow2(126),
        e <= -128,
    ensures
        rounded(0, sig, e, sticky),
{
    lemma2_to64();
    lemma_pow2_order(126, (-(e + 1)) as nat);
    let n = down_scale(e);
    assert(mag(1) == 1);
    assert(1 * n >= (sig + 1) * up_scale(e)) by (nonlinear_arith)
        requires
            n >= sig + 1,
            up_scale(e) == 1,
    ;
}

/// A number that is a magnitude rounds to itself.
proof fn lemma_round_exact(sig: int, e: int, len: int, k: int, q: int)
    requires
        1 <= len <= 128,
        pow2((len - 1) as nat) <= sig < pow2(len as nat),
        k == (if e + len - 53 > 0 { e + len - 53 } else { 0 }),
        k <= 2045,
        k - e <= 0,
        q == sig * pow2((e - k) as nat),
    ensures
        0 <= q < 2 * HIDDEN,
        k * HIDDEN + q < INF,
        rounded((k * HIDDEN + q) as u64, sig, e, false),
{
    lemma2_to64();
    lemma2_to64_rest();
    let s = (e - k) as nat;
    let ps = pow2(s) as int;
    lemma_pow2_product(len as nat, s, (len + s) as nat);
    lemma_pow2_order((len + s) as nat, 53);
    assert(0 <= sig * ps < pow2(len as nat) * ps) by (nonlinear_arith)
        requires
            0 <= sig < pow2(len as nat),
            ps > 0,
    ;
    if k > 0 {
        lemma_pow2_product((len - 1) as nat, s, 52);
        assert(pow2((len - 1) as nat) * ps <= sig * ps) by (nonlinear_arith)
            requires
                pow2((len - 1) as nat) <= sig,
                ps > 0,
        ;
    }
    lemma_mag_compose(k, q);
    let o = (k * HIDDEN + q) as u64;
    let kk = pow2(k as nat) as int;
    let u = up_scale(e);
    lemma_pow2_product(s, k as nat, e as nat);
    lemma_pow2_unfold((e + 1) as nat);
    assert(2 * mag(o) == sig * u) by (nonlinear_arith)
        requires
            mag(o) == q * kk,
            q == sig * ps,
            ps * kk == pow2(e as nat),
            u == 2 * pow2(e as nat),
    ;
    assert(down_scale(e) == 1);
    if o > 0 {
        let m = mag((o - 1) as u64) + mag(o);
        lemma_mag_increases((o - 1) as u64, o);
        assert(m * down_scale(e) == m) by (nonlinear_arith)
            requires
                down_scale(e) == 1,
        ;
    }
    if o < INF {
        let m = mag(o) + mag((o + 1) as u64);
        lemma_mag_increases(o, (o + 1) as u64);
        assert(m * down_scale(e) == m) by (nonlinear_arith)
            requires
                down_scale(e) == 1,
        ;
    }
}

/// The cut of a number at the spacing `2^k`: `q` spacings and a remainder
/// `rem` in units `2^e`, `p` of which make one spacing.
spec fn cut(sig: int, e: int, len: int, k: int, p: int, q: int, rem: int) -> bool {
    &&& 1 <= len <= 126
    &&& pow2((len - 1) as nat) <= sig < pow2(len as nat)
    &&& k == (if e + len - 53 > 0 { e + len - 53 } else { 0 })
    &&& k <= 2045
    &&& 1 <= k - e <= 127
    &&& p == pow2((k - e) as nat)
    &&& 0 <= rem < p
    &&& sig == q * p + rem
}

/// Whether the cut number goes to the upper of its two neighbours.
spec fn goes_up(p: int, q: int, rem: int, sticky: bool) -> bool {
    2 * rem > p || (2 * rem == p && (sticky || q % 2 == 1))
}

/// The lower neighbour of a cut number is worth `q * 2^k`, the upper one
/// `(q + 1) * 2^k`, and the midpoint between them is `sig - rem + p / 2` in
/// the units of `sig`.
proof fn lemma_cut_neighbours(sig: int, e: int, len: int, k: int, p: int, q: int, rem: int)
    requires
        cut(sig, e, len, k, p, q, rem),
    ensures
        0 <= q < 2 * HIDDEN,
        k * HIDDEN + q < INF,
        mag((k * HIDDEN + q) as u64) == q * pow2(k as nat),
        mag((k * HIDDEN + q + 1) as u64) == (q + 1) * pow2(k as nat),
        2 * pow2(k as nat) * down_scale(e) == p * up_scale(e),
        pow2(k as nat) > 0,
        down_scale(e) > 0,
        up_scale(e) > 0,
        p % 2 == 0,
{
    lemma2_to64();
    lemma2_to64_rest();
    let shift = (k - e) as nat;
    lemma_pow2_pos(shift);
    // q < 2^53
    lemma_pow2_product(shift, 53, shift + 53);
    lemma_pow2_order(len as nat, shift + 53);
    assert(q < pow2(53)) by (nonlinear_arith)
        requires
            sig == q * p + rem,
            0 <= rem,
            p > 0,
            sig < p * pow2(53),
    ;
    assert(q >= 0) by (nonlinear_arith)
        requires
            sig == q * p + rem,
            rem < p,
            p > 0,
            sig >= 0,
    ;
    if k > 0 {
        lemma_pow2_product(shift, 52, (len - 1) as nat);
        assert(q >= pow2(52)) by (nonlinear_arith)
            requires
                sig == q * p + rem,
                rem < p,
                p > 0,
                sig >= p * pow2(52),
        ;
    }
    lemma_mag_compose(k, q);
    let o = (k * HIDDEN + q) as u64;
    lemma_mag_step(o);
    let kk = pow2(k as nat) as int;
    assert(q * kk + kk == (q + 1) * kk) by (nonlinear_arith);
    let neg = (if e + 1 >= 0 { 0 } else { -(e + 1) }) as nat;
    let pos = (if e + 1 >= 0 { e + 1 } else { 0 }) as nat;
    lemma_pow2_product(k as nat, neg, (k + neg) as nat);
    lemma_pow2_product((shift - 1) as nat, pos, (k + neg) as nat);
    lemma_pow2_unfold(shift);
    let h = pow2((shift - 1) as nat) as int;
    assert(2 * kk * down_scale(e) == p * up_scale(e)) by (nonlinear_arith)
        requires
            kk * down_scale(e) == h * up_scale(e),
            p == 2 * h,
    ;
}

/// Rounding a cut number to the neighbour that the remainder points to gives
/// the nearest magnitude.
proof fn lemma_round_cut(
    sig: int,
    e: int,
    sticky: bool,
    len: int,
    k: int,
    p: int,
    q: int,
    rem: int,
)
    requires
        cut(sig, e, len, k, p, q, rem),
    ensures
        0 <= q < 2 * HIDDEN,
        k * HIDDEN + q < INF,
        p % 2 == 0,
        rounded(
            (k * HIDDEN + q + (if goes_up(p, q, rem, sticky) { 1int } else { 0int })) as u64,
            sig,
            e,
            sticky,
        ),
{
    lemma_cut_neighbours(sig, e, len, k, p, q, rem);
    let o = (k * HIDDEN + q) as u64;
    let o1 = (o + 1) as u64;
    let kk = pow2(k as nat) as int;
    let n = down_scale(e);
    let u = up_scale(e);
    let lo = mag(o);
    let hi = mag(o1);
    let mid = lo + hi;
    // mid * n == (2 * sig - 2 * rem + p) * u / 2, stated without the division
    assert(2 * (mid * n) == (2 * sig - 2 * rem + p) * u) by (nonlinear_arith)
        requires
            mid == q * kk + (q + 1) * kk,
            2 * kk * n == p * u,
            sig == q * p + rem,
    ;
    assert(2 * (2 * lo * n) == 2 * (sig - rem) * u) by (nonlinear_arith)
        requires
            lo == q * kk,
            2 * kk * n == p * u,
            sig == q * p + rem,
    ;
    assert(2 * (2 * hi * n) == 2 * (sig - rem + p) * u) by (nonlinear_arith)
        requires
            hi == (q + 1) * kk,
            2 * kk * n == p * u,
            sig == q * p + rem,
    ;
    if goes_up(p, q, rem, sticky) {
        // o1 is the result
        assert(o % 2 == q % 2) by {
            assert(HIDDEN % 2 == 0);
            assert((k * HIDDEN) % 2 == 0) by (nonlinear_arith)
                requires
                    HIDDEN == 0x10_0000_0000_0000,
            ;
        }
        assert(mid * n < sig * u || (mid * n == sig * u && sticky) || (mid * n == sig * u
            && !sticky && o1 % 2 == 0)) by (nonlinear_arith)
            requires
                2 * (mid * n) == (2 * sig - 2 * rem + p) * u,
                u > 0,
                2 * rem > p || (2 * rem == p && (sticky || o1 % 2 == 0)),
        ;
        if o1 < INF {
            let m2 = hi + mag((o1 + 1) as u64);
            lemma_mag_increases(o1, (o1 + 1) as u64);
            assert(m2 * n >= (sig + 1) * u) by (nonlinear_arith)
                requires
                    m2 > 2 * hi,
                    2 * (2 * hi * n) == 2 * (sig - rem + p) * u,
                    rem < p,
                    u > 0,
                    n > 0,
            ;
        }
    } else {
        assert(o % 2 == q % 2) by {
            assert((k * HIDDEN) % 2 == 0) by (nonlinear_arith)
                requires
                    HIDDEN == 0x10_0000_0000_0000,
            ;
        }
        assert(mid * n >= (sig + 1) * u || (mid * n == sig * u && !sticky && o % 2 == 0))
            by (nonlinear_arith)
            requires
                2 * (mid * n) == (2 * sig - 2 * rem + p) * u,
                u > 0,
                p % 2 == 0,
                2 * rem < p || (2 * rem == p && !sticky && o % 2 == 0),
        ;
        if o > 0 {
            let m0 = mag((o - 1) as u64) + lo;
            lemma_mag_increases((o - 1) as u64, o);
            assert(m0 * n < sig * u) by (nonlinear_arith)
                requires
                    m0 < 2 * lo,
                    2 * (2 * lo * n) == 2 * (sig - rem) * u,
                    rem >= 0,
                    u > 0,
                    n > 0,
            ;
        }
    }
}

/// The magnitude nearest to the number described by `sig`, `e` and `sticky`.
pub fn round_pack(sig: u128, e: i64, sticky: bool) -> (o: u64)
    requires
        0 < sig < pow2(126),
        -8192 <= e <= 8192,
        sticky ==> sig >= pow2(53),
    ensures
        rounded(o, sig as int, e as int, sticky),
{
    let len = bit_length(sig);
    proof {
        if len > 126 {
            lemma_pow2_order(126, (len - 1) as nat);
        }
    }
    let t: i64 = e + (len as i64) - 53;
    let k: i64 = if t > 0 { t } else { 0 };
    if k >= 2046 {
        proof {
            lemma_round_overflow(sig as int, e as int, sticky, len as int);
        }
        return INF;
    }
    let shift: i64 = k - e;
    if shift <= 0 {
        let up = pow2_exec((-shift) as u32);
        proof {
            lemma_round_exact(sig as int, e as int, len as int, k as int, sig * up);
            if sticky {
                lemma_pow2_order(len as nat, 53);
            }
        }
        let q = (sig * up) as u64;
        return (k as u64) * HIDDEN + q;
    }
    if shift >= 128 {
        proof {
            lemma_round_tiny(sig as int, e as int, sticky);
        }
        return 0;
    }
    let p = pow2_exec(shift as u32);
    proof {
        lemma_pow2_pos(shift as nat);
        lemma_fundamental_div_mod(sig as int, p as int);
        lemma_round_cut(
            sig as int,
            e as int,
            sticky,
            len as int,
            k as int,
            p as int,
            (sig / p) as int,
            (sig % p) as int,
        );
    }
    let q = (sig / p) as u64;
    let rem = sig % p;
    let half = p / 2;
    let o = (k as u64) * HIDDEN + q;
    if rem > half || (rem == half && (sticky || q % 2 == 1)) {
        o + 1
    } else {
        o
    }
}

} // verus!
