//! What a bit pattern is worth, and what it means to round to the nearest one.
use vstd::prelude::*;
use vstd::arithmetic::power2::pow2;
use vstd::arithmetic::power2::lemma_pow2_pos;
use vstd::arithmetic::power2::lemma_pow2_unfold;
use vstd::arithmetic::power2::lemma2_to64;

verus! {

/// The implicit leading bit of a normal significand, `2^52`.
pub const HIDDEN: u64 = 0x0010_0000_0000_0000;

/// The sign bit, `2^63`.
pub const SIGN: u64 = 0x8000_0000_0000_0000;

/// The magnitude bits of infinity. Magnitudes below it are finite, those
/// above it are not numbers.
pub const INF: u64 = 0x7FF0_0000_0000_0000;

/// The one not-a-number that the arithmetic here produces.
pub const QNAN: u64 = 0x7FF8_0000_0000_0000;

/// The scale of the integer model: a magnitude `m` stands for the real
/// number `m / 2^1074`.
pub const SCALE: u64 = 1074;

/// The exponent of the spacing between the magnitude `o` and the next one.
pub open spec fn ulp_exp(o: u64) -> nat {
    if o < 2 * HIDDEN {
        0
    } else {
        (o / HIDDEN - 1) as nat
    }
}

/// The value of the magnitude bits `o`, in units of `2^-1074`. It is an
/// integer for every finite magnitude; at `INF` it is `2^1024` in those
/// units, the value that the next binade would begin with.
pub open spec fn mag(o: u64) -> int {
    if o < 2 * HIDDEN {
        o as int
    } else {
        (HIDDEN + o % HIDDEN) * pow2(ulp_exp(o))
    }
}

/// The next magnitude lies one spacing further.
pub proof fn lemma_mag_step(o: u64)
    requires
        o < INF,
    ensures
        mag((o + 1) as u64) == mag(o) + pow2(ulp_exp(o)),
        pow2(ulp_exp(o)) > 0,
{
    lemma2_to64();
    lemma_pow2_pos(ulp_exp(o));
    let n = (o + 1) as u64;
    if n < 2 * HIDDEN {
    } else if n == 2 * HIDDEN {
        assert(ulp_exp(n) == 1);
        assert(n % HIDDEN == 0);
        assert(mag(n) == HIDDEN * 2);
    } else {
        let f = (o % HIDDEN) as int;
        let h = HIDDEN as int;
        let p = pow2(ulp_exp(o)) as int;
        assert(mag(o) == (h + f) * p);
        if f + 1 < HIDDEN {
            assert(n / HIDDEN == o / HIDDEN);
            assert(n % HIDDEN == f + 1);
            assert(mag(n) == (h + (f + 1)) * p);
            assert((h + (f + 1)) * p == (h + f) * p + p) by (nonlinear_arith);
        } else {
            assert(n / HIDDEN == o / HIDDEN + 1);
            assert(n % HIDDEN == 0);
            lemma_pow2_unfold(ulp_exp(n));
            assert(ulp_exp(n) - 1 == ulp_exp(o));
            assert(pow2(ulp_exp(n)) == 2 * p);
            assert(mag(n) == (h + 0) * (2 * p));
            assert((h + 0) * (2 * p) == (h + f) * p + p) by (nonlinear_arith)
                requires
                    f + 1 == h,
            ;
        }
    }
}

/// Larger magnitude bits are worth more.
pub proof fn lemma_mag_increases(a: u64, b: u64)
    requires
        a <= b <= INF,
    ensures
        mag(a) <= mag(b),
        a < b ==> mag(a) < mag(b),
        0 <= mag(a),
    decreases b - a,
{
    if a < b {
        lemma_mag_step((b - 1) as u64);
        lemma_mag_increases(a, (b - 1) as u64);
    } else {
        if a >= 2 * HIDDEN {
            lemma_pow2_pos(ulp_exp(a));
            assert((HIDDEN + a % HIDDEN) * pow2(ulp_exp(a)) >= 0) by (nonlinear_arith)
                requires
                    pow2(ulp_exp(a)) > 0,
                    a % HIDDEN >= 0,
            ;
        }
    }
}

/// `o` is the magnitude nearest to the rational `num / den` (in units of
/// `2^-1074`), a tie going to the even one. Both neighbours of `o` are at
/// least as far: the midpoint below `o` is not above the rational, the
/// midpoint above `o` not below it. A rational at or beyond the midpoint of
/// the largest finite magnitude and `2^1024` goes to `INF`.
pub open spec fn nearest(o: u64, num: int, den: int) -> bool {
    &&& o <= INF
    &&& o > 0 ==> {
        let m = (mag((o - 1) as u64) + mag(o)) * den;
        m < 2 * num || (m == 2 * num && o % 2 == 0)
    }
    &&& o < INF ==> {
        let m = (mag(o) + mag((o + 1) as u64)) * den;
        2 * num < m || (2 * num == m && o % 2 == 0)
    }
}

/// `o` is the magnitude nearest to the square root of `radicand` (the
/// radicand in units of `2^-2148`, so that its root is in units of
/// `2^-1074`), a tie going to the even one.
pub open spec fn nearest_root(o: u64, radicand: int) -> bool {
    &&& o <= INF
    &&& o > 0 ==> {
        let m = mag((o - 1) as u64) + mag(o);
        m * m < 4 * radicand || (m * m == 4 * radicand && o % 2 == 0)
    }
    &&& o < INF ==> {
        let m = mag(o) + mag((o + 1) as u64);
        4 * radicand < m * m || (4 * radicand == m * m && o % 2 == 0)
    }
}

/// How far the magnitude `o` is from the rational `num / den`, in units of
/// `2^-1074 / den`.
pub open spec fn distance(o: u64, num: int, den: int) -> int {
    let d = mag(o) * den - num;
    if d < 0 {
        -d
    } else {
        d
    }
}

/// The nearest magnitude is nearest: no magnitude is closer to the rational.
pub proof fn lemma_nearest_is_closest(o: u64, x: u64, num: int, den: int)
    requires
        den > 0,
        nearest(o, num, den),
        x <= INF,
    ensures
        distance(o, num, den) <= distance(x, num, den),
{
    let a = mag(o) * den;
    let b = mag(x) * den;
    if x > o {
        let up = mag((o + 1) as u64) * den;
        lemma_mag_increases((o + 1) as u64, x);
        lemma_mag_increases(o, (o + 1) as u64);
        assert(a <= up) by (nonlinear_arith)
            requires
                mag(o) <= mag((o + 1) as u64),
                den > 0,
                a == mag(o) * den,
                up == mag((o + 1) as u64) * den,
        ;
        assert((mag(o) + mag((o + 1) as u64)) * den == a + up) by (nonlinear_arith)
            requires
                a == mag(o) * den,
                up == mag((o + 1) as u64) * den,
        ;
        assert(up <= b) by (nonlinear_arith)
            requires
                mag((o + 1) as u64) <= mag(x),
                den > 0,
                up == mag((o + 1) as u64) * den,
                b == mag(x) * den,
        ;
    } else if x < o {
        let down = mag((o - 1) as u64) * den;
        lemma_mag_increases(x, (o - 1) as u64);
        lemma_mag_increases((o - 1) as u64, o);
        assert(down <= a) by (nonlinear_arith)
            requires
                mag((o - 1) as u64) <= mag(o),
                den > 0,
                a == mag(o) * den,
                down == mag((o - 1) as u64) * den,
        ;
        assert((mag((o - 1) as u64) + mag(o)) * den == down + a) by (nonlinear_arith)
            requires
                a == mag(o) * den,
                down == mag((o - 1) as u64) * den,
        ;
        assert(b <= down) by (nonlinear_arith)
            requires
                mag(x) <= mag((o - 1) as u64),
                den > 0,
                down == mag((o - 1) as u64) * den,
                b == mag(x) * den,
        ;
    }
}

/// At most one magnitude is nearest to a rational.
pub proof fn lemma_nearest_unique(a: u64, b: u64, num: int, den: int)
    requires
        den > 0,
        nearest(a, num, den),
        nearest(b, num, den),
    ensures
        a == b,
{
    if a < b {
        lemma_nearest_ordered(a, b, num, den);
    } else if b < a {
        lemma_nearest_ordered(b, a, num, den);
    }
}

proof fn lemma_nearest_ordered(a: u64, b: u64, num: int, den: int)
    requires
        den > 0,
        a < b,
        nearest(a, num, den),
        nearest(b, num, den),
    ensures
        a + 1 > b,
{
    let lo = mag(a) + mag((a + 1) as u64);
    let hi = mag((b - 1) as u64) + mag(b);
    lemma_mag_increases(a, (b - 1) as u64);
    lemma_mag_increases((a + 1) as u64, b);
    assert(lo * den <= hi * den) by (nonlinear_arith)
        requires
            lo <= hi,
            den > 0,
    ;
    assert(lo == hi) by (nonlinear_arith)
        requires
            lo <= hi,
            den > 0,
            lo * den == hi * den,
    ;
}

/// At most one magnitude is nearest to a square root.
pub proof fn lemma_nearest_root_unique(a: u64, b: u64, radicand: int)
    requires
        nearest_root(a, radicand),
        nearest_root(b, radicand),
    ensures
        a == b,
{
    if a < b {
        lemma_nearest_root_ordered(a, b, radicand);
    } else if b < a {
        lemma_nearest_root_ordered(b, a, radicand);
    }
}

proof fn lemma_nearest_root_ordered(a: u64, b: u64, radicand: int)
    requires
        a < b,
        nearest_root(a, radicand),
        nearest_root(b, radicand),
    ensures
        a + 1 > b,
{
    let lo = mag(a) + mag((a + 1) as u64);
    let hi = mag((b - 1) as u64) + mag(b);
    lemma_mag_increases(a, (b - 1) as u64);
    lemma_mag_increases((a + 1) as u64, b);
    lemma_mag_increases(0, a);
    assert(lo * lo <= hi * hi) by (nonlinear_arith)
        requires
            0 <= lo <= hi,
    ;
    assert(lo == hi) by (nonlinear_arith)
        requires
            0 <= lo <= hi,
            lo * lo == hi * hi,
    ;
}

/// Some magnitude is nearest to a rational.
pub proof fn lemma_nearest_exists(num: int, den: int) -> (o: u64)
    ensures
        nearest(o, num, den),
{
    lemma_nearest_below(INF, num, den)
}

/// A magnitude that is near enough from above has a nearest one at or
/// below it.
proof fn lemma_nearest_below(top: u64, num: int, den: int) -> (o: u64)
    requires
        top <= INF,
        top < INF ==> {
            let m = (mag(top) + mag((top + 1) as u64)) * den;
            2 * num < m || (2 * num == m && top % 2 == 0)
        },
    ensures
        nearest(o, num, den),
    decreases top,
{
    if top == 0 {
        top
    } else {
        let m = (mag((top - 1) as u64) + mag(top)) * den;
        if m < 2 * num || (m == 2 * num && top % 2 == 0) {
            top
        } else {
            lemma_nearest_below((top - 1) as u64, num, den)
        }
    }
}

/// Some magnitude is nearest to a square root.
pub proof fn lemma_nearest_root_exists(radicand: int) -> (o: u64)
    ensures
        nearest_root(o, radicand),
{
    lemma_nearest_root_below(INF, radicand)
}

/// A magnitude that is near enough to a square root from above has a
/// nearest one at or below it.
proof fn lemma_nearest_root_below(top: u64, radicand: int) -> (o: u64)
    requires
        top <= INF,
        top < INF ==> {
            let m = mag(top) + mag((top + 1) as u64);
            4 * radicand < m * m || (4 * radicand == m * m && top % 2 == 0)
        },
    ensures
        nearest_root(o, radicand),
    decreases top,
{
    if top == 0 {
        top
    } else {
        let m = mag((top - 1) as u64) + mag(top);
        if m * m < 4 * radicand || (m * m == 4 * radicand && top % 2 == 0) {
            top
        } else {
            lemma_nearest_root_below((top - 1) as u64, radicand)
        }
    }
}

} // verus!
