//! Integer arithmetic shared by the flock model.
//!
//! Every quantity of the model is a whole number. Lengths are thousandths of
//! a pixel, velocities thousandths of a pixel per second, times milliseconds
//! and steering factors thousandths (per-mille). Intermediate results are
//! exact; a value is brought back into the 32-bit range only when it is
//! stored, by saturation.

use vstd::prelude::*;
use vstd::arithmetic::div_mod::lemma_fundamental_div_mod;
use vstd::arithmetic::div_mod::lemma_fundamental_div_mod_converse;

verus! {

/// Sub-units per whole: thousandths of a pixel per pixel, milliseconds per
/// second, per-mille per one.
pub const UNIT: i32 = 1000;

/// Bound on the magnitude of a value handed to [`scale_by`].
pub const SCALE_INPUT_LIMIT: i128 = 0x1000_0000_0000_0000_0000_0000_0000;

/// `v` brought into the range of `i32`: values beyond either end are
/// replaced by that end.
pub open spec fn saturate(v: int) -> int {
    if v < i32::MIN {
        i32::MIN as int
    } else if v > i32::MAX {
        i32::MAX as int
    } else {
        v
    }
}

/// The quotient of `a` by a positive `b`, rounded toward zero.
pub open spec fn div_trunc(a: int, b: int) -> int {
    if a >= 0 {
        a / b
    } else {
        -((-a) / b)
    }
}

/// `v` multiplied by a per-mille factor, rounded toward zero.
pub open spec fn scale(v: int, permille: int) -> int {
    div_trunc(v * permille, UNIT as int)
}

/// The quotient of `a` by a positive `b`, rounded toward negative infinity.
pub open spec fn floor_div(a: int, b: int) -> int {
    a / b
}

/// The quotient of `a` by a positive `b`, rounded toward positive infinity.
pub open spec fn ceil_div(a: int, b: int) -> int {
    -((-a) / b)
}

/// `s` is the least natural number whose square reaches `n`.
pub open spec fn is_ceil_sqrt(n: int, s: int) -> bool {
    &&& s >= 0
    &&& s * s >= n
    &&& (s == 0 || (s - 1) * (s - 1) < n)
}

/// The least natural number whose square reaches `n`: the square root of
/// `n`, rounded up.
pub open spec fn ceil_sqrt(n: int) -> int {
    choose|s: int| is_ceil_sqrt(n, s)
}

/// Squaring keeps the order of natural numbers.
pub proof fn lemma_square_monotone(a: int, b: int)
    requires
        0 <= a <= b,
    ensures
        a * a <= b * b,
{
    assert(a * a <= b * b) by (nonlinear_arith)
        requires
            0 <= a <= b,
    ;
}

/// Every number has a rounded-up square root.
pub proof fn lemma_ceil_sqrt_exists(n: int)
    ensures
        is_ceil_sqrt(n, ceil_sqrt(n)),
    decreases
        (if n > 0 { n } else { 0 }),
{
    if n <= 0 {
        assert(is_ceil_sqrt(n, 0));
    } else {
        lemma_ceil_sqrt_exists(n - 1);
        let r = ceil_sqrt(n - 1);
        // r is the least with r^2 >= n - 1; the root of n is r or r + 1
        if r * r >= n {
            assert(is_ceil_sqrt(n, r));
        } else {
            assert(r * r == n - 1);
            assert((r + 1) * (r + 1) >= n) by (nonlinear_arith)
                requires
                    r >= 0,
                    r * r == n - 1,
            ;
            assert(is_ceil_sqrt(n, r + 1));
        }
    }
}

/// At most one number is the rounded-up square root of `n`, so any number
/// that qualifies is `ceil_sqrt(n)`.
pub proof fn lemma_ceil_sqrt_unique(n: int, s: int)
    requires
        is_ceil_sqrt(n, s),
    ensures
        ceil_sqrt(n) == s,
{
    let c = ceil_sqrt(n);
    assert(is_ceil_sqrt(n, c));
    if c < s {
        lemma_square_monotone(c, s - 1);
    } else if s < c {
        lemma_square_monotone(s, c - 1);
    }
}

/// Truncated scaling never grows a value by more than the factor allows:
/// the result has the sign of `v` and at most 66 times its magnitude when
/// the factor fits 16 bits.
pub proof fn lemma_scale_bounds(v: int, permille: int)
    requires
        0 <= permille <= u16::MAX,
    ensures
        v >= 0 ==> 0 <= scale(v, permille) <= 66 * v,
        v <= 0 ==> 66 * v <= scale(v, permille) <= 0,
{
    let p = v * permille;
    if v >= 0 {
        assert(0 <= p <= 66000 * v) by (nonlinear_arith)
            requires
                p == v * permille,
                v >= 0,
                0 <= permille <= 65535,
        ;
        assert(0 <= p / 1000 <= 66 * v);
    } else {
        assert(0 <= -p <= 66000 * (-v)) by (nonlinear_arith)
            requires
                p == v * permille,
                v < 0,
                0 <= permille <= 65535,
        ;
        assert(0 <= (-p) / 1000 <= 66 * (-v));
    }
}

/// Brings a wide value into the range of `i32`.
pub fn saturate_i128(v: i128) -> (r: i32)
    ensures
        r == saturate(v as int),
{
    if v < -0x8000_0000 {
        i32::MIN
    } else if v > 0x7fff_ffff {
        i32::MAX
    } else {
        v as i32
    }
}

/// Multiplies `v` by a per-mille factor, rounding toward zero.
pub fn scale_by(v: i128, permille: u16) -> (r: i128)
    requires
        -SCALE_INPUT_LIMIT <= v <= SCALE_INPUT_LIMIT,
    ensures
        r == scale(v as int, permille as int),
        v >= 0 ==> 0 <= r <= 66 * v,
        v <= 0 ==> 66 * v <= r <= 0,
{
    proof {
        lemma_scale_bounds(v as int, permille as int);
        assert(-66000 * SCALE_INPUT_LIMIT <= v * permille <= 66000 * SCALE_INPUT_LIMIT)
            by (nonlinear_arith)
            requires
                -SCALE_INPUT_LIMIT <= v <= SCALE_INPUT_LIMIT,
                0 <= permille <= 65535,
        ;
    }
    let product: i128 = v * (permille as i128);
    product / (UNIT as i128)
}

/// Divides by a positive number, rounding toward negative infinity.
pub fn floor_div_i64(a: i64, b: i64) -> (q: i64)
    requires
        b > 0,
    ensures
        q == floor_div(a as int, b as int),
{
    if a >= 0 {
        a / b
    } else {
        let m: i64 = -1 - a;
        let k: i64 = m / b;
        proof {
            lemma_fundamental_div_mod(m as int, b as int);
            let r = (m as int) % (b as int);
            assert((-1 - k) * b + (b - 1 - r) == a) by (nonlinear_arith)
                requires
                    m == b * k + r,
                    m == -1 - a,
            ;
            lemma_fundamental_div_mod_converse(a as int, b as int, -1 - k, b - 1 - r);
        }
        -1 - k
    }
}

/// Divides by a positive number, rounding toward positive infinity.
pub fn ceil_div_i64(a: i64, b: i64) -> (q: i64)
    requires
        b > 0,
        a > i64::MIN,
    ensures
        q == ceil_div(a as int, b as int),
{
    let f: i64 = floor_div_i64(-a, b);
    proof {
        lemma_fundamental_div_mod(-(a as int), b as int);
        if a >= 0 {
            assert(-(a as int) / (b as int) >= -(a as int)) by (nonlinear_arith)
                requires
                    a >= 0,
                    b > 0,
                    -(a as int) == b * (-(a as int) / (b as int)) + (-(a as int)) % (b as int),
                    0 <= (-(a as int)) % (b as int) < b,
            ;
        }
    }
    -f
}

/// The square root of `n`, rounded up.
pub fn ceil_sqrt_u64(n: u64) -> (s: u64)
    ensures
        s == ceil_sqrt(n as int),
        s <= 0x1_0000_0000,
{
    if n == 0 {
        proof {
            lemma_ceil_sqrt_unique(0, 0);
        }
        return 0;
    }
    let mut lo: u64 = 0;
    let mut hi: u64 = 0x1_0000_0000;
    while hi - lo > 1
        invariant
            lo < hi <= 0x1_0000_0000,
            lo * lo < n <= hi * hi,
        decreases hi - lo,
    {
        let mid: u64 = lo + (hi - lo) / 2;
        proof {
            lemma_square_monotone(mid as int, 0x1_0000_0000);
        }
        let sq: u128 = (mid as u128) * (mid as u128);
        if sq >= n as u128 {
            hi = mid;
        } else {
            lo = mid;
        }
    }
    proof {
        lemma_ceil_sqrt_unique(n as int, hi as int);
    }
    hi
}

} // verus!
