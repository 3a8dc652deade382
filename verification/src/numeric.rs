//! Fixed-point arithmetic helpers: division rounded to the nearest integer and
//! integer square roots, with exact specifications.

use vstd::prelude::*;

verus! {

/// All coordinates are kept in thousandths of a unit.
pub const SCALE: i64 = 1000;

/// Largest coordinate magnitude, in thousandths of a unit, that the library
/// handles; it keeps every intermediate product within the machine integers.
pub const MAX_COORD: i64 = 10_000_000;

/// The nearest integer to `a / b`, halves rounded away from zero.
pub open spec fn round_div_spec(a: int, b: int) -> int
    recommends
        b >= 1,
{
    if a >= 0 {
        (a + b / 2) / b
    } else {
        -((-a + b / 2) / b)
    }
}

/// Rounded division never leaves an interval whose endpoints are exact
/// multiples of the divisor.
pub proof fn lemma_round_div_bounds(a: int, b: int, lo: int, hi: int)
    requires
        b >= 1,
        lo * b <= a,
        a <= hi * b,
    ensures
        lo <= round_div_spec(a, b),
        round_div_spec(a, b) <= hi,
{
    if a >= 0 {
        let r = (a + b / 2) / b;
        assert(b / 2 < b);
        assert(a + b / 2 < (hi + 1) * b) by (nonlinear_arith)
            requires a <= hi * b && b / 2 < b && b >= 1;
        assert(r < hi + 1) by (nonlinear_arith)
            requires a + b / 2 < (hi + 1) * b && b >= 1 && r == (a + b / 2) / b;
        assert(lo * b <= a + b / 2);
        assert(lo <= r) by (nonlinear_arith)
            requires lo * b <= a + b / 2 && b >= 1 && r == (a + b / 2) / b;
    } else {
        let m = -a;
        let q = (m + b / 2) / b;
        assert(m <= (-lo) * b) by (nonlinear_arith)
            requires lo * b <= a && m == -a;
        assert(b / 2 < b);
        assert(m + b / 2 < (-lo + 1) * b) by (nonlinear_arith)
            requires m <= (-lo) * b && b / 2 < b && b >= 1;
        assert(q < -lo + 1) by (nonlinear_arith)
            requires m + b / 2 < (-lo + 1) * b && b >= 1 && q == (m + b / 2) / b;
        assert((-hi) * b <= m) by (nonlinear_arith)
            requires a <= hi * b && m == -a;
        assert((-hi) * b <= m + b / 2);
        assert(-hi <= q) by (nonlinear_arith)
            requires (-hi) * b <= m + b / 2 && b >= 1 && q == (m + b / 2) / b;
        assert(round_div_spec(a, b) == -q);
    }
}

/// Dividing an exact multiple is exact.
pub proof fn lemma_round_div_exact(k: int, b: int)
    requires
        b >= 1,
    ensures
        round_div_spec(k * b, b) == k,
{
    lemma_round_div_bounds(k * b, b, k, k);
}

/// The magnitude of a rounded quotient never exceeds the magnitude of the
/// numerator.
pub proof fn lemma_round_div_magnitude(a: int, b: int, m: int)
    requires
        b >= 1,
        -m <= a,
        a <= m,
        0 <= m,
    ensures
        -m <= round_div_spec(a, b),
        round_div_spec(a, b) <= m,
{
    assert((-m) * b <= a) by (nonlinear_arith)
        requires -m <= a && b >= 1 && m >= 0;
    assert(a <= m * b) by (nonlinear_arith)
        requires a <= m && b >= 1 && m >= 0;
    lemma_round_div_bounds(a, b, -m, m);
}

/// Division rounded to the nearest integer, halves away from zero.
pub fn round_div(a: i64, b: u64) -> (r: i64)
    requires
        1 <= b <= 0x2000_0000_0000_0000,
        -0x2000_0000_0000_0000 <= a <= 0x2000_0000_0000_0000,
    ensures
        r as int == round_div_spec(a as int, b as int),
        -0x2000_0000_0000_0000 <= r <= 0x2000_0000_0000_0000,
{
    proof {
        lemma_round_div_magnitude(a as int, b as int, 0x2000_0000_0000_0000);
    }
    if a >= 0 {
        let m: u64 = a as u64;
        let q: u64 = (m + b / 2) / b;
        proof {
            assert(a as int <= (a as int) * (b as int)) by (nonlinear_arith)
                requires a >= 0 && b >= 1;
            lemma_round_div_bounds(a as int, b as int, 0, a as int);
        }
        q as i64
    } else {
        let m: u64 = (-a) as u64;
        let q: u64 = (m + b / 2) / b;
        proof {
            assert(-(a as int) <= (-(a as int)) * (b as int)) by (nonlinear_arith)
                requires a < 0 && b >= 1;
            lemma_round_div_bounds(-(a as int), b as int, 0, -(a as int));
        }
        -(q as i64)
    }
}

/// A product of two bounded factors is bounded by the product of the bounds.
pub proof fn lemma_mul_bound(a: int, b: int, m: int, k: int)
    requires
        -m <= a <= m,
        -k <= b <= k,
        0 <= m,
        0 <= k,
    ensures
        -(m * k) <= a * b <= m * k,
{
    assert(-(m * k) <= a * b <= m * k) by (nonlinear_arith)
        requires -m <= a <= m && -k <= b <= k && 0 <= m && 0 <= k;
}

/// The integer square root, rounded down: the largest `r` with `r * r <= n`.
pub open spec fn isqrt_spec(n: int) -> int
    recommends
        n >= 0,
    decreases n,
{
    if n <= 0 {
        0
    } else {
        let p = isqrt_spec(n - 1);
        if (p + 1) * (p + 1) <= n {
            p + 1
        } else {
            p
        }
    }
}

/// The square root rounded down is characterized by bracketing squares.
pub proof fn lemma_isqrt_bounds(n: int)
    requires
        n >= 0,
    ensures
        0 <= isqrt_spec(n),
        isqrt_spec(n) * isqrt_spec(n) <= n,
        n < (isqrt_spec(n) + 1) * (isqrt_spec(n) + 1),
    decreases n,
{
    if n == 0 {
    } else {
        lemma_isqrt_bounds(n - 1);
        let p = isqrt_spec(n - 1);
        if (p + 1) * (p + 1) <= n {
            assert(n <= (p + 1) * (p + 1));
            assert((p + 1) * (p + 1) < (p + 2) * (p + 2)) by (nonlinear_arith)
                requires p >= 0;
        }
    }
}

/// Any value bracketed by consecutive squares is the rounded-down square root.
pub proof fn lemma_isqrt_unique(n: int, r: int)
    requires
        n >= 0,
        r >= 0,
        r * r <= n,
        n < (r + 1) * (r + 1),
    ensures
        r == isqrt_spec(n),
{
    lemma_isqrt_bounds(n);
    let s = isqrt_spec(n);
    if r < s {
        assert((r + 1) * (r + 1) <= s * s) by (nonlinear_arith)
            requires 0 <= r && r + 1 <= s;
        assert(false);
    }
    if s < r {
        assert((s + 1) * (s + 1) <= r * r) by (nonlinear_arith)
            requires 0 <= s && s + 1 <= r;
        assert(false);
    }
}

/// The square root rounded down, by bisection.
pub fn isqrt(n: u64) -> (r: u64)
    requires
        n < 0x4000_0000_0000_0000,
    ensures
        r as int == isqrt_spec(n as int),
        r < 0x8000_0000,
{
    let mut lo: u64 = 0;
    let mut hi: u64 = 0x8000_0000;
    while lo + 1 < hi
        invariant
            lo < hi <= 0x8000_0000,
            lo * lo <= n,
            n < hi * hi,
            n < 0x4000_0000_0000_0000,
        decreases hi - lo,
    {
        let mid = lo + (hi - lo) / 2;
        proof {
            assert(mid * mid <= 0x4000_0000_0000_0000) by (nonlinear_arith)
                requires mid <= 0x8000_0000u64;
        }
        if mid * mid <= n {
            lo = mid;
        } else {
            hi = mid;
        }
    }
    proof {
        lemma_isqrt_unique(n as int, lo as int);
    }
    lo
}

/// The square root rounded to the nearest integer.
pub open spec fn sqrt_round_spec(n: int) -> int
    recommends
        n >= 0,
{
    (isqrt_spec(4 * n) + 1) / 2
}

/// The square root rounded to the nearest integer, by bisection on `4 * n`.
pub fn sqrt_round(n: u64) -> (r: u64)
    requires
        n < 0x1000_0000_0000_0000,
    ensures
        r as int == sqrt_round_spec(n as int),
        r < 0x8000_0000,
{
    let s = isqrt(4 * n);
    (s + 1) / 2
}

} // verus!
