//! Integer arithmetic underlying the fixed-point geometry: magnitude,
//! quotient rounded toward zero, floor square root, and the bounds that
//! relate a scaled, divided vector back to the exact ratio it approximates.

use vstd::prelude::*;
use vstd::arithmetic::div_mod::lemma_fundamental_div_mod;

verus! {

/// Magnitude of an integer.
pub open spec fn mag(a: int) -> int {
    if a >= 0 {
        a
    } else {
        -a
    }
}

/// Quotient rounded toward zero, for a positive divisor.
pub open spec fn tdiv(a: int, b: int) -> int {
    if a >= 0 {
        a / b
    } else {
        -((-a) / b)
    }
}

/// Floor square root, reached by climbing from `r` while the next square
/// still fits under `n`.
pub open spec fn sqrt_from(n: int, r: int) -> int
    decreases n - r,
{
    if 0 <= r && r < n && (r + 1) * (r + 1) <= n {
        sqrt_from(n, r + 1)
    } else {
        r
    }
}

/// Floor square root of a nonnegative integer.
pub open spec fn sqrt_floor(n: int) -> int {
    sqrt_from(n, 0)
}

/// Squaring keeps the order of nonnegative integers.
pub proof fn lemma_sq_mono(a: int, b: int)
    by (nonlinear_arith)
    requires
        0 <= a <= b,
    ensures
        a * a <= b * b,
{
}

/// Squaring keeps a strict order of nonnegative integers.
pub proof fn lemma_sq_strict(a: int, b: int)
    by (nonlinear_arith)
    requires
        0 <= a < b,
    ensures
        a * a < b * b,
{
}

/// An order of squares comes from an order of the nonnegative roots.
pub proof fn lemma_sq_lt(a: int, b: int)
    by (nonlinear_arith)
    requires
        0 <= a,
        0 <= b,
        a * a < b * b,
    ensures
        a < b,
{
}

proof fn lemma_sqrt_from_bounds(n: int, r: int)
    requires
        0 <= r,
        r * r <= n,
    ensures
        sqrt_from(n, r) * sqrt_from(n, r) <= n,
        n < (sqrt_from(n, r) + 1) * (sqrt_from(n, r) + 1),
        r <= sqrt_from(n, r),
    decreases n - r,
{
    if 0 <= r && r < n && (r + 1) * (r + 1) <= n {
        lemma_sqrt_from_bounds(n, r + 1);
    } else {
        if r >= n {
            assert(r <= 1) by (nonlinear_arith)
                requires
                    0 <= r,
                    r * r <= n,
                    r >= n,
            ;
            assert(n < (r + 1) * (r + 1)) by (nonlinear_arith)
                requires
                    0 <= r,
                    r >= n,
            ;
        }
    }
}

/// The floor square root of `n` is squeezed between the squares `s * s`
/// and `(s + 1) * (s + 1)`.
pub proof fn lemma_sqrt_floor_bounds(n: int)
    requires
        0 <= n,
    ensures
        0 <= sqrt_floor(n),
        sqrt_floor(n) * sqrt_floor(n) <= n,
        n < (sqrt_floor(n) + 1) * (sqrt_floor(n) + 1),
{
    lemma_sqrt_from_bounds(n, 0);
}

/// Only one nonnegative integer is squeezed between consecutive squares.
pub proof fn lemma_sqrt_floor_unique(n: int, r: int)
    requires
        0 <= r,
        r * r <= n,
        n < (r + 1) * (r + 1),
    ensures
        r == sqrt_floor(n),
{
    lemma_sqrt_floor_bounds(n);
    let s = sqrt_floor(n);
    if r < s {
        lemma_sq_mono(r + 1, s);
    }
    if s < r {
        lemma_sq_mono(s + 1, r);
    }
}

/// Floor division of nonnegative integers: the quotient times the divisor
/// falls short of the dividend by less than the divisor.
pub proof fn lemma_div_bounds(a: int, b: int)
    requires
        0 <= a,
        0 < b,
    ensures
        0 <= a / b <= a,
        b * (a / b) <= a < b * (a / b) + b,
{
    lemma_fundamental_div_mod(a, b);
    assert(0 <= a / b && a / b <= a && b * (a / b) <= a && a < b * (a / b) + b)
        by (nonlinear_arith)
        requires
            0 <= a,
            0 < b,
            a == b * (a / b) + a % b,
            0 <= a % b < b,
    ;
}

/// A quotient rounded toward zero, scaled back up by the divisor, lands
/// within one divisor of the dividend, on the same side of zero.
pub proof fn lemma_tdiv_mag(a: int, b: int)
    requires
        0 < b,
    ensures
        mag(tdiv(a, b)) * b <= mag(a) < (mag(tdiv(a, b)) + 1) * b,
        0 <= mag(tdiv(a, b)) <= mag(a),
        a >= 0 ==> tdiv(a, b) >= 0,
        a <= 0 ==> tdiv(a, b) <= 0,
{
    let m = mag(a);
    let q = m / b;
    if a >= 0 {
        lemma_div_bounds(a, b);
    } else {
        lemma_div_bounds(-a, b);
    }
    assert(mag(tdiv(a, b)) == q);
    assert(q * b <= m < (q + 1) * b) by (nonlinear_arith)
        requires
            b * q <= m < b * q + b,
    ;
}

/// Both components of a vector divided by `d` (rounded toward zero), squared
/// and summed, sandwich the exact squared norm ratio: the rounded vector is
/// no longer than the exact one, and lengthening each component by one step
/// overshoots it.
pub proof fn lemma_pair_div_norm(u: int, v: int, d: int)
    requires
        0 < d,
    ensures
        (tdiv(u, d) * tdiv(u, d) + tdiv(v, d) * tdiv(v, d)) * (d * d) <= u * u + v * v,
        u * u + v * v < ((mag(tdiv(u, d)) + 1) * (mag(tdiv(u, d)) + 1) + (mag(tdiv(v, d)) + 1)
            * (mag(tdiv(v, d)) + 1)) * (d * d),
{
    let p = mag(tdiv(u, d));
    let q = mag(tdiv(v, d));
    lemma_tdiv_mag(u, d);
    lemma_tdiv_mag(v, d);
    assert(mag(u) * mag(u) == u * u && mag(v) * mag(v) == v * v) by (nonlinear_arith);
    assert(tdiv(u, d) * tdiv(u, d) == p * p && tdiv(v, d) * tdiv(v, d) == q * q)
        by (nonlinear_arith)
        requires
            p == mag(tdiv(u, d)),
            q == mag(tdiv(v, d)),
    ;
    lemma_sq_mono(p * d, mag(u));
    lemma_sq_mono(q * d, mag(v));
    lemma_sq_strict(mag(u), (p + 1) * d);
    lemma_sq_strict(mag(v), (q + 1) * d);
    assert((p * p + q * q) * (d * d) <= u * u + v * v) by (nonlinear_arith)
        requires
            (p * d) * (p * d) <= mag(u) * mag(u),
            (q * d) * (q * d) <= mag(v) * mag(v),
            p == mag(tdiv(u, d)),
            q == mag(tdiv(v, d)),
            mag(u) * mag(u) == u * u,
            mag(v) * mag(v) == v * v,
            tdiv(u, d) * tdiv(u, d) == p * p,
            tdiv(v, d) * tdiv(v, d) == q * q,
    ;
    assert(u * u + v * v < ((p + 1) * (p + 1) + (q + 1) * (q + 1)) * (d * d))
        by (nonlinear_arith)
        requires
            mag(u) * mag(u) < ((p + 1) * d) * ((p + 1) * d),
            mag(v) * mag(v) < ((q + 1) * d) * ((q + 1) * d),
            mag(u) * mag(u) == u * u,
            mag(v) * mag(v) == v * v,
    ;
}

/// A magnitude squared is the square itself.
pub proof fn lemma_mag_sq(x: int)
    by (nonlinear_arith)
    ensures
        mag(x) * mag(x) == x * x,
{
}

/// A common factor greater than zero cancels from a strict product order.
pub proof fn lemma_cancel_factor(a: int, b: int, c: int)
    by (nonlinear_arith)
    requires
        a * c < b * c,
        0 < c,
    ensures
        a < b,
{
}

/// The magnitude of a product is bounded by the product of the bounds.
pub proof fn lemma_mul_mag_bound(a: int, b: int, ca: int, cb: int)
    by (nonlinear_arith)
    requires
        mag(a) <= ca,
        mag(b) <= cb,
    ensures
        mag(a * b) <= ca * cb,
{
}

/// Dividing a vector by `d` (toward zero) divides its norm by `d` as well,
/// up to the rounding of the grid: if the squared norm lies between
/// `(lo*d)^2` and `(hi*d)^2`, the squared norm of the quotient vector lies
/// between `lo*lo - 4*hi - 2` (exclusive) and `hi*hi` (exclusive).
pub proof fn lemma_scaled_div_band(u: int, v: int, d: int, lo: int, hi: int)
    requires
        0 < d,
        0 <= lo,
        2 <= hi,
        lo * lo * (d * d) <= u * u + v * v,
        u * u + v * v < hi * hi * (d * d),
    ensures
        tdiv(u, d) * tdiv(u, d) + tdiv(v, d) * tdiv(v, d) < hi * hi,
        lo * lo - 4 * hi - 2 < tdiv(u, d) * tdiv(u, d) + tdiv(v, d) * tdiv(v, d),
        mag(tdiv(u, d)) < hi,
        mag(tdiv(v, d)) < hi,
{
    let p = tdiv(u, d);
    let q = tdiv(v, d);
    let mp = mag(p);
    let mq = mag(q);
    lemma_pair_div_norm(u, v, d);
    lemma_mag_sq(p);
    lemma_mag_sq(q);
    assert(mp * mp + mq * mq < hi * hi) by {
        assert((mp * mp + mq * mq) * (d * d) < (hi * hi) * (d * d)) by (nonlinear_arith)
            requires
                (mp * mp + mq * mq) * (d * d) <= u * u + v * v,
                u * u + v * v < hi * hi * (d * d),
        ;
        lemma_cancel_factor(mp * mp + mq * mq, hi * hi, d * d);
        assert(0 < d * d) by (nonlinear_arith)
            requires
                0 < d,
        ;
    }
    lemma_sq_lt(mp, hi);
    lemma_sq_lt(mq, hi);
    assert(lo * lo < (mp + 1) * (mp + 1) + (mq + 1) * (mq + 1)) by {
        assert((lo * lo) * (d * d) < ((mp + 1) * (mp + 1) + (mq + 1) * (mq + 1)) * (d * d))
            by (nonlinear_arith)
            requires
                lo * lo * (d * d) <= u * u + v * v,
                u * u + v * v < ((mp + 1) * (mp + 1) + (mq + 1) * (mq + 1)) * (d * d),
        ;
        lemma_cancel_factor(lo * lo, (mp + 1) * (mp + 1) + (mq + 1) * (mq + 1), d * d);
        assert(0 < d * d) by (nonlinear_arith)
            requires
                0 < d,
        ;
    }
    assert(lo * lo - 4 * hi - 2 < mp * mp + mq * mq) by (nonlinear_arith)
        requires
            lo * lo < (mp + 1) * (mp + 1) + (mq + 1) * (mq + 1),
            0 <= mp < hi,
            0 <= mq < hi,
    ;
}

/// Floor quotient of nonnegative machine integers.
pub fn div_nn(a: i64, b: i64) -> (r: i64)
    requires
        0 <= a,
        0 < b,
    ensures
        r == a as int / b as int,
        0 <= r <= a,
{
    proof {
        lemma_div_bounds(a as int, b as int);
    }
    ((a as u64) / (b as u64)) as i64
}

/// Quotient rounded toward zero, for a positive divisor.
pub fn div_trunc(a: i64, b: i64) -> (r: i64)
    requires
        0 < b,
        i64::MIN < a,
    ensures
        r == tdiv(a as int, b as int),
        mag(r as int) <= mag(a as int),
{
    if a >= 0 {
        div_nn(a, b)
    } else {
        let m = div_nn(-a, b);
        -m
    }
}

/// Floor square root of a bounded machine integer, by bisection.
pub fn isqrt(n: i64) -> (r: i64)
    requires
        0 <= n <= 10_000_000_000_000,
    ensures
        r == sqrt_floor(n as int),
        0 <= r,
        r * r <= n,
        n < (r + 1) * (r + 1),
{
    let mut lo: i64 = 0;
    let mut hi: i64 = 3_200_001;
    proof {
        assert(n < hi * hi) by (nonlinear_arith)
            requires
                n <= 10_000_000_000_000,
                hi == 3_200_001,
        ;
    }
    while lo + 1 < hi
        invariant
            0 <= lo < hi <= 3_200_001,
            lo * lo <= n,
            n < hi * hi,
            n <= 10_000_000_000_000,
        decreases hi - lo,
    {
        let mid: i64 = (((lo + hi) as u64) / 2) as i64;
        proof {
            assert(lo < mid < hi);
            assert(mid * mid <= 3_200_001 * 3_200_001) by (nonlinear_arith)
                requires
                    0 <= mid <= 3_200_001,
            ;
        }
        if mid * mid <= n {
            lo = mid;
        } else {
            hi = mid;
        }
    }
    proof {
        lemma_sqrt_floor_unique(n as int, lo as int);
    }
    lo
}

} // verus!
