//! Integer division that rounds toward zero, and linear interpolation built on it.

use vstd::prelude::*;

verus! {

/// The quotient of `n` by a positive `d`, rounded toward zero.
pub open spec fn trunc_div(n: int, d: int) -> int
    recommends
        d > 0,
{
    if n >= 0 {
        n / d
    } else {
        -((-n) / d)
    }
}

/// The quotient of `n` by a nonzero `d` of either sign, rounded toward zero.
pub open spec fn quotient(n: int, d: int) -> int
    recommends
        d != 0,
{
    if d > 0 {
        trunc_div(n, d)
    } else {
        trunc_div(-n, -d)
    }
}

/// The point `n / d` of the way from `a` to `b`, rounded toward zero:
/// `(a * (d - n) + b * n) / d`.
pub open spec fn interpolate(a: int, b: int, n: int, d: int) -> int
    recommends
        0 <= n <= d,
        0 < d,
{
    trunc_div(a * (d - n) + b * n, d)
}

pub open spec fn min2(a: int, b: int) -> int {
    if a <= b {
        a
    } else {
        b
    }
}

pub open spec fn max2(a: int, b: int) -> int {
    if a >= b {
        a
    } else {
        b
    }
}

pub open spec fn min3(a: int, b: int, c: int) -> int {
    min2(a, min2(b, c))
}

pub open spec fn max3(a: int, b: int, c: int) -> int {
    max2(a, max2(b, c))
}

pub open spec fn abs(a: int) -> int {
    if a >= 0 {
        a
    } else {
        -a
    }
}

/// A product is bounded by the product of the bounds of its factors.
pub proof fn lemma_mul_bound(x: int, y: int, bx: int, by: int)
    by (nonlinear_arith)
    requires
        -bx <= x <= bx,
        -by <= y <= by,
    ensures
        -(bx * by) <= x * y <= bx * by,
{
}

/// A quotient rounded toward zero lies between the bounds of `n / d`.
pub proof fn lemma_trunc_div_bounds(n: int, d: int, lo: int, hi: int)
    requires
        d > 0,
        lo * d <= n <= hi * d,
    ensures
        lo <= trunc_div(n, d) <= hi,
{
    if n >= 0 {
        assert(0 <= n / d) by (nonlinear_arith)
            requires
                n >= 0,
                d > 0,
        ;
        assert(n / d <= hi) by (nonlinear_arith)
            requires
                n <= hi * d,
                d > 0,
                n >= 0,
        ;
        if lo > 0 {
            assert(n / d >= lo) by (nonlinear_arith)
                requires
                    lo * d <= n,
                    d > 0,
            ;
        }
    } else {
        let m = -n;
        assert((-lo) * d == -(lo * d) && (-hi) * d == -(hi * d)) by (nonlinear_arith);
        assert(0 <= m / d) by (nonlinear_arith)
            requires
                m >= 0,
                d > 0,
        ;
        assert(m / d <= -lo) by (nonlinear_arith)
            requires
                m <= (-lo) * d,
                d > 0,
                m >= 0,
        ;
        if hi < 0 {
            assert(m / d >= -hi) by (nonlinear_arith)
                requires
                    (-hi) * d <= m,
                    d > 0,
            ;
        }
    }
}

/// The weighted sum that `interpolate` divides lies between `d` times the
/// smaller and `d` times the larger endpoint.
pub proof fn lemma_weighted_sum_bounds(a: int, b: int, n: int, d: int)
    by (nonlinear_arith)
    requires
        0 <= n <= d,
    ensures
        min2(a, b) * d <= a * (d - n) + b * n <= max2(a, b) * d,
{
}

/// An interpolated value lies between the two endpoints.
pub proof fn lemma_interpolate_between(a: int, b: int, n: int, d: int)
    requires
        0 <= n <= d,
        0 < d,
    ensures
        min2(a, b) <= interpolate(a, b, n, d) <= max2(a, b),
{
    lemma_weighted_sum_bounds(a, b, n, d);
    lemma_trunc_div_bounds(a * (d - n) + b * n, d, min2(a, b), max2(a, b));
}

/// Computes `interpolate(a, b, n, d)`.
pub fn lerp(a: i64, b: i64, n: u64, d: u64) -> (r: i64)
    requires
        n <= d,
        0 < d,
    ensures
        r == interpolate(a as int, b as int, n as int, d as int),
        min2(a as int, b as int) <= r <= max2(a as int, b as int),
{
    let rest: u64 = d - n;
    proof {
        lemma_mul_bound(a as int, rest as int, 0x8000_0000_0000_0000, 0xffff_ffff_ffff_ffff);
        lemma_mul_bound(b as int, n as int, 0x8000_0000_0000_0000, 0xffff_ffff_ffff_ffff);
        lemma_weighted_sum_bounds(a as int, b as int, n as int, d as int);
        lemma_mul_bound(
            min2(a as int, b as int),
            d as int,
            0x8000_0000_0000_0000,
            0xffff_ffff_ffff_ffff,
        );
        lemma_mul_bound(
            max2(a as int, b as int),
            d as int,
            0x8000_0000_0000_0000,
            0xffff_ffff_ffff_ffff,
        );
        lemma_interpolate_between(a as int, b as int, n as int, d as int);
    }
    let left: i128 = (a as i128) * (rest as i128);
    let right: i128 = (b as i128) * (n as i128);
    let sum: i128 = left + right;
    let q: i128 = sum / (d as i128);
    q as i64
}

/// The index of an axis of length `len` nearest to `v`, `len` itself when
/// `v` lies beyond the axis. The indices in `clamp_index(lo, len)
/// .. clamp_index(hi, len)` are those of the axis that lie in `lo..hi`.
pub open spec fn clamp_index(v: int, len: int) -> int {
    if v < 0 {
        0
    } else if v >= len {
        len
    } else {
        v
    }
}

/// Computes `clamp_index(v, len)`.
pub fn index_within(v: i64, len: usize) -> (r: usize)
    ensures
        r == clamp_index(v as int, len as int),
{
    if v < 0 {
        0
    } else if v as u64 >= len as u64 {
        len
    } else {
        v as usize
    }
}

/// Whether `r` is the square root of `n` rounded down.
pub open spec fn is_sqrt(n: int, r: int) -> bool {
    0 <= r && r * r <= n < (r + 1) * (r + 1)
}

/// A number has at most one rounded-down square root.
pub proof fn lemma_sqrt_unique(n: int, r: int, s: int)
    by (nonlinear_arith)
    requires
        is_sqrt(n, r),
        is_sqrt(n, s),
    ensures
        r == s,
{
    if r < s {
        assert((r + 1) * (r + 1) <= s * s);
    }
    if s < r {
        assert((s + 1) * (s + 1) <= r * r);
    }
}

/// Computes the square root of `n` rounded down.
pub fn isqrt(n: u128) -> (r: u64)
    ensures
        is_sqrt(n as int, r as int),
{
    let mut lo: u128 = 0;
    let mut hi: u128 = 0x1_0000_0000_0000_0000;
    assert(0x1_0000_0000_0000_0000int * 0x1_0000_0000_0000_0000int > n) by (nonlinear_arith)
        requires
            n <= 0xffff_ffff_ffff_ffff_ffff_ffff_ffff_ffff,
    ;
    while hi - lo > 1
        invariant
            lo < hi <= 0x1_0000_0000_0000_0000,
            lo * lo <= n < hi * hi,
        decreases hi - lo,
    {
        let mid: u128 = lo + (hi - lo) / 2;
        assert(mid * mid <= 0xffff_ffff_ffff_ffff * 0xffff_ffff_ffff_ffff) by (nonlinear_arith)
            requires
                0 <= mid <= 0xffff_ffff_ffff_ffff,
        ;
        if mid * mid <= n {
            lo = mid;
        } else {
            hi = mid;
        }
    }
    lo as u64
}

} // verus!
