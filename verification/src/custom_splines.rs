//! A weight-based local spline sampler over discrete point sequences.
//!
//! [`raw_sample`] evaluates a locally-supported convolution spline over a
//! point sequence at an arbitrary exact-fraction coordinate: every lattice
//! index within the kernel's reach contributes its (edge-clamped) point
//! value, weighted by the kernel evaluated at the scaled distance. The
//! kernel here is the sharp triangular weight `max(1 - |x|, 0)`, the one
//! reference kernel whose values are exact fractions; it satisfies the
//! kernel contract exactly: zero outside `[-1, 1]`, `1` at `0`, `0` at
//! `-1` and `1`, and `w(x) + w(x - 1) == 1` on `[0, 1]`.

use vstd::prelude::*;
use vstd::arithmetic::div_mod::lemma_fundamental_div_mod;
use vstd::arithmetic::div_mod::lemma_fundamental_div_mod_converse;
use vstd::arithmetic::div_mod::lemma_div_is_ordered;
use vstd::arithmetic::div_mod::lemma_div_pos_is_pos;
use vstd::arithmetic::div_mod::lemma_div_multiples_vanish;
use vstd::math::abs;
use crate::frac::Frac;

verus! {

/// Numerator, over denominator `d >= 1`, of the triangular weight
/// `max(1 - |n/d|, 0)`.
pub open spec fn linear_weight_num(n: int, d: int) -> int {
    vstd::math::max(d - abs(n), 0)
}

/// A sharp, linear weighting function: `max(1 - |x|, 0)`, exactly.
pub fn linear(x: Frac) -> (r: Frac)
    requires
        x.wf(),
        x.num > i64::MIN,
    ensures
        r.wf(),
        r.den == x.den,
        r.num == linear_weight_num(x.num as int, x.den as int),
        r.in_unit(),
{
    let a: i64 = if x.num >= 0 {
        x.num
    } else {
        -x.num
    };
    if a >= x.den {
        Frac { num: 0, den: x.den }
    } else {
        Frac { num: x.den - a, den: x.den }
    }
}

/// An index clamped into `[0, len - 1]`: out-of-range lattice indices reuse
/// the nearest edge point.
pub open spec fn clamp_index(len: int, i: int) -> int {
    if i < 0 {
        0
    } else if i >= len {
        len - 1
    } else {
        i
    }
}

/// Numerator, over denominator `xd * reach * reach`, of the sum of weighted
/// point contributions for lattice indices in `[lo, hi)`: each index `i`
/// contributes `points[clamp(i)] * w((x - i) / reach) * (1 / reach)`.
pub open spec fn spline_sum(
    points: Seq<i64>,
    xn: int,
    xd: int,
    reach: int,
    lo: int,
    hi: int,
) -> int
    decreases hi - lo,
{
    if lo >= hi {
        0
    } else {
        points[clamp_index(points.len() as int, hi - 1)] * linear_weight_num(
            xn - (hi - 1) * xd,
            xd * reach,
        ) + spline_sum(points, xn, xd, reach, lo, hi - 1)
    }
}

/// Floor division of `n` by a positive `d` (rounds toward negative
/// infinity, matching spec-level Euclidean division).
fn floor_div(n: i64, d: i64) -> (r: i64)
    requires
        d >= 1,
        n > i64::MIN,
    ensures
        r == n as int / d as int,
{
    if n >= 0 {
        n / d
    } else {
        let pos: i64 = -n;
        let q: i64 = pos / d;
        let rem: i64 = pos % d;
        if rem == 0 {
            proof {
                lemma_fundamental_div_mod(pos as int, d as int);
                assert(n as int == (-(q as int)) * (d as int) + 0) by (nonlinear_arith)
                    requires
                        n as int == -(pos as int),
                        pos as int == d as int * (q as int) + 0,
                ;
                lemma_fundamental_div_mod_converse(n as int, d as int, -(q as int), 0);
            }
            -q
        } else {
            proof {
                lemma_fundamental_div_mod(pos as int, d as int);
                assert(n as int == (-(q as int) - 1) * (d as int) + (d as int - rem as int))
                    by (nonlinear_arith)
                    requires
                        n as int == -(pos as int),
                        pos as int == d as int * (q as int) + rem as int,
                ;
                lemma_fundamental_div_mod_converse(
                    n as int,
                    d as int,
                    -(q as int) - 1,
                    d - rem,
                );
            }
            -q - 1
        }
    }
}

/// Sample the weight-based local spline at coordinate `x`, exactly.
///
/// Every lattice index in `[floor(x) - reach, floor(x) + reach + 1]`
/// contributes its edge-clamped point value, weighted by the triangular
/// kernel at the scaled distance, over the common denominator
/// `x.den * reach * reach`. An empty point sequence samples to zero. The
/// `requires` only keep the window and the accumulated numerator inside the
/// machine integer range.
pub fn raw_sample(x: Frac, points: &[i64], local_reach: i64) -> (r: Frac)
    requires
        x.wf(),
        x.num > i64::MIN,
        1 <= local_reach,
        x.den * local_reach * local_reach <= i64::MAX,
        x.num as int / x.den as int - local_reach > i64::MIN,
        x.num as int / x.den as int + local_reach + 2 < i64::MAX,
        forall|j: int|
            0 <= j < points@.len() ==> (2 * local_reach + 2) * abs(points@[j] as int) * (x.den
                * local_reach) <= i64::MAX,
    ensures
        r.wf(),
        points@.len() == 0 ==> r.num == 0 && r.den == 1,
        points@.len() > 0 ==> {
            &&& r.den == x.den * local_reach * local_reach
            &&& r.num == spline_sum(
                points@,
                x.num as int,
                x.den as int,
                local_reach as int,
                x.num as int / x.den as int - local_reach,
                x.num as int / x.den as int + local_reach + 2,
            )
        },
{
    if points.len() == 0 {
        return Frac { num: 0, den: 1 };
    }
    proof {
        assert(x.den * local_reach <= x.den * local_reach * local_reach && 1 <= x.den
            * local_reach) by (nonlinear_arith)
            requires
                1 <= x.den,
                1 <= local_reach,
        ;
    }
    let x_i: i64 = floor_div(x.num, x.den);
    let lo: i64 = x_i - local_reach;
    let hi: i64 = x_i + local_reach + 2;
    let wden: i64 = x.den * local_reach;
    let den: i64 = wden * local_reach;
    let ghost cap: int = i64::MAX as int / (2 * local_reach as int + 2);
    proof {
        lemma_div_pos_is_pos(i64::MAX as int, 2 * local_reach as int + 2);
    }
    let mut acc: i128 = 0;
    let mut i: i64 = lo;
    while i < hi
        invariant
            lo <= i <= hi,
            hi - lo == 2 * local_reach + 2,
            1 <= local_reach,
            x.wf(),
            x.num > i64::MIN,
            points@.len() > 0,
            wden == x.den * local_reach,
            1 <= wden,
            x.den * local_reach * local_reach <= i64::MAX,
            forall|j: int|
                0 <= j < points@.len() ==> (2 * local_reach + 2) * abs(points@[j] as int) * (x.den
                    * local_reach) <= i64::MAX,
            0 <= cap == i64::MAX as int / (2 * local_reach as int + 2),
            acc == spline_sum(
                points@,
                x.num as int,
                x.den as int,
                local_reach as int,
                lo as int,
                i as int,
            ),
            -((i - lo) * cap) <= acc <= (i - lo) * cap,
        decreases hi - i,
    {
        let idx: usize = if i < 0 {
            0
        } else if i as u64 >= points.len() as u64 {
            points.len() - 1
        } else {
            i as usize
        };
        let p: i64 = points[idx];
        proof {
            assert(idx == clamp_index(points@.len() as int, i as int));
            assert((i as int) * (x.den as int) < 0x4000_0000_0000_0000_0000_0000_0000_0000
                && (i as int) * (x.den as int) > -0x4000_0000_0000_0000_0000_0000_0000_0000)
                by (nonlinear_arith)
                requires
                    -0x8000_0000_0000_0000 <= i as int <= 0x7fff_ffff_ffff_ffff,
                    1 <= x.den as int <= 0x7fff_ffff_ffff_ffff,
            ;
        }
        let dist: i128 = x.num as i128 - (i as i128) * (x.den as i128);
        let adist: i128 = if dist >= 0 {
            dist
        } else {
            -dist
        };
        let w: i128 = if adist >= wden as i128 {
            0
        } else {
            wden as i128 - adist
        };
        proof {
            assert(w == linear_weight_num(x.num as int - (i as int) * (x.den as int), wden as int));
            let pb = abs(p as int);
            assert((2 * local_reach + 2) * pb * (x.den * local_reach) <= i64::MAX);
            assert(pb * (wden as int) == (2 * local_reach as int + 2) * pb * (x.den as int
                * local_reach as int) / (2 * local_reach as int + 2)) by {
                lemma_div_multiples_vanish(pb * (wden as int), 2 * local_reach as int + 2);
                assert((2 * local_reach as int + 2) * (pb * (wden as int)) == (2 * local_reach
                    as int + 2) * pb * (x.den as int * local_reach as int)) by (nonlinear_arith)
                    requires
                        wden as int == x.den as int * local_reach as int,
                ;
            }
            lemma_div_is_ordered(
                (2 * local_reach as int + 2) * pb * (x.den as int * local_reach as int),
                i64::MAX as int,
                2 * local_reach as int + 2,
            );
            assert(pb * (wden as int) <= cap);
            assert(-(pb * (wden as int)) <= (p as int) * (w as int) <= pb * (wden as int))
                by (nonlinear_arith)
                requires
                    0 <= w as int <= wden as int,
                    pb == abs(p as int),
            ;
            assert((i as int - lo as int) * cap + cap == (i as int + 1 - lo as int) * cap)
                by (nonlinear_arith)
            ;
            assert((i as int + 1 - lo as int) * cap <= (2 * local_reach as int + 2) * cap)
                by (nonlinear_arith)
                requires
                    i as int + 1 - lo as int <= 2 * local_reach as int + 2,
                    0 <= cap,
            ;
            assert((2 * local_reach as int + 2) * cap <= i64::MAX as int) by {
                lemma_fundamental_div_mod(i64::MAX as int, 2 * local_reach as int + 2);
            }
        }
        acc = acc + (p as i128) * w;
        i = i + 1;
    }
    proof {
        assert((i as int - lo as int) * cap <= (2 * local_reach as int + 2) * cap)
            by (nonlinear_arith)
            requires
                i as int - lo as int <= 2 * local_reach as int + 2,
                0 <= cap,
        ;
        assert((2 * local_reach as int + 2) * cap <= i64::MAX as int) by {
            lemma_fundamental_div_mod(i64::MAX as int, 2 * local_reach as int + 2);
        }
    }
    Frac { num: acc as i64, den }
}

/// Numerator, over denominator `xd * reach * reach`, of the sum over
/// lattice indices in `[lo, hi)` of `w((x - i) / reach) * (1 / reach)`:
/// [`spline_sum`] with every point value equal to one.
pub open spec fn weight_sum(xn: int, xd: int, reach: int, lo: int, hi: int) -> int
    decreases hi - lo,
{
    if lo >= hi {
        0
    } else {
        linear_weight_num(xn - (hi - 1) * xd, xd * reach) + weight_sum(xn, xd, reach, lo, hi - 1)
    }
}

proof fn lemma_weight_sum_peel_lo(xn: int, xd: int, reach: int, lo: int, hi: int)
    requires
        lo < hi,
    ensures
        weight_sum(xn, xd, reach, lo, hi) == linear_weight_num(xn - lo * xd, xd * reach)
            + weight_sum(xn, xd, reach, lo + 1, hi),
    decreases hi - lo,
{
    if lo + 1 == hi {
        assert(weight_sum(xn, xd, reach, lo, lo) == 0);
        assert(weight_sum(xn, xd, reach, lo + 1, hi) == 0);
    } else {
        lemma_weight_sum_peel_lo(xn, xd, reach, lo, hi - 1);
        assert(weight_sum(xn, xd, reach, lo, hi) == linear_weight_num(xn - (hi - 1) * xd, xd
            * reach) + weight_sum(xn, xd, reach, lo, hi - 1));
        assert(weight_sum(xn, xd, reach, lo + 1, hi) == linear_weight_num(xn - (hi - 1) * xd, xd
            * reach) + weight_sum(xn, xd, reach, lo + 1, hi - 1));
    }
}

/// The weight of lattice index `q - j`, where `q == xn / xd`: positive and
/// linear in `j` strictly inside the reach, zero at and beyond it.
proof fn lemma_term_left(xn: int, xd: int, reach: int, j: int)
    requires
        xd >= 1,
        reach >= 1,
        0 <= j <= reach,
    ensures
        linear_weight_num(xn - (xn / xd - j) * xd, xd * reach) == if j < reach {
            xd * reach - (xn % xd) - j * xd
        } else {
            0
        },
{
    let q = xn / xd;
    let f = xn % xd;
    lemma_fundamental_div_mod(xn, xd);
    assert(0 <= f < xd);
    assert(xn - (q - j) * xd == f + j * xd) by (nonlinear_arith)
        requires
            xn == xd * q + f,
    ;
    assert(0 <= j * xd) by (nonlinear_arith)
        requires
            0 <= j,
            0 <= xd,
    ;
    if j < reach {
        assert(xd * reach - f - j * xd >= xd - f) by (nonlinear_arith)
            requires
                j + 1 <= reach,
                xd >= 1,
        ;
    } else {
        assert(j * xd == reach * xd) by (nonlinear_arith)
            requires
                j == reach,
        ;
    }
}

/// The weight of lattice index `q + j` for `j >= 1`, where `q == xn / xd`.
proof fn lemma_term_right(xn: int, xd: int, reach: int, j: int)
    requires
        xd >= 1,
        reach >= 1,
        1 <= j <= reach + 1,
    ensures
        linear_weight_num(xn - (xn / xd + j) * xd, xd * reach) == if j <= reach {
            (xn % xd) + (reach - j) * xd
        } else {
            0
        },
{
    let q = xn / xd;
    let f = xn % xd;
    lemma_fundamental_div_mod(xn, xd);
    assert(0 <= f < xd);
    assert(xn - (q + j) * xd == f - j * xd) by (nonlinear_arith)
        requires
            xn == xd * q + f,
    ;
    assert(j * xd >= xd) by (nonlinear_arith)
        requires
            1 <= j,
            1 <= xd,
    ;
    if j <= reach {
        assert(xd * reach - (j * xd - f) == f + (reach - j) * xd && (reach - j) * xd >= 0)
            by (nonlinear_arith)
            requires
                j <= reach,
                xd >= 1,
        ;
    } else {
        assert(j * xd >= reach * xd + xd) by (nonlinear_arith)
            requires
                j == reach + 1,
                xd >= 1,
        ;
    }
}

/// The symmetric window `[q - k, q + k + 2)` has weight sum
/// `(k + 1) * xd * reach + xd * ((k + 1) * (reach - 1) - k * (k + 1))`.
proof fn lemma_window_sum(xn: int, xd: int, reach: int, k: int)
    requires
        xd >= 1,
        reach >= 1,
        0 <= k <= reach - 1,
    ensures
        weight_sum(xn, xd, reach, xn / xd - k, xn / xd + k + 2) == (k + 1) * (xd * reach) + xd * (
        (k + 1) * (reach - 1) - k * (k + 1)),
    decreases k,
{
    let q = xn / xd;
    let f = xn % xd;
    lemma_fundamental_div_mod(xn, xd);
    if k == 0 {
        lemma_term_right(xn, xd, reach, 1);
        lemma_term_left(xn, xd, reach, 0);
        assert(weight_sum(xn, xd, reach, q, q) == 0);
        assert(weight_sum(xn, xd, reach, q, q + 1) == linear_weight_num(xn - q * xd, xd * reach)
            + weight_sum(xn, xd, reach, q, q));
        assert(weight_sum(xn, xd, reach, q, q + 2) == linear_weight_num(xn - (q + 1) * xd, xd
            * reach) + weight_sum(xn, xd, reach, q, q + 1));
        assert((f + (reach - 1) * xd) + (xd * reach - f - 0 * xd) == 1 * (xd * reach) + xd * (1
            * (reach - 1) - 0 * 1)) by (nonlinear_arith)
        ;
    } else {
        lemma_window_sum(xn, xd, reach, k - 1);
        lemma_term_right(xn, xd, reach, k + 1);
        lemma_term_left(xn, xd, reach, k);
        assert(weight_sum(xn, xd, reach, q - k, q + k + 2) == linear_weight_num(xn - (q + k + 1)
            * xd, xd * reach) + weight_sum(xn, xd, reach, q - k, q + k + 1));
        lemma_weight_sum_peel_lo(xn, xd, reach, q - k, q + k + 1);
        assert((k + 1) * (xd * reach) + xd * ((k + 1) * (reach - 1) - k * (k + 1)) == (f + (reach
            - k - 1) * xd) + (xd * reach - f - k * xd) + (k * (xd * reach) + xd * (k * (reach - 1)
            - (k - 1) * k))) by (nonlinear_arith)
        ;
    }
}

/// Spline unity-partition law (triangular kernel, whole-number reach): over
/// the sampling window of [`raw_sample`], the kernel weights sum to exactly
/// `xd * reach * reach` — that is, the weighted contributions
/// `w((x - i) / reach) * (1 / reach)` sum to exactly `1`, for every sample
/// coordinate `xn / xd`.
pub proof fn lemma_unity_partition(xn: int, xd: int, reach: int)
    requires
        xd >= 1,
        reach >= 1,
    ensures
        weight_sum(xn, xd, reach, xn / xd - reach, xn / xd + reach + 2) == xd * reach * reach,
{
    let q = xn / xd;
    lemma_term_right(xn, xd, reach, reach + 1);
    lemma_term_left(xn, xd, reach, reach);
    assert(weight_sum(xn, xd, reach, q - reach, q + reach + 2) == linear_weight_num(xn - (q
        + reach + 1) * xd, xd * reach) + weight_sum(xn, xd, reach, q - reach, q + reach + 1));
    lemma_weight_sum_peel_lo(xn, xd, reach, q - reach, q + reach + 1);
    lemma_window_sum(xn, xd, reach, reach - 1);
    assert(reach * (xd * reach) + xd * (reach * (reach - 1) - (reach - 1) * reach) == xd * reach
        * reach) by (nonlinear_arith)
    ;
}

/// The kernel's local partition of unity: for `u` in `[0, 1]`,
/// `w(u) + w(u - 1) == 1` exactly.
pub proof fn lemma_kernel_partition(u: Frac)
    requires
        u.wf(),
        u.in_unit(),
    ensures
        linear_weight_num(u.num as int, u.den as int) + linear_weight_num(
            u.num as int - u.den as int,
            u.den as int,
        ) == u.den,
{
}

proof fn lemma_spline_sum_constant(
    points: Seq<i64>,
    v: i64,
    xn: int,
    xd: int,
    reach: int,
    lo: int,
    hi: int,
)
    requires
        points.len() > 0,
        forall|j: int| 0 <= j < points.len() ==> points[j] == v,
    ensures
        spline_sum(points, xn, xd, reach, lo, hi) == v * weight_sum(xn, xd, reach, lo, hi),
    decreases hi - lo,
{
    if lo >= hi {
    } else {
        lemma_spline_sum_constant(points, v, xn, xd, reach, lo, hi - 1);
        let w = linear_weight_num(xn - (hi - 1) * xd, xd * reach);
        let rest = weight_sum(xn, xd, reach, lo, hi - 1);
        assert(v as int * w + v as int * rest == v as int * (w + rest)) by (nonlinear_arith)
        ;
    }
}

/// Spline constant-field law: if every point equals `v`, then for any
/// sample coordinate and any whole-number reach the sampled numerator is
/// exactly `v` times the denominator `xd * reach * reach` — the spline
/// reproduces a constant field exactly.
pub proof fn lemma_constant_field(points: Seq<i64>, v: i64, xn: int, xd: int, reach: int)
    requires
        points.len() > 0,
        forall|j: int| 0 <= j < points.len() ==> points[j] == v,
        xd >= 1,
        reach >= 1,
    ensures
        spline_sum(
            points,
            xn,
            xd,
            reach,
            xn / xd - reach,
            xn / xd + reach + 2,
        ) == v * (xd * reach * reach),
{
    lemma_spline_sum_constant(points, v, xn, xd, reach, xn / xd - reach, xn / xd + reach + 2);
    lemma_unity_partition(xn, xd, reach);
}

} // verus!
