//! Why a split is exact: each half runs along the curve it was cut from.

use vstd::prelude::*;
use crate::rational::{lemma_product_positive, Frac};
use crate::point::{lerp, Spot};
use crate::fractions::{
    lemma_stands_for_itself, lemma_stands_lerp, lemma_stands_order, lemma_stands_scaled,
    lemma_stands_times, stands_for,
};
use crate::monotone::{lemma_common_denominator, lemma_rescaled_stands, lemma_stands_split, mix};
use crate::splitter::{point_at, rescaled, split_at};

verus! {

/// The value of one coordinate of the curve at the parameter `u`.
pub open spec fn value_at(u: Frac, a0: Frac, a1: Frac, a2: Frac) -> Frac {
    lerp(lerp(a0, a1, u), lerp(a1, a2, u), u)
}

/// The numerator of the value of a curve at `n / d`, over common denominators.
pub open spec fn curve(y0: int, y1: int, y2: int, n: int, d: int) -> int {
    mix(mix(y0, y1, n, d), mix(y1, y2, n, d), n, d)
}

/// The value of a curve by its three weights.
pub proof fn lemma_curve_weights(y0: int, y1: int, y2: int, n: int, d: int)
    ensures
        curve(y0, y1, y2, n, d) == y0 * ((d - n) * (d - n)) + y1 * (2 * (n * (d - n))) + y2 * (n
            * n),
{
    let a = mix(y0, y1, n, d);
    let b = mix(y1, y2, n, d);
    let g = d - n;
    assert(a * g == y0 * (g * g) + y1 * (n * g)) by (nonlinear_arith)
        requires
            a == y0 * g + y1 * n,
    ;
    assert(b * n == y1 * (n * g) + y2 * (n * n)) by (nonlinear_arith)
        requires
            b == y1 * g + y2 * n,
    ;
    assert(y1 * (n * g) + y1 * (n * g) == y1 * (2 * (n * g))) by (nonlinear_arith);
}

/// `(a b) (c d) = (a c) (b d)`.
pub proof fn lemma_swap_inner(a: int, b: int, c: int, d: int)
    ensures
        (a * b) * (c * d) == (a * c) * (b * d),
{
    assert((a * b) * (c * d) == (a * c) * (b * d)) by (nonlinear_arith);
}

/// `(x p + y q) k = x (p k) + y (q k)`.
pub proof fn lemma_spread_two(x: int, p: int, y: int, q: int, k: int)
    ensures
        (x * p + y * q) * k == x * (p * k) + y * (q * k),
{
    assert((x * p) * k == x * (p * k)) by (nonlinear_arith);
    assert((y * q) * k == y * (q * k)) by (nonlinear_arith);
    assert((x * p + y * q) * k == (x * p) * k + (y * q) * k) by (nonlinear_arith);
}

/// `(x p + y q + z r) k = x (p k) + y (q k) + z (r k)`.
pub proof fn lemma_spread_three(x: int, p: int, y: int, q: int, z: int, r: int, k: int)
    ensures
        (x * p + y * q + z * r) * k == x * (p * k) + y * (q * k) + z * (r * k),
{
    assert((x * p) * k == x * (p * k)) by (nonlinear_arith);
    assert((y * q) * k == y * (q * k)) by (nonlinear_arith);
    assert((z * r) * k == z * (r * k)) by (nonlinear_arith);
    assert((x * p + y * q + z * r) * k == (x * p) * k + (y * q) * k + (z * r) * k)
        by (nonlinear_arith);
}

/// `x (a + b + c) = x a + x b + x c`.
pub proof fn lemma_gather_three(x: int, a: int, b: int, c: int)
    ensures
        x * (a + b + c) == x * a + x * b + x * c,
{
    assert(x * (a + b + c) == x * a + x * b + x * c) by (nonlinear_arith);
}

/// Whole numbers: the first half of a split at `n / d`, taken at `m / e`,
/// is the curve at the product of the two.
pub proof fn lemma_core_first_half(x0: int, x1: int, x2: int, n: int, d: int, m: int, e: int)
    ensures
        curve(x0 * d * d, mix(x0, x1, n, d) * d, curve(x0, x1, x2, n, d), m, e) == curve(
            x0,
            x1,
            x2,
            n * m,
            d * e,
        ),
{
    let g = d - n;
    let h = e - m;
    let big = d * e - n * m;
    let xa = mix(x0, x1, n, d);
    let xb = curve(x0, x1, x2, n, d);
    lemma_curve_weights(x0, x1, x2, n, d);
    lemma_curve_weights(x0 * d * d, xa * d, xb, m, e);
    lemma_curve_weights(x0, x1, x2, n * m, d * e);
    // the three weights of the curve at the product
    let u0 = big * big;
    let u1 = 2 * ((n * m) * big);
    let u2 = (n * m) * (n * m);
    // the weights of the first half, gathered by the points of the curve
    let c0 = (d * d) * (h * h) + (g * d) * (2 * (m * h)) + (g * g) * (m * m);
    let c1 = (n * d) * (2 * (m * h)) + (2 * (n * g)) * (m * m);
    let c2 = (n * n) * (m * m);
    assert(big == d * h + g * m) by (nonlinear_arith)
        requires
            big == d * e - n * m,
            g == d - n,
            h == e - m,
    ;
    let p = d * h;
    let q = g * m;
    let nm = n * m;
    lemma_swap_inner(d, d, h, h);
    lemma_swap_inner(g, d, m, h);
    lemma_swap_inner(g, g, m, m);
    lemma_swap_inner(n, d, m, h);
    lemma_swap_inner(n, g, m, m);
    lemma_swap_inner(n, n, m, m);
    assert((g * d) * (2 * (m * h)) == 2 * (q * p)) by (nonlinear_arith)
        requires
            (g * d) * (m * h) == q * p,
    ;
    assert((n * d) * (2 * (m * h)) == 2 * (nm * p)) by (nonlinear_arith)
        requires
            (n * d) * (m * h) == nm * p,
    ;
    assert((2 * (n * g)) * (m * m) == 2 * (nm * q)) by (nonlinear_arith)
        requires
            (n * g) * (m * m) == nm * q,
    ;
    assert((p + q) * (p + q) == p * p + 2 * (q * p) + q * q) by (nonlinear_arith);
    assert(2 * (nm * (p + q)) == 2 * (nm * p) + 2 * (nm * q)) by (nonlinear_arith);
    assert(c0 == u0);
    assert(c1 == u1);
    assert(c2 == u2);
    let k = 2 * (m * h);
    lemma_spread_two(x0, g, x1, n, d);
    lemma_spread_two(x0, g * d, x1, n * d, k);
    lemma_spread_three(x0, g * g, x1, 2 * (n * g), x2, n * n, m * m);
    assert((x0 * d * d) * (h * h) == x0 * ((d * d) * (h * h))) by (nonlinear_arith);
    lemma_gather_three(x0, (d * d) * (h * h), (g * d) * k, (g * g) * (m * m));
    lemma_gather_three(x1, (n * d) * k, (2 * (n * g)) * (m * m), 0);
    assert(d * e - n * m == big);
}

/// Whole numbers: the second half of a split at `n / d`, taken at `m / e`,
/// is the curve at `n / d + (1 - n / d) m / e`.
pub proof fn lemma_core_second_half(x0: int, x1: int, x2: int, n: int, d: int, m: int, e: int)
    ensures
        curve(curve(x0, x1, x2, n, d), mix(x1, x2, n, d) * d, x2 * d * d, m, e) == curve(
            x0,
            x1,
            x2,
            mix(n, d, m, e),
            d * e,
        ),
{
    let g = d - n;
    let h = e - m;
    let q = mix(n, d, m, e);
    let big = d * e - q;
    let xc = mix(x1, x2, n, d);
    let xb = curve(x0, x1, x2, n, d);
    lemma_curve_weights(x0, x1, x2, n, d);
    lemma_curve_weights(xb, xc * d, x2 * d * d, m, e);
    lemma_curve_weights(x0, x1, x2, q, d * e);
    let gh = g * h;
    let nh = n * h;
    let dm = d * m;
    assert(big == gh) by (nonlinear_arith)
        requires
            big == d * e - (n * (e - m) + d * m),
            gh == (d - n) * (e - m),
    ;
    assert(q == nh + dm);
    // the three weights of the curve at the parameter
    let u0 = big * big;
    let u1 = 2 * (q * big);
    let u2 = q * q;
    // the weights of the second half, gathered by the points of the curve
    let c0 = (g * g) * (h * h);
    let c1 = (2 * (n * g)) * (h * h) + (g * d) * (2 * (m * h));
    let c2 = (n * n) * (h * h) + (n * d) * (2 * (m * h)) + (d * d) * (m * m);
    lemma_swap_inner(g, g, h, h);
    lemma_swap_inner(n, g, h, h);
    lemma_swap_inner(g, d, m, h);
    lemma_swap_inner(n, n, h, h);
    lemma_swap_inner(n, d, m, h);
    lemma_swap_inner(d, d, m, m);
    assert((2 * (n * g)) * (h * h) == 2 * (nh * gh)) by (nonlinear_arith)
        requires
            (n * g) * (h * h) == nh * gh,
    ;
    assert((g * d) * (2 * (m * h)) == 2 * (dm * gh)) by (nonlinear_arith)
        requires
            (g * d) * (m * h) == (g * m) * (d * h),
            gh == g * h,
            dm == d * m,
    ;
    assert((n * d) * (2 * (m * h)) == 2 * (nh * dm)) by (nonlinear_arith)
        requires
            (n * d) * (m * h) == (n * m) * (d * h),
            nh == n * h,
            dm == d * m,
    ;
    assert(2 * ((nh + dm) * gh) == 2 * (nh * gh) + 2 * (dm * gh)) by (nonlinear_arith);
    assert((nh + dm) * (nh + dm) == nh * nh + 2 * (nh * dm) + dm * dm) by (nonlinear_arith);
    assert(c0 == u0);
    assert(c1 == u1);
    assert(c2 == u2);
    let k = 2 * (m * h);
    lemma_spread_three(x0, g * g, x1, 2 * (n * g), x2, n * n, h * h);
    lemma_spread_two(x1, g, x2, n, d);
    lemma_spread_two(x1, g * d, x2, n * d, k);
    assert((x2 * d * d) * (m * m) == x2 * ((d * d) * (m * m))) by (nonlinear_arith);
    lemma_gather_three(x1, (2 * (n * g)) * (h * h), (g * d) * k, 0);
    lemma_gather_three(x2, (n * n) * (h * h), (n * d) * k, (d * d) * (m * m));
    assert(d * e - q == big);
}

/// One coordinate: each half of a split at `t` runs along the curve. Taken
/// at `s`, the first half gives the value of the curve at `t s`, and the
/// second half its value at `t + (1 - t) s`.
pub proof fn lemma_halves_exact(t: Frac, s: Frac, a0: Frac, a1: Frac, a2: Frac)
    requires
        t.wf(),
        s.wf(),
        a0.wf(),
        a1.wf(),
        a2.wf(),
    ensures
        ({
            let pa = lerp(a0, a1, t);
            let pc = lerp(a1, a2, t);
            let pb = lerp(pa, pc, t);
            &&& value_at(s, a0, pa, pb).same(value_at(t.times(s), a0, a1, a2))
            &&& value_at(s, pb, pc, a2).same(value_at(lerp(t, Frac::whole(1), s), a0, a1, a2))
        }),
{
    let pa = lerp(a0, a1, t);
    let pc = lerp(a1, a2, t);
    let pb = lerp(pa, pc, t);
    let w = a0.den * a1.den * a2.den;
    let x0 = a0.num * (a1.den * a2.den);
    let x1 = a1.num * (a0.den * a2.den);
    let x2 = a2.num * (a0.den * a1.den);
    let n = t.num;
    let d = t.den;
    let m = s.num;
    let e = s.den;
    lemma_common_denominator(a0, a1, a2);
    lemma_stands_for_itself(t);
    lemma_stands_for_itself(s);
    lemma_stands_split(a0, a1, a2, t, x0, x1, x2, w, n, d);
    let xa = mix(x0, x1, n, d);
    let xc = mix(x1, x2, n, d);
    let xb = curve(x0, x1, x2, n, d);
    let v = w * d * d;
    assert(w * d * d * e * e == w * (d * e) * (d * e)) by (nonlinear_arith);
    // the first half
    lemma_stands_split(a0, pa, pb, s, x0 * d * d, xa * d, xb, v, m, e);
    lemma_stands_times(t, s, n, d, m, e);
    lemma_stands_split(a0, a1, a2, t.times(s), x0, x1, x2, w, n * m, d * e);
    lemma_core_first_half(x0, x1, x2, n, d, m, e);
    lemma_stands_order(
        value_at(s, a0, pa, pb),
        value_at(t.times(s), a0, a1, a2),
        curve(x0, x1, x2, n * m, d * e),
        curve(x0, x1, x2, n * m, d * e),
        v * e * e,
    );
    // the second half
    let one = Frac::whole(1);
    assert(stands_for(one, 1, 1));
    lemma_stands_scaled(one, 1, 1, d);
    assert(1 * d == d);
    lemma_stands_lerp(t, one, s, n, d, d, m, e);
    let u = lerp(t, one, s);
    lemma_stands_split(pb, pc, a2, s, xb, xc * d, x2 * d * d, v, m, e);
    lemma_stands_split(a0, a1, a2, u, x0, x1, x2, w, mix(n, d, m, e), d * e);
    lemma_core_second_half(x0, x1, x2, n, d, m, e);
    lemma_stands_order(
        value_at(s, pb, pc, a2),
        value_at(u, a0, a1, a2),
        curve(x0, x1, x2, mix(n, d, m, e), d * e),
        curve(x0, x1, x2, mix(n, d, m, e), d * e),
        v * e * e,
    );
}

/// Splitting is exact: the two halves of a split at `t`, joined, are the
/// curve itself. The point of the first half at `s` is the point of the
/// curve at `t s`, and the point of the second half at `s` is the point of
/// the curve at `t + (1 - t) s`.
pub proof fn lemma_split_exact(t: Frac, s: Frac, p0: Spot, p1: Spot, p2: Spot)
    requires
        t.wf(),
        s.wf(),
        p0.wf(),
        p1.wf(),
        p2.wf(),
    ensures
        ({
            let (pa, pb, pc) = split_at(t, p0, p1, p2);
            &&& point_at(s, p0, pa, pb).same(point_at(t.times(s), p0, p1, p2))
            &&& point_at(s, pb, pc, p2).same(point_at(lerp(t, Frac::whole(1), s), p0, p1, p2))
        }),
{
    lemma_halves_exact(t, s, p0.x, p1.x, p2.x);
    lemma_halves_exact(t, s, p0.y, p1.y, p2.y);
}

/// Two fractions that stand for the same number as a third stand for the
/// same number.
pub proof fn lemma_same_transitive(a: Frac, b: Frac, c: Frac)
    requires
        b.wf(),
        a.same(b),
        b.same(c),
    ensures
        a.same(c),
{
    let left = a.num * c.den;
    let right = c.num * a.den;
    assert(left * b.den == (a.num * b.den) * c.den) by (nonlinear_arith)
        requires
            left == a.num * c.den,
    ;
    assert((b.num * a.den) * c.den == (b.num * c.den) * a.den) by (nonlinear_arith);
    assert((c.num * b.den) * a.den == right * b.den) by (nonlinear_arith)
        requires
            right == c.num * a.den,
    ;
    assert(left == right) by (nonlinear_arith)
        requires
            left * b.den == right * b.den,
            b.den > 0,
    ;
}

/// The three parts of a curve that was split at `t0` and then, in what was
/// left, at `t` run along the curve. Taken at `s`, the first part gives the
/// point of the curve at `t0 s`, the second its point at `t0 + (1 - t0) t s`,
/// and the third its point at `t0 + (1 - t0) (t + (1 - t) s)`.
pub proof fn lemma_three_parts_exact(t0: Frac, t: Frac, s: Frac, p0: Spot, p1: Spot, p2: Spot)
    requires
        t0.wf(),
        t.wf(),
        s.wf(),
        p0.wf(),
        p1.wf(),
        p2.wf(),
    ensures
        ({
            let one = Frac::whole(1);
            let (pa0, pb0, pc0) = split_at(t0, p0, p1, p2);
            let (pa1, pb1, pc1) = split_at(t, pb0, pc0, p2);
            &&& point_at(s, p0, pa0, pb0).same(point_at(t0.times(s), p0, p1, p2))
            &&& point_at(s, pb0, pa1, pb1).same(point_at(lerp(t0, one, t.times(s)), p0, p1, p2))
            &&& point_at(s, pb1, pc1, p2).same(
                point_at(lerp(t0, one, lerp(t, one, s)), p0, p1, p2),
            )
        }),
{
    let one = Frac::whole(1);
    let (pa0, pb0, pc0) = split_at(t0, p0, p1, p2);
    let (pa1, pb1, pc1) = split_at(t, pb0, pc0, p2);
    // what is left after the first split is well formed
    lemma_lerp_wf(p0.x, p1.x, t0);
    lemma_lerp_wf(p0.y, p1.y, t0);
    lemma_lerp_wf(p1.x, p2.x, t0);
    lemma_lerp_wf(p1.y, p2.y, t0);
    lemma_lerp_wf(pa0.x, pc0.x, t0);
    lemma_lerp_wf(pa0.y, pc0.y, t0);
    // the two parameters in what is left
    let u = t.times(s);
    let v = lerp(t, one, s);
    lemma_product_positive(t.den, s.den);
    lemma_lerp_wf(t, one, s);
    lemma_split_exact(t0, s, p0, p1, p2);
    lemma_split_exact(t, s, pb0, pc0, p2);
    lemma_split_exact(t0, u, p0, p1, p2);
    lemma_split_exact(t0, v, p0, p1, p2);
    let mid_u = point_at(u, pb0, pc0, p2);
    let mid_v = point_at(v, pb0, pc0, p2);
    lemma_split_wf(u, pb0, pc0, p2);
    lemma_split_wf(v, pb0, pc0, p2);
    let second = point_at(s, pb0, pa1, pb1);
    let third = point_at(s, pb1, pc1, p2);
    let on_u = point_at(lerp(t0, one, u), p0, p1, p2);
    let on_v = point_at(lerp(t0, one, v), p0, p1, p2);
    lemma_same_transitive(second.x, mid_u.x, on_u.x);
    lemma_same_transitive(second.y, mid_u.y, on_u.y);
    lemma_same_transitive(third.x, mid_v.x, on_v.x);
    lemma_same_transitive(third.y, mid_v.y, on_v.y);
}

/// Interpolation between well-formed fractions is well formed.
pub proof fn lemma_lerp_wf(a: Frac, b: Frac, t: Frac)
    requires
        a.wf(),
        b.wf(),
        t.wf(),
    ensures
        lerp(a, b, t).wf(),
{
    assert(a.den * ((b.den * a.den) * t.den) > 0) by (nonlinear_arith)
        requires
            a.den > 0,
            b.den > 0,
            t.den > 0,
    ;
}

/// The points of a split are well formed.
pub proof fn lemma_split_wf(t: Frac, p0: Spot, p1: Spot, p2: Spot)
    requires
        t.wf(),
        p0.wf(),
        p1.wf(),
        p2.wf(),
    ensures
        split_at(t, p0, p1, p2).0.wf(),
        split_at(t, p0, p1, p2).1.wf(),
        split_at(t, p0, p1, p2).2.wf(),
{
    let (pa, pb, pc) = split_at(t, p0, p1, p2);
    lemma_lerp_wf(p0.x, p1.x, t);
    lemma_lerp_wf(p0.y, p1.y, t);
    lemma_lerp_wf(p1.x, p2.x, t);
    lemma_lerp_wf(p1.y, p2.y, t);
    lemma_lerp_wf(pa.x, pc.x, t);
    lemma_lerp_wf(pa.y, pc.y, t);
}

/// The value of a curve does not depend on how its parameter is written.
pub proof fn lemma_value_at_same(u: Frac, v: Frac, a0: Frac, a1: Frac, a2: Frac)
    requires
        u.wf(),
        v.wf(),
        u.same(v),
        a0.wf(),
        a1.wf(),
        a2.wf(),
    ensures
        value_at(u, a0, a1, a2).same(value_at(v, a0, a1, a2)),
{
    let w = a0.den * a1.den * a2.den;
    let x0 = a0.num * (a1.den * a2.den);
    let x1 = a1.num * (a0.den * a2.den);
    let x2 = a2.num * (a0.den * a1.den);
    lemma_common_denominator(a0, a1, a2);
    lemma_stands_for_itself(v);
    assert(stands_for(u, v.num, v.den));
    lemma_stands_split(a0, a1, a2, u, x0, x1, x2, w, v.num, v.den);
    lemma_stands_split(a0, a1, a2, v, x0, x1, x2, w, v.num, v.den);
    lemma_stands_order(
        value_at(u, a0, a1, a2),
        value_at(v, a0, a1, a2),
        curve(x0, x1, x2, v.num, v.den),
        curve(x0, x1, x2, v.num, v.den),
        w * v.den * v.den,
    );
}

/// A part taken from zero: `0 + (t - 0) s` is `t s`.
pub proof fn lemma_parameter_from_zero(t: Frac, s: Frac)
    requires
        t.wf(),
        s.wf(),
    ensures
        lerp(Frac::whole(0), t, s).same(t.times(s)),
        lerp(Frac::whole(0), t, s).wf(),
        t.times(s).wf(),
{
    let zero = Frac::whole(0);
    lemma_stands_for_itself(t);
    lemma_stands_for_itself(s);
    assert(stands_for(zero, 0, t.den));
    lemma_stands_lerp(zero, t, s, 0, t.num, t.den, s.num, s.den);
    lemma_stands_times(t, s, t.num, t.den, s.num, s.den);
    assert(0 * (s.den - s.num) + t.num * s.num == t.num * s.num);
    lemma_stands_order(
        lerp(zero, t, s),
        t.times(s),
        t.num * s.num,
        t.num * s.num,
        t.den * s.den,
    );
}

/// The whole curve: `0 + (1 - 0) s` is `s`.
pub proof fn lemma_parameter_whole(s: Frac)
    requires
        s.wf(),
    ensures
        lerp(Frac::whole(0), Frac::whole(1), s).same(s),
        lerp(Frac::whole(0), Frac::whole(1), s).wf(),
{
    let zero = Frac::whole(0);
    let one = Frac::whole(1);
    lemma_stands_for_itself(s);
    assert(stands_for(zero, 0, 1));
    assert(stands_for(one, 1, 1));
    lemma_stands_lerp(zero, one, s, 0, 1, 1, s.num, s.den);
    assert(0 * (s.den - s.num) + 1 * s.num == s.num);
    assert(1 * s.den == s.den);
    lemma_stands_order(lerp(zero, one, s), s, s.num, s.num, s.den);
}

/// Whole numbers: the numerators of the two ways to write a parameter of
/// the middle part.
pub proof fn lemma_core_middle(n0: int, d0: int, n1: int, d1: int, m: int, e: int)
    ensures
        ({
            let n = n1 * d0 - n0 * d1;
            let g = d0 - n0;
            let d = g * d1;
            n0 * (d * e - n * m) + d0 * (n * m) == ((n0 * d1) * (e - m) + (n1 * d0) * m) * g
        }),
{
    let n = n1 * d0 - n0 * d1;
    let g = d0 - n0;
    let d = g * d1;
    let a = n0 * d1;
    let b = n1 * d0;
    let de = d * e;
    let nm = n * m;
    assert(n0 * (de - nm) + d0 * nm == n0 * de + g * nm) by (nonlinear_arith)
        requires
            g == d0 - n0,
    ;
    assert(n0 * de == g * (a * e)) by (nonlinear_arith)
        requires
            de == (g * d1) * e,
            a == n0 * d1,
    ;
    assert(g * nm == g * (b * m) - g * (a * m)) by (nonlinear_arith)
        requires
            nm == (b - a) * m,
    ;
    assert((a * (e - m) + b * m) * g == g * (a * e) - g * (a * m) + g * (b * m))
        by (nonlinear_arith);
}

/// Whole numbers: the numerators of the two ways to write a parameter of
/// the last part.
pub proof fn lemma_core_last(n0: int, d0: int, n1: int, d1: int, m: int, e: int)
    ensures
        ({
            let n = n1 * d0 - n0 * d1;
            let g = d0 - n0;
            let d = g * d1;
            let q = n * (e - m) + d * m;
            n0 * (d * e - q) + d0 * q == (n1 * (e - m) + d1 * m) * (d0 * g)
        }),
{
    let n = n1 * d0 - n0 * d1;
    let g = d0 - n0;
    let d = g * d1;
    let h = e - m;
    let q = n * h + d * m;
    let k = d1 - n1;
    let right = n1 * h + d1 * m;
    assert(d * e - q == (d - n) * h) by (nonlinear_arith)
        requires
            q == n * h + d * m,
            h == e - m,
    ;
    assert(d - n == d0 * k) by (nonlinear_arith)
        requires
            d == (d0 - n0) * d1,
            n == n1 * d0 - n0 * d1,
            k == d1 - n1,
    ;
    let kh = k * h;
    assert((d0 * k) * h == d0 * kh) by (nonlinear_arith)
        requires
            kh == k * h,
    ;
    assert(n0 * (d0 * kh) == d0 * (n0 * kh)) by (nonlinear_arith);
    // inside the bracket: n0 k h + q = g right
    assert(n0 * kh + n * h == (n1 * g) * h) by (nonlinear_arith)
        requires
            kh == (d1 - n1) * h,
            n == n1 * d0 - n0 * d1,
            g == d0 - n0,
    ;
    assert((n1 * g) * h + (g * d1) * m == g * right) by (nonlinear_arith)
        requires
            right == n1 * h + d1 * m,
    ;
    let inner = n0 * kh + q;
    assert(inner == g * right);
    assert(d0 * (n0 * kh) + d0 * q == d0 * inner) by (nonlinear_arith)
        requires
            inner == n0 * kh + q,
    ;
    assert(d0 * (g * right) == right * (d0 * g)) by (nonlinear_arith);
}

/// The middle part: with `t` the parameter `t1` taken over again for what
/// is left after `t0`, `t0 + (1 - t0) t s` is `t0 + (t1 - t0) s`.
pub proof fn lemma_parameter_middle(t0: Frac, t1: Frac, s: Frac)
    requires
        t0.wf(),
        t1.wf(),
        s.wf(),
        t0.num < t0.den,
    ensures
        lerp(t0, Frac::whole(1), rescaled(t0, t1).times(s)).same(lerp(t0, t1, s)),
        lerp(t0, Frac::whole(1), rescaled(t0, t1).times(s)).wf(),
        lerp(t0, t1, s).wf(),
        rescaled(t0, t1).wf(),
{
    let one = Frac::whole(1);
    let t = rescaled(t0, t1);
    let (n0, d0, n1, d1, m, e) = (t0.num, t0.den, t1.num, t1.den, s.num, s.den);
    let n = n1 * d0 - n0 * d1;
    let g = d0 - n0;
    let d = g * d1;
    lemma_stands_for_itself(t0);
    lemma_stands_for_itself(t1);
    lemma_stands_for_itself(s);
    lemma_rescaled_stands(t0, t1, n0, d0, n1, d1);
    lemma_stands_times(t, s, n, d, m, e);
    assert(stands_for(one, 1, 1));
    lemma_stands_scaled(one, 1, 1, d0);
    assert(1 * d0 == d0);
    // the left side over d0 (d e)
    lemma_stands_lerp(t0, one, t.times(s), n0, d0, d0, n * m, d * e);
    // the right side over (d0 d1) e, and then over the same denominator
    lemma_stands_scaled(t0, n0, d0, d1);
    lemma_stands_scaled(t1, n1, d1, d0);
    assert(d1 * d0 == d0 * d1) by (nonlinear_arith);
    lemma_stands_lerp(t0, t1, s, n0 * d1, n1 * d0, d0 * d1, m, e);
    let right = (n0 * d1) * (e - m) + (n1 * d0) * m;
    lemma_stands_scaled(lerp(t0, t1, s), right, (d0 * d1) * e, g);
    let left = n0 * (d * e - n * m) + d0 * (n * m);
    assert(((d0 * d1) * e) * g == d0 * (d * e)) by (nonlinear_arith)
        requires
            d == g * d1,
    ;
    lemma_core_middle(n0, d0, n1, d1, m, e);
    lemma_stands_order(
        lerp(t0, one, t.times(s)),
        lerp(t0, t1, s),
        left,
        left,
        d0 * (d * e),
    );
}

/// The last part: with `t` the parameter `t1` taken over again for what is
/// left after `t0`, `t0 + (1 - t0) (t + (1 - t) s)` is `t1 + (1 - t1) s`.
pub proof fn lemma_parameter_last(t0: Frac, t1: Frac, s: Frac)
    requires
        t0.wf(),
        t1.wf(),
        s.wf(),
        t0.num < t0.den,
    ensures
        lerp(t0, Frac::whole(1), lerp(rescaled(t0, t1), Frac::whole(1), s)).same(
            lerp(t1, Frac::whole(1), s),
        ),
        lerp(t0, Frac::whole(1), lerp(rescaled(t0, t1), Frac::whole(1), s)).wf(),
        lerp(t1, Frac::whole(1), s).wf(),
{
    let one = Frac::whole(1);
    let t = rescaled(t0, t1);
    let (n0, d0, n1, d1, m, e) = (t0.num, t0.den, t1.num, t1.den, s.num, s.den);
    let n = n1 * d0 - n0 * d1;
    let g = d0 - n0;
    let d = g * d1;
    lemma_stands_for_itself(t0);
    lemma_stands_for_itself(t1);
    lemma_stands_for_itself(s);
    lemma_rescaled_stands(t0, t1, n0, d0, n1, d1);
    assert(stands_for(one, 1, 1));
    lemma_stands_scaled(one, 1, 1, d);
    lemma_stands_scaled(one, 1, 1, d0);
    lemma_stands_scaled(one, 1, 1, d1);
    assert(1 * d == d && 1 * d0 == d0 && 1 * d1 == d1);
    // the inner parameter over d e
    lemma_stands_lerp(t, one, s, n, d, d, m, e);
    let q = n * (e - m) + d * m;
    // the left side over d0 (d e)
    lemma_stands_lerp(t0, one, lerp(t, one, s), n0, d0, d0, q, d * e);
    let left = n0 * (d * e - q) + d0 * q;
    // the right side over d1 e, and then over the same denominator
    lemma_stands_lerp(t1, one, s, n1, d1, d1, m, e);
    let right = n1 * (e - m) + d1 * m;
    assert(d0 * g > 0) by (nonlinear_arith)
        requires
            d0 > 0,
            g > 0,
    ;
    lemma_stands_scaled(lerp(t1, one, s), right, d1 * e, d0 * g);
    assert((d1 * e) * (d0 * g) == d0 * (d * e)) by (nonlinear_arith)
        requires
            d == g * d1,
    ;
    lemma_core_last(n0, d0, n1, d1, m, e);
    lemma_stands_order(
        lerp(t0, one, lerp(t, one, s)),
        lerp(t1, one, s),
        left,
        left,
        d0 * (d * e),
    );
}

/// The quadratic curve from `from` by `ctrl` to `to` is the part of the
/// curve from `p0` by `p1` to `p2` between the parameters `lo` and `hi`:
/// its point at `s` is the point of that curve at `lo + (hi - lo) s`.
pub open spec fn runs_along(
    from: Spot,
    ctrl: Spot,
    to: Spot,
    lo: Frac,
    hi: Frac,
    p0: Spot,
    p1: Spot,
    p2: Spot,
) -> bool {
    forall|s: Frac|
        s.wf() ==> (#[trigger] point_at(s, from, ctrl, to)).same(
            point_at(lerp(lo, hi, s), p0, p1, p2),
        )
}

/// A point that is the point of the curve at `u` is its point at `v`,
/// where `u` and `v` are the same number.
pub proof fn lemma_same_point_of_curve(x: Spot, u: Frac, v: Frac, p0: Spot, p1: Spot, p2: Spot)
    requires
        u.wf(),
        v.wf(),
        u.same(v),
        p0.wf(),
        p1.wf(),
        p2.wf(),
        x.same(point_at(u, p0, p1, p2)),
    ensures
        x.same(point_at(v, p0, p1, p2)),
{
    lemma_value_at_same(u, v, p0.x, p1.x, p2.x);
    lemma_value_at_same(u, v, p0.y, p1.y, p2.y);
    lemma_split_wf(u, p0, p1, p2);
    let at_u = point_at(u, p0, p1, p2);
    let at_v = point_at(v, p0, p1, p2);
    lemma_same_transitive(x.x, at_u.x, at_v.x);
    lemma_same_transitive(x.y, at_u.y, at_v.y);
}

/// A curve is the whole of itself.
pub proof fn lemma_whole_runs_along(p0: Spot, p1: Spot, p2: Spot)
    requires
        p0.wf(),
        p1.wf(),
        p2.wf(),
    ensures
        runs_along(p0, p1, p2, Frac::whole(0), Frac::whole(1), p0, p1, p2),
{
    let zero = Frac::whole(0);
    let one = Frac::whole(1);
    assert forall|s: Frac| s.wf() implies (#[trigger] point_at(s, p0, p1, p2)).same(
        point_at(lerp(zero, one, s), p0, p1, p2),
    ) by {
        lemma_parameter_whole(s);
        let x = point_at(s, p0, p1, p2);
        assert(x.same(x));
        assert(s.same(lerp(zero, one, s)));
        lemma_same_point_of_curve(x, s, lerp(zero, one, s), p0, p1, p2);
    }
}

/// The two halves of a split at `t` are the parts of the curve from zero
/// to `t` and from `t` to one.
pub proof fn lemma_halves_run_along(t: Frac, p0: Spot, p1: Spot, p2: Spot)
    requires
        t.wf(),
        p0.wf(),
        p1.wf(),
        p2.wf(),
    ensures
        ({
            let (pa, pb, pc) = split_at(t, p0, p1, p2);
            &&& runs_along(p0, pa, pb, Frac::whole(0), t, p0, p1, p2)
            &&& runs_along(pb, pc, p2, t, Frac::whole(1), p0, p1, p2)
        }),
{
    let zero = Frac::whole(0);
    let one = Frac::whole(1);
    let (pa, pb, pc) = split_at(t, p0, p1, p2);
    assert forall|s: Frac| s.wf() implies (#[trigger] point_at(s, p0, pa, pb)).same(
        point_at(lerp(zero, t, s), p0, p1, p2),
    ) by {
        lemma_split_exact(t, s, p0, p1, p2);
        lemma_parameter_from_zero(t, s);
        assert(t.times(s).same(lerp(zero, t, s)));
        lemma_same_point_of_curve(
            point_at(s, p0, pa, pb),
            t.times(s),
            lerp(zero, t, s),
            p0,
            p1,
            p2,
        );
    }
    assert forall|s: Frac| s.wf() implies (#[trigger] point_at(s, pb, pc, p2)).same(
        point_at(lerp(t, one, s), p0, p1, p2),
    ) by {
        lemma_split_exact(t, s, p0, p1, p2);
    }
}

/// The three parts of a curve that was split at `t0` and then, in what was
/// left, at the parameter `t1` taken over again, are the parts of the curve
/// from zero to `t0`, from `t0` to `t1` and from `t1` to one.
pub proof fn lemma_thirds_run_along(t0: Frac, t1: Frac, p0: Spot, p1: Spot, p2: Spot)
    requires
        t0.wf(),
        t1.wf(),
        t0.num < t0.den,
        p0.wf(),
        p1.wf(),
        p2.wf(),
    ensures
        ({
            let (pa0, pb0, pc0) = split_at(t0, p0, p1, p2);
            let (pa1, pb1, pc1) = split_at(rescaled(t0, t1), pb0, pc0, p2);
            &&& runs_along(p0, pa0, pb0, Frac::whole(0), t0, p0, p1, p2)
            &&& runs_along(pb0, pa1, pb1, t0, t1, p0, p1, p2)
            &&& runs_along(pb1, pc1, p2, t1, Frac::whole(1), p0, p1, p2)
        }),
{
    let one = Frac::whole(1);
    let t = rescaled(t0, t1);
    let (pa0, pb0, pc0) = split_at(t0, p0, p1, p2);
    let (pa1, pb1, pc1) = split_at(t, pb0, pc0, p2);
    lemma_halves_run_along(t0, p0, p1, p2);
    assert forall|s: Frac| s.wf() implies (#[trigger] point_at(s, pb0, pa1, pb1)).same(
        point_at(lerp(t0, t1, s), p0, p1, p2),
    ) by {
        lemma_parameter_middle(t0, t1, s);
        lemma_three_parts_exact(t0, t, s, p0, p1, p2);
        lemma_same_point_of_curve(
            point_at(s, pb0, pa1, pb1),
            lerp(t0, one, t.times(s)),
            lerp(t0, t1, s),
            p0,
            p1,
            p2,
        );
    }
    assert forall|s: Frac| s.wf() implies (#[trigger] point_at(s, pb1, pc1, p2)).same(
        point_at(lerp(t1, one, s), p0, p1, p2),
    ) by {
        lemma_parameter_middle(t0, t1, s);
        lemma_parameter_last(t0, t1, s);
        lemma_three_parts_exact(t0, t, s, p0, p1, p2);
        lemma_same_point_of_curve(
            point_at(s, pb1, pc1, p2),
            lerp(t0, one, lerp(t, one, s)),
            lerp(t1, one, s),
            p0,
            p1,
            p2,
        );
    }
}

} // verus!
