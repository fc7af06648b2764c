//! Why the pieces of a split do not turn back: the laws of one coordinate.

use vstd::prelude::*;
use crate::rational::Frac;
use crate::point::lerp;
use crate::fractions::{
    lemma_stands_for_itself, lemma_stands_lerp, lemma_stands_minus, lemma_stands_order,
    lemma_stands_over, lemma_stands_plus, lemma_stands_scaled, lemma_stands_times, stands_for,
};
use crate::splitter::{bend, outside_span, rescaled, turning_parameter};

verus! {

/// The middle value lies in the closed span of the outer two.
pub open spec fn within_span(a0: Frac, a1: Frac, a2: Frac) -> bool {
    (a0.at_most(a1) && a1.at_most(a2)) || (a2.at_most(a1) && a1.at_most(a0))
}

/// The same, of whole numbers.
pub open spec fn between(s: int, c: int, e: int) -> bool {
    (s <= c && c <= e) || (e <= c && c <= s)
}

/// The numerator of an interpolation over common denominators.
pub open spec fn mix(x: int, y: int, n: int, d: int) -> int {
    x * (d - n) + y * n
}

/// Over a common denominator, a value lies within a span as its numerator does.
pub proof fn lemma_stands_within(a0: Frac, a1: Frac, a2: Frac, x0: int, x1: int, x2: int, w: int)
    requires
        stands_for(a0, x0, w),
        stands_for(a1, x1, w),
        stands_for(a2, x2, w),
    ensures
        within_span(a0, a1, a2) <==> between(x0, x1, x2),
        outside_span(a0, a1, a2) <==> !between(x0, x1, x2),
{
    lemma_stands_order(a0, a1, x0, x1, w);
    lemma_stands_order(a1, a2, x1, x2, w);
    lemma_stands_order(a2, a1, x2, x1, w);
    lemma_stands_order(a1, a0, x1, x0, w);
}

/// Three fractions over the product of their denominators.
pub proof fn lemma_common_denominator(a0: Frac, a1: Frac, a2: Frac)
    requires
        a0.wf(),
        a1.wf(),
        a2.wf(),
    ensures
        stands_for(a0, a0.num * (a1.den * a2.den), a0.den * a1.den * a2.den),
        stands_for(a1, a1.num * (a0.den * a2.den), a0.den * a1.den * a2.den),
        stands_for(a2, a2.num * (a0.den * a1.den), a0.den * a1.den * a2.den),
{
    let d0 = a0.den;
    let d1 = a1.den;
    let d2 = a2.den;
    assert(d1 * d2 > 0 && d0 * d2 > 0 && d0 * d1 > 0) by (nonlinear_arith)
        requires
            d0 > 0,
            d1 > 0,
            d2 > 0,
    ;
    lemma_stands_for_itself(a0);
    lemma_stands_for_itself(a1);
    lemma_stands_for_itself(a2);
    lemma_stands_scaled(a0, a0.num, d0, d1 * d2);
    lemma_stands_scaled(a1, a1.num, d1, d0 * d2);
    lemma_stands_scaled(a2, a2.num, d2, d0 * d1);
    assert(d0 * (d1 * d2) == d0 * d1 * d2) by (nonlinear_arith);
    assert(d1 * (d0 * d2) == d0 * d1 * d2) by (nonlinear_arith);
    assert(d2 * (d0 * d1) == d0 * d1 * d2) by (nonlinear_arith);
}

/// The differences between the points of a split, over common denominators.
pub proof fn lemma_split_differences(x0: int, x1: int, x2: int, n: int, d: int)
    ensures
        ({
            let pa = mix(x0, x1, n, d);
            let pc = mix(x1, x2, n, d);
            let pb = mix(pa, pc, n, d);
            &&& pa * d - x0 * d * d == d * n * (x1 - x0)
            &&& pb - pa * d == n * (pc - pa)
            &&& pc * d - pb == (d - n) * (pc - pa)
            &&& x2 * d * d - pc * d == d * (d - n) * (x2 - x1)
            &&& pc - pa == (d - n) * (x1 - x0) + n * (x2 - x1)
        }),
{
    let pa = mix(x0, x1, n, d);
    let pc = mix(x1, x2, n, d);
    let pb = mix(pa, pc, n, d);
    assert(pa * d - x0 * d * d == d * n * (x1 - x0)) by (nonlinear_arith)
        requires
            pa == x0 * (d - n) + x1 * n,
    ;
    assert(pb - pa * d == n * (pc - pa)) by (nonlinear_arith)
        requires
            pb == pa * (d - n) + pc * n,
    ;
    assert(pc * d - pb == (d - n) * (pc - pa)) by (nonlinear_arith)
        requires
            pb == pa * (d - n) + pc * n,
    ;
    assert(x2 * d * d - pc * d == d * (d - n) * (x2 - x1)) by (nonlinear_arith)
        requires
            pc == x1 * (d - n) + x2 * n,
    ;
    assert(pc - pa == (d - n) * (x1 - x0) + n * (x2 - x1)) by (nonlinear_arith)
        requires
            pa == x0 * (d - n) + x1 * n,
            pc == x1 * (d - n) + x2 * n,
    ;
}

/// The product of two numbers of like sign is not negative, and that of two
/// numbers of unlike sign is not positive.
pub proof fn lemma_sign_of_product(a: int, b: int)
    ensures
        a >= 0 && b >= 0 ==> a * b >= 0,
        a <= 0 && b <= 0 ==> a * b >= 0,
        a >= 0 && b <= 0 ==> a * b <= 0,
        a <= 0 && b >= 0 ==> a * b <= 0,
        a == 0 || b == 0 ==> a * b == 0,
{
    assert(a >= 0 && b >= 0 ==> a * b >= 0) by (nonlinear_arith);
    assert(a <= 0 && b <= 0 ==> a * b >= 0) by (nonlinear_arith);
    assert(a >= 0 && b <= 0 ==> a * b <= 0) by (nonlinear_arith);
    assert(a <= 0 && b >= 0 ==> a * b <= 0) by (nonlinear_arith);
    assert(a == 0 || b == 0 ==> a * b == 0) by (nonlinear_arith);
}

/// Whole numbers: a coordinate that does not turn back keeps that in both
/// halves of a split.
pub proof fn lemma_core_monotone(x0: int, x1: int, x2: int, n: int, d: int)
    requires
        d > 0,
        0 <= n <= d,
        between(x0, x1, x2),
    ensures
        ({
            let pa = mix(x0, x1, n, d);
            let pc = mix(x1, x2, n, d);
            let pb = mix(pa, pc, n, d);
            between(x0 * d * d, pa * d, pb) && between(pb, pc * d, x2 * d * d)
        }),
{
    let pa = mix(x0, x1, n, d);
    let pc = mix(x1, x2, n, d);
    let pb = mix(pa, pc, n, d);
    lemma_split_differences(x0, x1, x2, n, d);
    let e0 = x1 - x0;
    let e1 = x2 - x1;
    let f = pc - pa;
    lemma_sign_of_product(d - n, e0);
    lemma_sign_of_product(n, e1);
    lemma_sign_of_product(n, e0);
    lemma_sign_of_product(d, n * e0);
    lemma_sign_of_product(n, f);
    lemma_sign_of_product(d - n, f);
    lemma_sign_of_product(d - n, e1);
    lemma_sign_of_product(d, (d - n) * e1);
    assert(d * n * e0 == d * (n * e0)) by (nonlinear_arith);
    assert(d * (d - n) * e1 == d * ((d - n) * e1)) by (nonlinear_arith);
}

/// Whole numbers: where the two inner points of a split fall together, the
/// coordinate does not turn back in either half.
pub proof fn lemma_core_flat(x0: int, x1: int, x2: int, n: int, d: int)
    requires
        mix(x0, x1, n, d) == mix(x1, x2, n, d),
    ensures
        ({
            let pa = mix(x0, x1, n, d);
            let pc = mix(x1, x2, n, d);
            let pb = mix(pa, pc, n, d);
            between(x0 * d * d, pa * d, pb) && between(pb, pc * d, x2 * d * d) && pb == pa * d
        }),
{
    let pa = mix(x0, x1, n, d);
    let pc = mix(x1, x2, n, d);
    let pb = mix(pa, pc, n, d);
    lemma_split_differences(x0, x1, x2, n, d);
    lemma_sign_of_product(n, pc - pa);
    lemma_sign_of_product(d - n, pc - pa);
}

/// The fractions of a split over common denominators.
pub proof fn lemma_stands_split(
    a0: Frac,
    a1: Frac,
    a2: Frac,
    t: Frac,
    x0: int,
    x1: int,
    x2: int,
    w: int,
    n: int,
    d: int,
)
    requires
        stands_for(a0, x0, w),
        stands_for(a1, x1, w),
        stands_for(a2, x2, w),
        stands_for(t, n, d),
    ensures
        ({
            let pa = lerp(a0, a1, t);
            let pc = lerp(a1, a2, t);
            let pb = lerp(pa, pc, t);
            let xa = mix(x0, x1, n, d);
            let xc = mix(x1, x2, n, d);
            let xb = mix(xa, xc, n, d);
            &&& stands_for(a0, x0 * d * d, w * d * d)
            &&& stands_for(pa, xa * d, w * d * d)
            &&& stands_for(pb, xb, w * d * d)
            &&& stands_for(pc, xc * d, w * d * d)
            &&& stands_for(a2, x2 * d * d, w * d * d)
            &&& stands_for(pa, xa, w * d)
            &&& stands_for(pc, xc, w * d)
        }),
{
    let pa = lerp(a0, a1, t);
    let pc = lerp(a1, a2, t);
    let xa = mix(x0, x1, n, d);
    let xc = mix(x1, x2, n, d);
    lemma_stands_lerp(a0, a1, t, x0, x1, w, n, d);
    lemma_stands_lerp(a1, a2, t, x1, x2, w, n, d);
    lemma_stands_lerp(pa, pc, t, xa, xc, w * d, n, d);
    lemma_stands_scaled(a0, x0, w, d);
    lemma_stands_scaled(a0, x0 * d, w * d, d);
    lemma_stands_scaled(a2, x2, w, d);
    lemma_stands_scaled(a2, x2 * d, w * d, d);
    lemma_stands_scaled(pa, xa, w * d, d);
    lemma_stands_scaled(pc, xc, w * d, d);
}

/// A coordinate that does not turn back keeps that in both halves of a
/// split, wherever the curve is split.
pub proof fn lemma_split_keeps_monotone(a0: Frac, a1: Frac, a2: Frac, t: Frac)
    requires
        a0.wf(),
        a1.wf(),
        a2.wf(),
        t.wf(),
        0 <= t.num <= t.den,
        within_span(a0, a1, a2),
    ensures
        ({
            let pa = lerp(a0, a1, t);
            let pc = lerp(a1, a2, t);
            let pb = lerp(pa, pc, t);
            within_span(a0, pa, pb) && within_span(pb, pc, a2)
        }),
{
    let pa = lerp(a0, a1, t);
    let pc = lerp(a1, a2, t);
    let pb = lerp(pa, pc, t);
    let w = a0.den * a1.den * a2.den;
    let x0 = a0.num * (a1.den * a2.den);
    let x1 = a1.num * (a0.den * a2.den);
    let x2 = a2.num * (a0.den * a1.den);
    let n = t.num;
    let d = t.den;
    lemma_common_denominator(a0, a1, a2);
    lemma_stands_for_itself(t);
    lemma_stands_within(a0, a1, a2, x0, x1, x2, w);
    lemma_core_monotone(x0, x1, x2, n, d);
    lemma_stands_split(a0, a1, a2, t, x0, x1, x2, w, n, d);
    let xa = mix(x0, x1, n, d);
    let xc = mix(x1, x2, n, d);
    let xb = mix(xa, xc, n, d);
    lemma_stands_within(a0, pa, pb, x0 * d * d, xa * d, xb, w * d * d);
    lemma_stands_within(pb, pc, a2, xb, xc * d, x2 * d * d, w * d * d);
}

/// A fraction that stands for a number of the unit interval lies in it.
pub proof fn lemma_unit_range(q: Frac, n: int, d: int)
    requires
        stands_for(q, n, d),
        0 <= n <= d,
    ensures
        q.wf(),
        0 <= q.num <= q.den,
{
    assert(0 <= q.num <= q.den) by (nonlinear_arith)
        requires
            q.num * d == n * q.den,
            q.den > 0,
            d > 0,
            0 <= n <= d,
    ;
}

/// The turning parameter over the common denominator of the coordinate:
/// with `s` the sign of the bend, it is `s (x0 - x1) / s (x0 - 2 x1 + x2)`,
/// and lies strictly inside the unit interval.
pub proof fn lemma_turn_stands(a0: Frac, a1: Frac, a2: Frac, x0: int, x1: int, x2: int, w: int)
    requires
        stands_for(a0, x0, w),
        stands_for(a1, x1, w),
        stands_for(a2, x2, w),
        !between(x0, x1, x2),
    ensures
        ({
            let s: int = if x0 - 2 * x1 + x2 > 0 {
                1
            } else {
                -1
            };
            &&& x0 - 2 * x1 + x2 != 0
            &&& bend(a0, a1, a2).num != 0
            &&& stands_for(turning_parameter(a0, a1, a2), s * (x0 - x1), s * (x0 - 2 * x1 + x2))
            &&& 0 < s * (x0 - x1) < s * (x0 - 2 * x1 + x2)
        }),
{
    let two = Frac::whole(2);
    assert(stands_for(two, 2, 1));
    lemma_stands_times(two, a1, 2, 1, x1, w);
    assert(1 * w == w);
    lemma_stands_minus(a0, two.times(a1), x0, 2 * x1, w);
    lemma_stands_plus(a0.minus(two.times(a1)), a2, x0 - 2 * x1, x2, w);
    lemma_stands_minus(a0, a1, x0, x1, w);
    let big_n = x0 - x1;
    let big_d = x0 - 2 * x1 + x2;
    assert(big_d != 0);
    lemma_stands_over(a0.minus(a1), bend(a0, a1, a2), big_n, big_d, w);
    if big_d > 0 {
        assert(1 * big_n == big_n && 1 * big_d == big_d);
    } else {
        assert((-1) * big_n == -big_n && (-1) * big_d == -big_d);
    }
}

/// Where the control value of a coordinate lies outside the span of its end
/// values, a split at the turning parameter leaves two halves that do not
/// turn back.
pub proof fn lemma_split_at_turn(a0: Frac, a1: Frac, a2: Frac)
    requires
        a0.wf(),
        a1.wf(),
        a2.wf(),
        outside_span(a0, a1, a2),
    ensures
        ({
            let t = turning_parameter(a0, a1, a2);
            let pa = lerp(a0, a1, t);
            let pc = lerp(a1, a2, t);
            let pb = lerp(pa, pc, t);
            within_span(a0, pa, pb) && within_span(pb, pc, a2)
        }),
{
    let t = turning_parameter(a0, a1, a2);
    let pa = lerp(a0, a1, t);
    let pc = lerp(a1, a2, t);
    let pb = lerp(pa, pc, t);
    let w = a0.den * a1.den * a2.den;
    let x0 = a0.num * (a1.den * a2.den);
    let x1 = a1.num * (a0.den * a2.den);
    let x2 = a2.num * (a0.den * a1.den);
    lemma_common_denominator(a0, a1, a2);
    lemma_stands_within(a0, a1, a2, x0, x1, x2, w);
    lemma_turn_stands(a0, a1, a2, x0, x1, x2, w);
    let s: int = if x0 - 2 * x1 + x2 > 0 {
        1
    } else {
        -1
    };
    let n = s * (x0 - x1);
    let d = s * (x0 - 2 * x1 + x2);
    assert(mix(x0, x1, n, d) == mix(x1, x2, n, d)) by (nonlinear_arith)
        requires
            s == 1 || s == -1,
            n == s * (x0 - x1),
            d == s * (x0 - 2 * x1 + x2),
    ;
    lemma_core_flat(x0, x1, x2, n, d);
    lemma_stands_split(a0, a1, a2, t, x0, x1, x2, w, n, d);
    let xa = mix(x0, x1, n, d);
    let xc = mix(x1, x2, n, d);
    let xb = mix(xa, xc, n, d);
    lemma_stands_within(a0, pa, pb, x0 * d * d, xa * d, xb, w * d * d);
    lemma_stands_within(pb, pc, a2, xb, xc * d, x2 * d * d, w * d * d);
}

/// Whole numbers: a split before the turning point. With the turning
/// parameter `n1 / d1` and an earlier parameter `n0 / d0`, the first part
/// does not turn back, and in what is left the two inner points of a split
/// at the rescaled parameter fall together.
pub proof fn lemma_core_before_turn(
    x0: int,
    x1: int,
    x2: int,
    s: int,
    n1: int,
    d1: int,
    n0: int,
    d0: int,
)
    requires
        s == 1 || s == -1,
        n1 == s * (x0 - x1),
        d1 == s * (x0 - 2 * x1 + x2),
        0 < n1 < d1,
        0 < n0 < d0,
        n0 * d1 <= n1 * d0,
    ensures
        ({
            let pa = mix(x0, x1, n0, d0);
            let pc = mix(x1, x2, n0, d0);
            let pb = mix(pa, pc, n0, d0);
            let n = n1 * d0 - n0 * d1;
            let d = (d0 - n0) * d1;
            &&& between(x0 * d0 * d0, pa * d0, pb)
            &&& 0 <= n <= d
            &&& d > 0
            &&& mix(pb, pc * d0, n, d) == mix(pc * d0, x2 * d0 * d0, n, d)
        }),
{
    let pa = mix(x0, x1, n0, d0);
    let pc = mix(x1, x2, n0, d0);
    let pb = mix(pa, pc, n0, d0);
    let n = n1 * d0 - n0 * d1;
    let d = (d0 - n0) * d1;
    lemma_split_differences(x0, x1, x2, n0, d0);
    let g = d0 - n0;
    let h = n0 * d1 - n1 * d0;
    let k = d1 - n1;
    let e0 = x1 - x0;
    let e1 = x2 - x1;
    // the legs of the control polygon, by the turning parameter
    assert(e0 == -(s * n1) && e1 == s * k) by (nonlinear_arith)
        requires
            s == 1 || s == -1,
            n1 == s * (x0 - x1),
            d1 == s * (x0 - 2 * x1 + x2),
            e0 == x1 - x0,
            e1 == x2 - x1,
            k == d1 - n1,
    ;
    let f = pc - pa;
    assert(f == s * h) by (nonlinear_arith)
        requires
            f == (d0 - n0) * e0 + n0 * e1,
            e0 == -(s * n1),
            e1 == s * k,
            k == d1 - n1,
            h == n0 * d1 - n1 * d0,
    ;
    // the first part
    let first = pa * d0 - x0 * d0 * d0;
    let second = pb - pa * d0;
    assert(first == -(s * (d0 * n0 * n1))) by (nonlinear_arith)
        requires
            first == d0 * n0 * e0,
            e0 == -(s * n1),
    ;
    assert(second == s * (n0 * h)) by (nonlinear_arith)
        requires
            second == n0 * f,
            f == s * h,
    ;
    assert(d0 * n0 * n1 > 0) by (nonlinear_arith)
        requires
            d0 > 0,
            n0 > 0,
            n1 > 0,
    ;
    assert(n0 * h <= 0) by (nonlinear_arith)
        requires
            n0 > 0,
            h <= 0,
    ;
    if s == 1 {
        assert(first == -(d0 * n0 * n1));
        assert(second == n0 * h);
    } else {
        assert(first == d0 * n0 * n1);
        assert(second == -(n0 * h));
    }
    // the rescaled parameter
    assert(d > 0) by (nonlinear_arith)
        requires
            d == (d0 - n0) * d1,
            d0 - n0 > 0,
            d1 > 0,
    ;
    assert(d - n == d0 * k) by (nonlinear_arith)
        requires
            d == (d0 - n0) * d1,
            n == n1 * d0 - n0 * d1,
            k == d1 - n1,
    ;
    assert(d0 * k > 0) by (nonlinear_arith)
        requires
            d0 > 0,
            k > 0,
    ;
    // what is left
    let y0 = pb;
    let y1 = pc * d0;
    let y2 = x2 * d0 * d0;
    let up = y1 - y0;
    let down = y2 - y1;
    assert(up == g * (s * h)) by (nonlinear_arith)
        requires
            up == (d0 - n0) * f,
            f == s * h,
            g == d0 - n0,
    ;
    assert(down == d0 * (g * (s * k))) by (nonlinear_arith)
        requires
            down == d0 * (d0 - n0) * e1,
            e1 == s * k,
            g == d0 - n0,
    ;
    assert(up * (d0 * k) + down * (-h) == 0) by (nonlinear_arith)
        requires
            up == g * (s * h),
            down == d0 * (g * (s * k)),
    ;
    assert(mix(y0, y1, n, d) - mix(y1, y2, n, d) == -(up * (d - n) + down * n))
        by (nonlinear_arith)
        requires
            up == y1 - y0,
            down == y2 - y1,
    ;
}

/// The second of two turning parameters, taken over again for what is left
/// after a split at the first, over common denominators.
pub proof fn lemma_rescaled_stands(t0: Frac, t1: Frac, n0: int, d0: int, n1: int, d1: int)
    requires
        stands_for(t0, n0, d0),
        stands_for(t1, n1, d1),
        n0 < d0,
    ensures
        stands_for(rescaled(t0, t1), n1 * d0 - n0 * d1, (d0 - n0) * d1),
{
    let one = Frac::whole(1);
    assert(stands_for(one, 1, 1));
    assert(d0 * d1 > 0 && (d0 - n0) * d1 > 0) by (nonlinear_arith)
        requires
            d0 > 0,
            d1 > 0,
            d0 - n0 > 0,
    ;
    lemma_stands_scaled(one, 1, 1, d0 * d1);
    lemma_stands_scaled(t0, n0, d0, d1);
    lemma_stands_scaled(t1, n1, d1, d0);
    assert(d1 * d0 == d0 * d1) by (nonlinear_arith);
    assert(1 * (d0 * d1) == d0 * d1);
    lemma_stands_minus(t1, t0, n1 * d0, n0 * d1, d0 * d1);
    lemma_stands_minus(one, t0, d0 * d1, n0 * d1, d0 * d1);
    assert(d0 * d1 - n0 * d1 == (d0 - n0) * d1) by (nonlinear_arith);
    lemma_stands_over(
        t1.minus(t0),
        one.minus(t0),
        n1 * d0 - n0 * d1,
        (d0 - n0) * d1,
        d0 * d1,
    );
}

/// Where a coordinate turns back at `t1` and the curve is split at an
/// earlier parameter `t0` first, the first part does not turn back; and
/// where what is left is split at the rescaled parameter, neither of its
/// halves turns back.
pub proof fn lemma_split_before_turn(a0: Frac, a1: Frac, a2: Frac, t0: Frac)
    requires
        a0.wf(),
        a1.wf(),
        a2.wf(),
        t0.wf(),
        0 < t0.num < t0.den,
        outside_span(a0, a1, a2),
        t0.at_most(turning_parameter(a0, a1, a2)),
    ensures
        ({
            let t1 = turning_parameter(a0, a1, a2);
            let pa0 = lerp(a0, a1, t0);
            let pc0 = lerp(a1, a2, t0);
            let pb0 = lerp(pa0, pc0, t0);
            let t = rescaled(t0, t1);
            let pa1 = lerp(pb0, pc0, t);
            let pc1 = lerp(pc0, a2, t);
            let pb1 = lerp(pa1, pc1, t);
            &&& within_span(a0, pa0, pb0)
            &&& within_span(pb0, pa1, pb1)
            &&& within_span(pb1, pc1, a2)
            &&& t.wf()
            &&& 0 <= t.num <= t.den
        }),
{
    let t1 = turning_parameter(a0, a1, a2);
    let pa0 = lerp(a0, a1, t0);
    let pc0 = lerp(a1, a2, t0);
    let pb0 = lerp(pa0, pc0, t0);
    let t = rescaled(t0, t1);
    let pa1 = lerp(pb0, pc0, t);
    let pc1 = lerp(pc0, a2, t);
    let pb1 = lerp(pa1, pc1, t);
    let w = a0.den * a1.den * a2.den;
    let x0 = a0.num * (a1.den * a2.den);
    let x1 = a1.num * (a0.den * a2.den);
    let x2 = a2.num * (a0.den * a1.den);
    lemma_common_denominator(a0, a1, a2);
    lemma_stands_within(a0, a1, a2, x0, x1, x2, w);
    lemma_turn_stands(a0, a1, a2, x0, x1, x2, w);
    let s: int = if x0 - 2 * x1 + x2 > 0 {
        1
    } else {
        -1
    };
    let n1 = s * (x0 - x1);
    let d1 = s * (x0 - 2 * x1 + x2);
    let n0 = t0.num;
    let d0 = t0.den;
    lemma_stands_for_itself(t0);
    // the order of the two parameters
    lemma_stands_scaled(t0, n0, d0, d1);
    lemma_stands_scaled(t1, n1, d1, d0);
    assert(d1 * d0 == d0 * d1) by (nonlinear_arith);
    lemma_stands_order(t0, t1, n0 * d1, n1 * d0, d0 * d1);
    lemma_core_before_turn(x0, x1, x2, s, n1, d1, n0, d0);
    // the first part
    lemma_stands_split(a0, a1, a2, t0, x0, x1, x2, w, n0, d0);
    let xa = mix(x0, x1, n0, d0);
    let xc = mix(x1, x2, n0, d0);
    let xb = mix(xa, xc, n0, d0);
    lemma_stands_within(a0, pa0, pb0, x0 * d0 * d0, xa * d0, xb, w * d0 * d0);
    // what is left
    let n = n1 * d0 - n0 * d1;
    let d = (d0 - n0) * d1;
    lemma_rescaled_stands(t0, t1, n0, d0, n1, d1);
    lemma_unit_range(t, n, d);
    let y0 = xb;
    let y1 = xc * d0;
    let y2 = x2 * d0 * d0;
    let v = w * d0 * d0;
    lemma_core_flat(y0, y1, y2, n, d);
    lemma_stands_split(pb0, pc0, a2, t, y0, y1, y2, v, n, d);
    let ya = mix(y0, y1, n, d);
    let yc = mix(y1, y2, n, d);
    let yb = mix(ya, yc, n, d);
    lemma_stands_within(pb0, pa1, pb1, y0 * d * d, ya * d, yb, v * d * d);
    lemma_stands_within(pb1, pc1, a2, yb, yc * d, y2 * d * d, v * d * d);
}

/// A coordinate whose control value lies outside the span of its end values
/// bends, and turns back strictly inside the curve.
pub proof fn lemma_turn_inside(a0: Frac, a1: Frac, a2: Frac)
    requires
        a0.wf(),
        a1.wf(),
        a2.wf(),
        outside_span(a0, a1, a2),
    ensures
        bend(a0, a1, a2).num != 0,
        turning_parameter(a0, a1, a2).wf(),
        0 < turning_parameter(a0, a1, a2).num < turning_parameter(a0, a1, a2).den,
{
    let w = a0.den * a1.den * a2.den;
    let x0 = a0.num * (a1.den * a2.den);
    let x1 = a1.num * (a0.den * a2.den);
    let x2 = a2.num * (a0.den * a1.den);
    lemma_common_denominator(a0, a1, a2);
    lemma_stands_within(a0, a1, a2, x0, x1, x2, w);
    lemma_turn_stands(a0, a1, a2, x0, x1, x2, w);
    let s: int = if x0 - 2 * x1 + x2 > 0 {
        1
    } else {
        -1
    };
    let n = s * (x0 - x1);
    let d = s * (x0 - 2 * x1 + x2);
    let t = turning_parameter(a0, a1, a2);
    assert(0 < t.num < t.den) by (nonlinear_arith)
        requires
            t.num * d == n * t.den,
            t.den > 0,
            d > 0,
            0 < n < d,
    ;
}

} // verus!
