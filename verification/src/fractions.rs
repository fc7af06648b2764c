//! Arithmetic of fractions over common denominators: the groundwork on
//! which the laws of splitting are proved.

use vstd::prelude::*;
use crate::rational::Frac;
use crate::point::lerp;

verus! {

/// The fraction `q` stands for the number `n / d`.
pub open spec fn stands_for(q: Frac, n: int, d: int) -> bool {
    q.den > 0 && d > 0 && q.num * d == n * q.den
}

/// A well-formed fraction stands for its numerator over its denominator.
pub proof fn lemma_stands_for_itself(q: Frac)
    requires
        q.wf(),
    ensures
        stands_for(q, q.num, q.den),
{
}

/// Numerator and denominator may be multiplied by the same positive factor.
pub proof fn lemma_stands_scaled(q: Frac, n: int, d: int, k: int)
    requires
        stands_for(q, n, d),
        k > 0,
    ensures
        stands_for(q, n * k, d * k),
{
    let p = q.num * d;
    assert(p * k == (n * q.den) * k);
    assert(q.num * (d * k) == p * k) by (nonlinear_arith)
        requires
            p == q.num * d,
    ;
    assert((n * q.den) * k == (n * k) * q.den) by (nonlinear_arith);
    assert(d * k > 0) by (nonlinear_arith)
        requires
            d > 0,
            k > 0,
    ;
}

/// Over a common denominator, fractions compare as their numerators do.
pub proof fn lemma_stands_order(a: Frac, b: Frac, x: int, y: int, w: int)
    requires
        stands_for(a, x, w),
        stands_for(b, y, w),
    ensures
        a.less(b) <==> x < y,
        a.same(b) <==> x == y,
        a.at_most(b) <==> x <= y,
{
    // a.num * b.den ? b.num * a.den, scaled by w > 0
    let l = a.num * b.den;
    let r = b.num * a.den;
    let k = a.den * b.den;
    assert(l * w == x * k) by (nonlinear_arith)
        requires
            a.num * w == x * a.den,
            l == a.num * b.den,
            k == a.den * b.den,
    {
        assert(a.num * w * b.den == x * a.den * b.den);
    }
    assert(r * w == y * k) by (nonlinear_arith)
        requires
            b.num * w == y * b.den,
            r == b.num * a.den,
            k == a.den * b.den,
    {
        assert(b.num * w * a.den == y * b.den * a.den);
    }
    assert(k > 0) by (nonlinear_arith)
        requires
            k == a.den * b.den,
            a.den > 0,
            b.den > 0,
    ;
    assert((l < r <==> x < y) && (l == r <==> x == y)) by (nonlinear_arith)
        requires
            l * w == x * k,
            r * w == y * k,
            w > 0,
            k > 0,
    ;
}

/// Over a common denominator, numerators subtract.
pub proof fn lemma_stands_minus(a: Frac, b: Frac, x: int, y: int, w: int)
    requires
        stands_for(a, x, w),
        stands_for(b, y, w),
    ensures
        stands_for(a.minus(b), x - y, w),
{
    let k = a.den * b.den;
    assert(k > 0) by (nonlinear_arith)
        requires
            k == a.den * b.den,
            a.den > 0,
            b.den > 0,
    ;
    let an = a.num;
    let ad = a.den;
    let bn = b.num;
    let bd = b.den;
    assert((an * bd - bn * ad) * w == (an * w) * bd - (bn * w) * ad) by (nonlinear_arith);
    assert((x * ad) * bd - (y * bd) * ad == (x - y) * (ad * bd)) by (nonlinear_arith);
}

/// Over a common denominator, numerators add.
pub proof fn lemma_stands_plus(a: Frac, b: Frac, x: int, y: int, w: int)
    requires
        stands_for(a, x, w),
        stands_for(b, y, w),
    ensures
        stands_for(a.plus(b), x + y, w),
{
    let k = a.den * b.den;
    assert(k > 0) by (nonlinear_arith)
        requires
            k == a.den * b.den,
            a.den > 0,
            b.den > 0,
    ;
    let an = a.num;
    let ad = a.den;
    let bn = b.num;
    let bd = b.den;
    assert((an * bd + bn * ad) * w == (an * w) * bd + (bn * w) * ad) by (nonlinear_arith);
    assert((x * ad) * bd + (y * bd) * ad == (x + y) * (ad * bd)) by (nonlinear_arith);
}

/// Numerators multiply, and so do denominators.
pub proof fn lemma_stands_times(a: Frac, b: Frac, x: int, w: int, y: int, v: int)
    requires
        stands_for(a, x, w),
        stands_for(b, y, v),
    ensures
        stands_for(a.times(b), x * y, w * v),
{
    let k = a.den * b.den;
    assert(k > 0) by (nonlinear_arith)
        requires
            k == a.den * b.den,
            a.den > 0,
            b.den > 0,
    ;
    assert(w * v > 0) by (nonlinear_arith)
        requires
            w > 0,
            v > 0,
    ;
    let p = a.num * w;
    let q = b.num * v;
    assert(p * q == (x * a.den) * (y * b.den));
    assert((a.num * b.num) * (w * v) == p * q) by (nonlinear_arith)
        requires
            p == a.num * w,
            q == b.num * v,
    ;
    assert((x * a.den) * (y * b.den) == (x * y) * k) by (nonlinear_arith)
        requires
            k == a.den * b.den,
    ;
}

/// The quotient of two fractions over a common denominator is the quotient
/// of their numerators.
pub proof fn lemma_stands_over(a: Frac, b: Frac, x: int, y: int, w: int)
    requires
        stands_for(a, x, w),
        stands_for(b, y, w),
        y != 0,
    ensures
        b.num != 0,
        y > 0 ==> stands_for(a.over(b), x, y),
        y < 0 ==> stands_for(a.over(b), -x, -y),
{
    assert((b.num > 0 <==> y > 0) && (b.num < 0 <==> y < 0)) by (nonlinear_arith)
        requires
            b.num * w == y * b.den,
            w > 0,
            b.den > 0,
    ;
    let p = a.num * w;
    let q = b.num * w;
    // a.num * b.den * y == x * a.den * b.num, after scaling by w
    assert((a.num * b.den) * y * w == x * (a.den * b.num) * w) by (nonlinear_arith)
        requires
            p == a.num * w,
            q == b.num * w,
            p == x * a.den,
            q == y * b.den,
    {
        assert((a.num * b.den) * y * w == p * (y * b.den));
        assert(x * (a.den * b.num) * w == (x * a.den) * q);
    }
    assert((a.num * b.den) * y == x * (a.den * b.num)) by (nonlinear_arith)
        requires
            (a.num * b.den) * y * w == x * (a.den * b.num) * w,
            w > 0,
    ;
    if y > 0 {
        assert(a.den * b.num > 0) by (nonlinear_arith)
            requires
                a.den > 0,
                b.num > 0,
        ;
    } else {
        assert(-(a.den * b.num) > 0) by (nonlinear_arith)
            requires
                a.den > 0,
                b.num < 0,
        ;
        assert((-(a.num * b.den)) * (-y) == (-x) * (-(a.den * b.num))) by (nonlinear_arith)
            requires
                (a.num * b.den) * y == x * (a.den * b.num),
        ;
    }
}

/// Interpolation over common denominators: `a + (b - a) t` with `a = x / w`,
/// `b = y / w` and `t = n / d` is `(x (d - n) + y n) / (w d)`.
pub proof fn lemma_stands_lerp(a: Frac, b: Frac, t: Frac, x: int, y: int, w: int, n: int, d: int)
    requires
        stands_for(a, x, w),
        stands_for(b, y, w),
        stands_for(t, n, d),
    ensures
        stands_for(lerp(a, b, t), x * (d - n) + y * n, w * d),
{
    lemma_stands_minus(b, a, y, x, w);
    lemma_stands_times(b.minus(a), t, y - x, w, n, d);
    lemma_stands_scaled(a, x, w, d);
    lemma_stands_plus(a, b.minus(a).times(t), x * d, (y - x) * n, w * d);
    assert(x * d + (y - x) * n == x * (d - n) + y * n) by (nonlinear_arith);
}

} // verus!
