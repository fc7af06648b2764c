//! Splitting a quadratic curve where it turns back along an axis.

use vstd::prelude::*;
use crate::rational::{Frac, Rational};
use crate::point::{lerp, Point, Spot};
use crate::exact::lemma_split_exact;
use crate::path::{BezPath, El};
use crate::monotone::lemma_turn_inside;
use crate::laws::{
    lemma_monotone_unchanged, lemma_pieces_exact, lemma_pieces_monotone, lemma_pieces_shape,
    pieces_exact, quad_monotone, quads_monotone,
};
use crate::rewrite::{setting_out, walk};

verus! {

/// The middle coordinate lies outside the closed span of the outer two. For
/// a curve these are the coordinates of the start point, of the control
/// point and of the end point: the span is that of the two end points. (A
/// span of the start point and the control point would hold the control
/// point always, and no curve would ever be split.)
pub open spec fn outside_span(a0: Frac, a1: Frac, a2: Frac) -> bool {
    (a1.less(a0) && a1.less(a2)) || (a0.less(a1) && a2.less(a1))
}

/// `a0 - 2 a1 + a2`: half the second derivative of the coordinate.
pub open spec fn bend(a0: Frac, a1: Frac, a2: Frac) -> Frac {
    a0.minus(Frac::whole(2).times(a1)).plus(a2)
}

/// The parameter at which the coordinate of the curve turns back:
/// `(a0 - a1) / (a0 - 2 a1 + a2)`, the root of its derivative.
pub open spec fn turning_parameter(a0: Frac, a1: Frac, a2: Frac) -> Frac {
    a0.minus(a1).over(bend(a0, a1, a2))
}

/// The turning parameter of a coordinate whose control value lies outside
/// the span of its end values; nothing for a coordinate that does not turn.
pub open spec fn axis_turn(a0: Frac, a1: Frac, a2: Frac) -> Option<Frac> {
    if outside_span(a0, a1, a2) {
        Some(turning_parameter(a0, a1, a2))
    } else {
        None
    }
}

/// The three new points of a split at `t`: the control point of the first
/// half, the point of the curve at `t`, and the control point of the second
/// half.
pub open spec fn split_at(t: Frac, p0: Spot, p1: Spot, p2: Spot) -> (Spot, Spot, Spot) {
    let pa = p0.lerp(p1, t);
    let pc = p1.lerp(p2, t);
    let pb = pa.lerp(pc, t);
    (pa, pb, pc)
}

/// The point of the curve at the parameter `u`.
pub open spec fn point_at(u: Frac, p0: Spot, p1: Spot, p2: Spot) -> Spot {
    split_at(u, p0, p1, p2).1
}

/// The second of two turning parameters, taken over again for the part of
/// the curve that is left after a split at the first: `(t1 - t0) / (1 - t0)`.
pub open spec fn rescaled(t0: Frac, t1: Frac) -> Frac {
    t1.minus(t0).over(Frac::whole(1).minus(t0))
}

/// The two halves of a split at `t`.
pub open spec fn two_pieces(t: Frac, p0: Spot, p1: Spot, p2: Spot) -> Seq<El> {
    let (pa, pb, pc) = split_at(t, p0, p1, p2);
    seq![El::QuadTo(pa, pb), El::QuadTo(pc, p2)]
}

/// The three parts of a curve split at `t0` and then, in what is left, at
/// `t1`. The parameters are taken in the order of their size.
pub open spec fn three_pieces(tx: Frac, ty: Frac, p0: Spot, p1: Spot, p2: Spot) -> Seq<El> {
    let t0 = if ty.less(tx) {
        ty
    } else {
        tx
    };
    let t1 = if ty.less(tx) {
        tx
    } else {
        ty
    };
    let (pa0, pb0, pc0) = split_at(t0, p0, p1, p2);
    let (pa1, pb1, pc1) = split_at(rescaled(t0, t1), pb0, pc0, p2);
    seq![El::QuadTo(pa0, pb0), El::QuadTo(pa1, pb1), El::QuadTo(pc1, p2)]
}

/// The parameters between which the pieces of the curve lie: zero, the
/// turning parameters in the order of their size, and one.
pub open spec fn breaks(p0: Spot, p1: Spot, p2: Spot) -> Seq<Frac> {
    match (axis_turn(p0.x, p1.x, p2.x), axis_turn(p0.y, p1.y, p2.y)) {
        (Some(tx), Some(ty)) => if ty.less(tx) {
            seq![Frac::whole(0), ty, tx, Frac::whole(1)]
        } else {
            seq![Frac::whole(0), tx, ty, Frac::whole(1)]
        },
        (Some(t), None) => seq![Frac::whole(0), t, Frac::whole(1)],
        (None, Some(t)) => seq![Frac::whole(0), t, Frac::whole(1)],
        (None, None) => seq![Frac::whole(0), Frac::whole(1)],
    }
}

/// The quadratic elements that stand for the curve from `p0` by the control
/// point `p1` to `p2`: the curve itself where neither coordinate turns back,
/// else its parts between the turning points.
pub open spec fn monotone_pieces(p0: Spot, p1: Spot, p2: Spot) -> Seq<El> {
    match (axis_turn(p0.x, p1.x, p2.x), axis_turn(p0.y, p1.y, p2.y)) {
        (Some(tx), Some(ty)) => three_pieces(tx, ty, p0, p1, p2),
        (Some(t), None) => two_pieces(t, p0, p1, p2),
        (None, Some(t)) => two_pieces(t, p0, p1, p2),
        (None, None) => seq![El::QuadTo(p1, p2)],
    }
}

/// Splits the curve at the parameter `t`, by two rounds of interpolation
/// along its control polygon. The two halves run along the curve: the first
/// half at `s` is the curve at `t s`, and the second half at `s` is the
/// curve at `t + (1 - t) s`.
pub fn split(t: &Rational, p0: &Point, p1: &Point, p2: &Point) -> (r: (Point, Point, Point))
    ensures
        (r.0@, r.1@, r.2@) == split_at(t@, p0@, p1@, p2@),
        forall|s: Frac|
            s.wf() ==> (#[trigger] point_at(s, p0@, r.0@, r.1@)).same(
                point_at(t@.times(s), p0@, p1@, p2@),
            ),
        forall|s: Frac|
            s.wf() ==> (#[trigger] point_at(s, r.1@, r.2@, p2@)).same(
                point_at(lerp(t@, Frac::whole(1), s), p0@, p1@, p2@),
            ),
{
    t.note_wf();
    p0.note_wf();
    p1.note_wf();
    p2.note_wf();
    let pa: Point = p0.lerp(p1, t);
    let pc: Point = p1.lerp(p2, t);
    let pb: Point = pa.lerp(&pc, t);
    proof {
        assert forall|s: Frac| s.wf() implies (#[trigger] point_at(s, p0@, pa@, pb@)).same(
            point_at(t@.times(s), p0@, p1@, p2@),
        ) by {
            lemma_split_exact(t@, s, p0@, p1@, p2@);
        }
        assert forall|s: Frac| s.wf() implies (#[trigger] point_at(s, pb@, pc@, p2@)).same(
            point_at(lerp(t@, Frac::whole(1), s), p0@, p1@, p2@),
        ) by {
            lemma_split_exact(t@, s, p0@, p1@, p2@);
        }
    }
    (pa, pb, pc)
}

/// The parameter at which a coordinate turns back, if it does.
pub fn turn_of_axis(a0: &Rational, a1: &Rational, a2: &Rational) -> (r: Option<Rational>)
    ensures
        r is Some == axis_turn(a0@, a1@, a2@) is Some,
        r is Some ==> Some(r->0@) == axis_turn(a0@, a1@, a2@),
        r is Some ==> 0 < r->0@.num < r->0@.den,
{
    let below: bool = a1.lt(a0) && a1.lt(a2);
    let above: bool = a0.lt(a1) && a2.lt(a1);
    if below || above {
        a0.note_wf();
        a1.note_wf();
        a2.note_wf();
        proof {
            lemma_turn_inside(a0@, a1@, a2@);
        }
        let two: Rational = Rational::from_i64(2);
        let bend: Rational = a0.sub(&two.mul(a1)).add(a2);
        Some(a0.sub(a1).div(&bend))
    } else {
        None
    }
}

/// Appends to `path` the quadratic elements that stand for the curve from
/// `p0` by the control point `p1` to `p2`, split where a coordinate turns
/// back, so that no element turns back along either axis. A curve that does
/// not turn back is appended as it is. The last element ends at `p2`, and
/// each element is the part of the curve between two turning parameters.
pub fn split_quad(path: &mut BezPath, p0: &Point, p1: &Point, p2: &Point)
    ensures
        final(path)@ == old(path)@ + monotone_pieces(p0@, p1@, p2@),
        quad_monotone(p0@, p1@, p2@) ==> final(path)@ == old(path)@.push(El::QuadTo(p1@, p2@)),
        quads_monotone(setting_out(p0@), monotone_pieces(p0@, p1@, p2@)),
        walk(
            setting_out(p0@),
            monotone_pieces(p0@, p1@, p2@),
            monotone_pieces(p0@, p1@, p2@).len(),
        ).current == p2@,
        pieces_exact(setting_out(p0@), p1@, p2@),
{
    proof {
        lemma_pieces_shape(setting_out(p0@), p0@, p1@, p2@);
    }
    p0.note_wf();
    p1.note_wf();
    p2.note_wf();
    proof {
        if quad_monotone(p0@, p1@, p2@) {
            lemma_monotone_unchanged(p0@, p1@, p2@);
        }
        lemma_pieces_monotone(setting_out(p0@), p1@, p2@);
        lemma_pieces_exact(setting_out(p0@), p1@, p2@);
    }
    let tx: Option<Rational> = turn_of_axis(&p0.x, &p1.x, &p2.x);
    let ty: Option<Rational> = turn_of_axis(&p0.y, &p1.y, &p2.y);
    match (tx, ty) {
        (Some(tx), Some(ty)) => {
            let swap: bool = ty.lt(&tx);
            let (t0, t1) = if swap {
                (ty, tx)
            } else {
                (tx, ty)
            };
            let one: Rational = Rational::from_i64(1);
            let rest: Rational = one.sub(&t0);
            assert(rest@.num == t0@.den - t0@.num) by {
                assert(rest@.num == 1 * t0@.den - t0@.num * 1);
            }
            let t: Rational = t1.sub(&t0).div(&rest);
            let (pa0, pb0, pc0) = split(&t0, p0, p1, p2);
            let (pa1, pb1, pc1) = split(&t, &pb0, &pc0, p2);
            path.quad_to(pa0, pb0);
            path.quad_to(pa1, pb1);
            path.quad_to(pc1, p2.copy());
            assert(path@ =~= old(path)@ + monotone_pieces(p0@, p1@, p2@));
        },
        (Some(t), None) => {
            let (pa, pb, pc) = split(&t, p0, p1, p2);
            path.quad_to(pa, pb);
            path.quad_to(pc, p2.copy());
            assert(path@ =~= old(path)@ + monotone_pieces(p0@, p1@, p2@));
        },
        (None, Some(t)) => {
            let (pa, pb, pc) = split(&t, p0, p1, p2);
            path.quad_to(pa, pb);
            path.quad_to(pc, p2.copy());
            assert(path@ =~= old(path)@ + monotone_pieces(p0@, p1@, p2@));
        },
        (None, None) => {
            path.quad_to(p1.copy(), p2.copy());
            assert(path@ =~= old(path)@ + monotone_pieces(p0@, p1@, p2@));
        },
    }
}

} // verus!
