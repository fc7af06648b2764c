//! What holds of every split and of every rewritten path.

use vstd::prelude::*;
use crate::rational::Frac;
use crate::point::{halfway, lerp, Spot};
use crate::path::{all_wf, El};
use crate::exact::{
    lemma_halves_run_along, lemma_lerp_wf, lemma_thirds_run_along, lemma_whole_runs_along,
    runs_along,
};
use crate::splitter::{
    axis_turn, breaks, monotone_pieces, outside_span, rescaled, split_at, three_pieces,
    turning_parameter, two_pieces,
};
use crate::monotone::{
    lemma_split_at_turn, lemma_split_before_turn, lemma_split_keeps_monotone,
    lemma_turn_inside, within_span,
};
use crate::approx::{
    cubic_pieces, midpoint_pieces, polyline_pieces, polyline_prefix, quadratic_prefix, serves,
    three_quarters, Pieces, Quad, Strategy,
};
use crate::rewrite::{
    advance, broken, cubics_prefix, cursor_at, made_for, outset, rewrite_element, rewritten,
    rewritten_prefix, walk, Cursor, Treatment,
};

verus! {

/// The control point of the curve lies, along each axis, in the closed span
/// of its two end points: the curve does not turn back along either axis.
pub open spec fn quad_monotone(from: Spot, ctrl: Spot, to: Spot) -> bool {
    within_span(from.x, ctrl.x, to.x) && within_span(from.y, ctrl.y, to.y)
}

/// Every quadratic curve of a run that is walked from the cursor `c` is
/// monotone.
pub open spec fn quads_monotone(c: Cursor, run: Seq<El>) -> bool {
    forall|j: int|
        0 <= j < run.len() ==> (#[trigger] run[j] matches El::QuadTo(ctrl, to) ==> quad_monotone(
            walk(c, run, j as nat).current,
            ctrl,
            to,
        ))
}

/// A value that does not lie outside a span lies within it.
pub proof fn lemma_within_or_outside(a0: Frac, a1: Frac, a2: Frac)
    ensures
        within_span(a0, a1, a2) <==> !outside_span(a0, a1, a2),
{
}

/// A curve that turns back along one axis only, split at the turning
/// parameter of that axis, leaves two monotone halves.
proof fn lemma_two_pieces_monotone(t: Frac, p0: Spot, p1: Spot, p2: Spot)
    requires
        p0.wf(),
        p1.wf(),
        p2.wf(),
        (axis_turn(p0.x, p1.x, p2.x) == Some(t) && axis_turn(p0.y, p1.y, p2.y) is None) || (
        axis_turn(p0.y, p1.y, p2.y) == Some(t) && axis_turn(p0.x, p1.x, p2.x) is None),
    ensures
        ({
            let (pa, pb, pc) = split_at(t, p0, p1, p2);
            quad_monotone(p0, pa, pb) && quad_monotone(pb, pc, p2)
        }),
{
    if axis_turn(p0.x, p1.x, p2.x) is Some {
        lemma_turn_inside(p0.x, p1.x, p2.x);
        lemma_split_at_turn(p0.x, p1.x, p2.x);
        lemma_within_or_outside(p0.y, p1.y, p2.y);
        lemma_split_keeps_monotone(p0.y, p1.y, p2.y, t);
    } else {
        lemma_turn_inside(p0.y, p1.y, p2.y);
        lemma_split_at_turn(p0.y, p1.y, p2.y);
        lemma_within_or_outside(p0.x, p1.x, p2.x);
        lemma_split_keeps_monotone(p0.x, p1.x, p2.x, t);
    }
}

/// One axis of a curve that turns back along both: `a` is the axis that
/// turns first, at `t0`, and `b` the axis that turns at `t1`.
proof fn lemma_three_pieces_axes(a0: Frac, a1: Frac, a2: Frac, b0: Frac, b1: Frac, b2: Frac)
    requires
        a0.wf(),
        a1.wf(),
        a2.wf(),
        b0.wf(),
        b1.wf(),
        b2.wf(),
        outside_span(a0, a1, a2),
        outside_span(b0, b1, b2),
        turning_parameter(a0, a1, a2).at_most(turning_parameter(b0, b1, b2)),
    ensures
        ({
            let t0 = turning_parameter(a0, a1, a2);
            let t1 = turning_parameter(b0, b1, b2);
            let t = rescaled(t0, t1);
            let aa0 = lerp(a0, a1, t0);
            let ac0 = lerp(a1, a2, t0);
            let ab0 = lerp(aa0, ac0, t0);
            let aa1 = lerp(ab0, ac0, t);
            let ac1 = lerp(ac0, a2, t);
            let ab1 = lerp(aa1, ac1, t);
            let ba0 = lerp(b0, b1, t0);
            let bc0 = lerp(b1, b2, t0);
            let bb0 = lerp(ba0, bc0, t0);
            let ba1 = lerp(bb0, bc0, t);
            let bc1 = lerp(bc0, b2, t);
            let bb1 = lerp(ba1, bc1, t);
            &&& within_span(a0, aa0, ab0)
            &&& within_span(ab0, aa1, ab1)
            &&& within_span(ab1, ac1, a2)
            &&& within_span(b0, ba0, bb0)
            &&& within_span(bb0, ba1, bb1)
            &&& within_span(bb1, bc1, b2)
        }),
{
    let t0 = turning_parameter(a0, a1, a2);
    let t1 = turning_parameter(b0, b1, b2);
    let t = rescaled(t0, t1);
    lemma_turn_inside(a0, a1, a2);
    lemma_turn_inside(b0, b1, b2);
    // the axis that turns at the second split
    lemma_split_before_turn(b0, b1, b2, t0);
    // the axis that turns at the first split does not turn in what is left
    lemma_split_at_turn(a0, a1, a2);
    let aa0 = lerp(a0, a1, t0);
    let ac0 = lerp(a1, a2, t0);
    let ab0 = lerp(aa0, ac0, t0);
    lemma_lerp_wf(a0, a1, t0);
    lemma_lerp_wf(a1, a2, t0);
    lemma_lerp_wf(aa0, ac0, t0);
    lemma_split_keeps_monotone(ab0, ac0, a2, t);
}

/// A curve that turns back along both axes, split at the two turning
/// parameters in the order of their size, leaves three monotone parts.
proof fn lemma_three_pieces_monotone(tx: Frac, ty: Frac, p0: Spot, p1: Spot, p2: Spot)
    requires
        p0.wf(),
        p1.wf(),
        p2.wf(),
        axis_turn(p0.x, p1.x, p2.x) == Some(tx),
        axis_turn(p0.y, p1.y, p2.y) == Some(ty),
    ensures
        ({
            let run = three_pieces(tx, ty, p0, p1, p2);
            &&& run.len() == 3
            &&& run[0] matches El::QuadTo(c0, e0) && run[1] matches El::QuadTo(c1, e1) && run[2]
                matches El::QuadTo(c2, e2) && quad_monotone(p0, c0, e0) && quad_monotone(e0, c1, e1)
                && quad_monotone(e1, c2, e2) && e2 == p2
        }),
{
    if ty.less(tx) {
        lemma_three_pieces_axes(p0.y, p1.y, p2.y, p0.x, p1.x, p2.x);
    } else {
        lemma_three_pieces_axes(p0.x, p1.x, p2.x, p0.y, p1.y, p2.y);
    }
}

/// The shape of the pieces: one to three quadratic curves, the last of
/// which ends where the given curve ends, so that a walk over them ends
/// there too, wherever it began.
pub proof fn lemma_pieces_shape(c: Cursor, p0: Spot, p1: Spot, p2: Spot)
    ensures
        1 <= monotone_pieces(p0, p1, p2).len() <= 3,
        forall|j: int|
            0 <= j < monotone_pieces(p0, p1, p2).len() ==> #[trigger] monotone_pieces(
                p0,
                p1,
                p2,
            )[j] is QuadTo,
        walk(c, monotone_pieces(p0, p1, p2), monotone_pieces(p0, p1, p2).len()) == (Cursor {
            current: p2,
            start: c.start,
        }),
{
    let run = monotone_pieces(p0, p1, p2);
    reveal_with_fuel(walk, 4);
    match (axis_turn(p0.x, p1.x, p2.x), axis_turn(p0.y, p1.y, p2.y)) {
        (Some(tx), Some(ty)) => {
            assert(run == three_pieces(tx, ty, p0, p1, p2));
            assert(walk(c, run, 3) == advance(walk(c, run, 2), run[2]));
        },
        (Some(t), None) => {
            assert(run == two_pieces(t, p0, p1, p2));
            assert(walk(c, run, 2) == advance(walk(c, run, 1), run[1]));
        },
        (None, Some(t)) => {
            assert(run == two_pieces(t, p0, p1, p2));
            assert(walk(c, run, 2) == advance(walk(c, run, 1), run[1]));
        },
        (None, None) => {
            assert(walk(c, run, 1) == advance(c, run[0]));
        },
    }
}

/// Monotonicity of the pieces: every quadratic curve that stands for a
/// given one after splitting has its control point, along each axis, in the
/// closed span of its end points.
pub proof fn lemma_pieces_monotone(c: Cursor, p1: Spot, p2: Spot)
    requires
        c.current.wf(),
        p1.wf(),
        p2.wf(),
    ensures
        quads_monotone(c, monotone_pieces(c.current, p1, p2)),
{
    let p0 = c.current;
    let run = monotone_pieces(p0, p1, p2);
    reveal_with_fuel(walk, 4);
    match (axis_turn(p0.x, p1.x, p2.x), axis_turn(p0.y, p1.y, p2.y)) {
        (Some(tx), Some(ty)) => {
            lemma_three_pieces_monotone(tx, ty, p0, p1, p2);
            assert(walk(c, run, 0) == c);
            assert(walk(c, run, 1) == advance(c, run[0]));
            assert(walk(c, run, 2) == advance(walk(c, run, 1), run[1]));
        },
        (Some(t), None) => {
            lemma_two_pieces_monotone(t, p0, p1, p2);
            assert(run == two_pieces(t, p0, p1, p2));
            assert(walk(c, run, 0) == c);
            assert(walk(c, run, 1) == advance(c, run[0]));
        },
        (None, Some(t)) => {
            lemma_two_pieces_monotone(t, p0, p1, p2);
            assert(run == two_pieces(t, p0, p1, p2));
            assert(walk(c, run, 0) == c);
            assert(walk(c, run, 1) == advance(c, run[0]));
        },
        (None, None) => {
            lemma_within_or_outside(p0.x, p1.x, p2.x);
            lemma_within_or_outside(p0.y, p1.y, p2.y);
            assert(walk(c, run, 0) == c);
        },
    }
}

/// The pieces of the curve from the cursor by `p1` to `p2` are that curve
/// cut at its turning parameters: there is one piece between each two
/// parameters of `breaks`, and it is the part of the curve between them.
pub open spec fn pieces_exact(c: Cursor, p1: Spot, p2: Spot) -> bool {
    let run = monotone_pieces(c.current, p1, p2);
    let cuts = breaks(c.current, p1, p2);
    &&& cuts.len() == run.len() + 1
    &&& forall|j: int|
        0 <= j < run.len() ==> (#[trigger] run[j] matches El::QuadTo(ctrl, to) && runs_along(
            walk(c, run, j as nat).current,
            ctrl,
            to,
            cuts[j],
            cuts[j + 1],
            c.current,
            p1,
            p2,
        ))
}

/// Exactness of the pieces: joined, the pieces of a curve are the curve
/// itself. Each piece is the part of the curve between two of its turning
/// parameters, the first begins at zero, and the last ends at one.
pub proof fn lemma_pieces_exact(c: Cursor, p1: Spot, p2: Spot)
    requires
        c.current.wf(),
        p1.wf(),
        p2.wf(),
    ensures
        pieces_exact(c, p1, p2),
        breaks(c.current, p1, p2)[0] == Frac::whole(0),
        breaks(c.current, p1, p2).last() == Frac::whole(1),
{
    let p0 = c.current;
    let run = monotone_pieces(p0, p1, p2);
    reveal_with_fuel(walk, 4);
    match (axis_turn(p0.x, p1.x, p2.x), axis_turn(p0.y, p1.y, p2.y)) {
        (Some(tx), Some(ty)) => {
            lemma_turn_inside(p0.x, p1.x, p2.x);
            lemma_turn_inside(p0.y, p1.y, p2.y);
            if ty.less(tx) {
                lemma_thirds_run_along(ty, tx, p0, p1, p2);
            } else {
                lemma_thirds_run_along(tx, ty, p0, p1, p2);
            }
            assert(walk(c, run, 0) == c);
            assert(walk(c, run, 1) == advance(c, run[0]));
            assert(walk(c, run, 2) == advance(walk(c, run, 1), run[1]));
        },
        (Some(t), None) => {
            lemma_turn_inside(p0.x, p1.x, p2.x);
            lemma_halves_run_along(t, p0, p1, p2);
            assert(run == two_pieces(t, p0, p1, p2));
            assert(walk(c, run, 0) == c);
            assert(walk(c, run, 1) == advance(c, run[0]));
        },
        (None, Some(t)) => {
            lemma_turn_inside(p0.y, p1.y, p2.y);
            lemma_halves_run_along(t, p0, p1, p2);
            assert(run == two_pieces(t, p0, p1, p2));
            assert(walk(c, run, 0) == c);
            assert(walk(c, run, 1) == advance(c, run[0]));
        },
        (None, None) => {
            lemma_whole_runs_along(p0, p1, p2);
            assert(walk(c, run, 0) == c);
        },
    }
}

/// A curve that is monotone already is left as it is: where the control
/// point lies within the span of the end points along both axes, the curve
/// is its own single piece.
pub proof fn lemma_monotone_unchanged(p0: Spot, p1: Spot, p2: Spot)
    requires
        quad_monotone(p0, p1, p2),
    ensures
        monotone_pieces(p0, p1, p2) == seq![El::QuadTo(p1, p2)],
{
    lemma_within_or_outside(p0.x, p1.x, p2.x);
    lemma_within_or_outside(p0.y, p1.y, p2.y);
}

/// A cubic curve whose first control point sits on its start point is
/// taken, without a tolerance, for the quadratic curve of the other three
/// points.
pub proof fn lemma_first_handle_collapsed(p0: Spot, p1: Spot, p2: Spot, p3: Spot)
    requires
        p0.same(p1),
    ensures
        midpoint_pieces(p0, p1, p2, p3) == monotone_pieces(p0, p2, p3),
        cubic_pieces(p0, p1, p2, p3, Strategy::Midpoint, None) == monotone_pieces(p0, p2, p3),
{
}

/// A cubic curve whose second control point sits on its end point, and
/// whose first does not sit on its start point, is taken, without a
/// tolerance, for the quadratic curve of the other three points.
pub proof fn lemma_second_handle_collapsed(p0: Spot, p1: Spot, p2: Spot, p3: Spot)
    requires
        p2.same(p3),
        !p0.same(p1),
    ensures
        midpoint_pieces(p0, p1, p2, p3) == monotone_pieces(p0, p1, p3),
        cubic_pieces(p0, p1, p2, p3, Strategy::Midpoint, None) == monotone_pieces(p0, p1, p3),
{
}

/// A walk over the first elements of a run does not look at what follows.
pub proof fn lemma_walk_prefix(c: Cursor, a: Seq<El>, b: Seq<El>, j: nat)
    requires
        j <= a.len(),
    ensures
        walk(c, a + b, j) == walk(c, a, j),
    decreases j,
{
    if j > 0 {
        lemma_walk_prefix(c, a, b, (j - 1) as nat);
    }
}

/// A walk over two runs on end is a walk over the second from where the
/// walk over the first ends.
pub proof fn lemma_walk_concat(c: Cursor, a: Seq<El>, b: Seq<El>, j: nat)
    requires
        j <= b.len(),
    ensures
        walk(c, a + b, a.len() + j) == walk(walk(c, a, a.len()), b, j),
    decreases j,
{
    if j == 0 {
        lemma_walk_prefix(c, a, b, a.len());
    } else {
        lemma_walk_concat(c, a, b, (j - 1) as nat);
        assert((a + b)[a.len() + j - 1] == b[j - 1]);
    }
}

/// No element of the run is a cubic curve.
pub open spec fn no_cubic(run: Seq<El>) -> bool {
    forall|j: int| 0 <= j < run.len() ==> !(#[trigger] run[j] is CurveTo)
}

/// Every element of the run is a line.
pub open spec fn only_lines(run: Seq<El>) -> bool {
    forall|j: int| 0 <= j < run.len() ==> #[trigger] run[j] is LineTo
}

/// Every element of the run is a quadratic curve.
pub open spec fn only_quads(run: Seq<El>) -> bool {
    forall|j: int| 0 <= j < run.len() ==> #[trigger] run[j] is QuadTo
}

/// Of what a flattener hands out, lines alone are taken.
pub proof fn lemma_polyline_only_lines(lines: Seq<El>, n: nat)
    ensures
        only_lines(polyline_prefix(lines, n)),
    decreases n,
{
    if n > 0 {
        lemma_polyline_only_lines(lines, (n - 1) as nat);
    }
}

/// What a decomposer hands out becomes quadratic curves alone.
pub proof fn lemma_quadratics_only_quads(quads: Seq<Quad>, n: nat)
    ensures
        only_quads(quadratic_prefix(quads, n)),
    decreases n,
{
    if n > 0 {
        lemma_quadratics_only_quads(quads, (n - 1) as nat);
        let q = quads[n - 1];
        lemma_pieces_shape(outset(), q.from, q.ctrl, q.to);
    }
}

/// Whatever the strategy, what stands for a cubic curve holds no cubic curve.
pub proof fn lemma_cubic_pieces_no_cubic(
    p0: Spot,
    p1: Spot,
    p2: Spot,
    p3: Spot,
    strategy: Strategy,
    made: Option<Pieces>,
)
    ensures
        no_cubic(cubic_pieces(p0, p1, p2, p3, strategy, made)),
{
    match strategy {
        Strategy::Linear => {},
        Strategy::Midpoint => {
            lemma_pieces_shape(outset(), p0, p2, p3);
            lemma_pieces_shape(outset(), p0, p1, p3);
            let p_ca = p0.lerp(p1, three_quarters());
            let p_cb = p3.lerp(p2, three_quarters());
            let p_m = p_ca.midpoint(p_cb);
            lemma_pieces_shape(outset(), p0, p_ca, p_m);
            lemma_pieces_shape(outset(), p_m, p_cb, p3);
        },
        Strategy::Flatten(_) => {
            match made {
                Some(Pieces::Polyline(lines)) => {
                    lemma_polyline_only_lines(lines, lines.len());
                },
                _ => {},
            }
        },
        Strategy::Lyon(_) => {
            match made {
                Some(Pieces::Quadratics(quads)) => {
                    lemma_quadratics_only_quads(quads, quads.len());
                },
                _ => {},
            }
        },
    }
}

/// No cubic curve is left among the first elements of a broken path.
pub proof fn lemma_broken_prefix_no_cubic(
    els: Seq<El>,
    strategy: Strategy,
    made: Seq<Pieces>,
    n: nat,
)
    ensures
        no_cubic(rewritten_prefix(els, Treatment::Break(strategy, made), n)),
    decreases n,
{
    if n > 0 {
        lemma_broken_prefix_no_cubic(els, strategy, made, (n - 1) as nat);
        let current = cursor_at(els, (n - 1) as nat).current;
        let k = cubics_prefix(els, (n - 1) as nat).len();
        match els[n - 1] {
            El::QuadTo(c, p) => {
                lemma_pieces_shape(outset(), current, c, p);
            },
            El::CurveTo(c1, c2, p) => {
                lemma_cubic_pieces_no_cubic(current, c1, c2, p, strategy, made_for(made, k));
            },
            _ => {},
        }
    }
}

/// Cubic curves are done away with: whatever the path, the strategy and the
/// decompositions handed in, the broken path holds no cubic curve.
pub proof fn lemma_no_cubic_left(els: Seq<El>, strategy: Strategy, made: Seq<Pieces>)
    ensures
        no_cubic(broken(els, strategy, made)),
{
    lemma_broken_prefix_no_cubic(els, strategy, made, els.len());
}

/// A walk over well-formed elements stands at well-formed points.
pub proof fn lemma_walk_wf(c: Cursor, run: Seq<El>, n: nat)
    requires
        c.current.wf(),
        c.start.wf(),
        all_wf(run),
        n <= run.len(),
    ensures
        walk(c, run, n).current.wf(),
        walk(c, run, n).start.wf(),
    decreases n,
{
    if n > 0 {
        lemma_walk_wf(c, run, (n - 1) as nat);
        assert(run[n - 1].wf());
    }
}

/// Monotonicity, along a run: where the first run holds monotone quadratic
/// curves only, and so does the second when walked from the end of the
/// first, the two on end do too.
pub proof fn lemma_quads_monotone_concat(c: Cursor, a: Seq<El>, b: Seq<El>)
    requires
        quads_monotone(c, a),
        quads_monotone(walk(c, a, a.len()), b),
    ensures
        quads_monotone(c, a + b),
{
    let run = a + b;
    assert forall|j: int| 0 <= j < run.len() implies (#[trigger] run[j] matches El::QuadTo(
        ctrl,
        to,
    ) ==> quad_monotone(walk(c, run, j as nat).current, ctrl, to)) by {
        if j < a.len() {
            lemma_walk_prefix(c, a, b, j as nat);
            assert(run[j] == a[j]);
        } else {
            lemma_walk_concat(c, a, b, (j - a.len()) as nat);
            assert(run[j] == b[j - a.len()]);
        }
    }
}

/// The point at which a line or a curve ends.
pub open spec fn end_of(el: El) -> Spot {
    match el {
        El::MoveTo(p) => p,
        El::LineTo(p) => p,
        El::QuadTo(_, p) => p,
        El::CurveTo(_, _, p) => p,
        El::ClosePath => Spot::origin(),
    }
}

/// Every element of the run is a line or a curve.
pub open spec fn only_segments(run: Seq<El>) -> bool {
    forall|j: int|
        0 <= j < run.len() ==> (#[trigger] run[j] is LineTo || run[j] is QuadTo || run[j]
            is CurveTo)
}

/// A walk over lines and curves keeps the start of the subpath and stands
/// at the end of the last element walked over.
pub proof fn lemma_walk_segments(c: Cursor, run: Seq<El>, n: nat)
    requires
        only_segments(run),
        n <= run.len(),
    ensures
        walk(c, run, n).start == c.start,
        n > 0 ==> walk(c, run, n).current == end_of(run[n - 1]),
    decreases n,
{
    if n > 0 {
        lemma_walk_segments(c, run, (n - 1) as nat);
        assert(run[n - 1] is LineTo || run[n - 1] is QuadTo || run[n - 1] is CurveTo);
    }
}

/// What was made of a cubic curve ends at the point `p3`: the last line of
/// a polyline goes there, or the last of the quadratic curves ends there.
pub open spec fn ends_at(made: Option<Pieces>, p3: Spot) -> bool {
    match made {
        Some(Pieces::Polyline(lines)) => polyline_pieces(lines).len() > 0 && polyline_pieces(
            lines,
        ).last() == El::LineTo(p3),
        Some(Pieces::Quadratics(quads)) => quads.len() > 0 && quads.last().to == p3,
        None => false,
    }
}

/// The strategy leaves the approximation to a flattener or a decomposer.
pub open spec fn asks_outside(strategy: Strategy) -> bool {
    strategy is Flatten || strategy is Lyon
}

/// A walk over the monotone pieces of the first `n` curves of a decomposer
/// ends where the last of these curves ends.
pub proof fn lemma_quadratics_walk(c: Cursor, quads: Seq<Quad>, n: nat)
    requires
        n <= quads.len(),
    ensures
        walk(c, quadratic_prefix(quads, n), quadratic_prefix(quads, n).len()) == (if n == 0 {
            c
        } else {
            Cursor { current: quads[n - 1].to, start: c.start }
        }),
    decreases n,
{
    if n > 0 {
        let q = quads[n - 1];
        let before = quadratic_prefix(quads, (n - 1) as nat);
        let step = monotone_pieces(q.from, q.ctrl, q.to);
        lemma_quadratics_walk(c, quads, (n - 1) as nat);
        lemma_pieces_shape(walk(c, before, before.len()), q.from, q.ctrl, q.to);
        lemma_walk_concat(c, before, step, step.len());
    }
}

/// A walk over what the tolerance-free strategy makes of a cubic curve ends
/// where the curve ends.
pub proof fn lemma_midpoint_walk(c: Cursor, p0: Spot, p1: Spot, p2: Spot, p3: Spot)
    ensures
        walk(c, midpoint_pieces(p0, p1, p2, p3), midpoint_pieces(p0, p1, p2, p3).len()) == (Cursor {
            current: p3,
            start: c.start,
        }),
{
    if p0.same(p1) {
        lemma_pieces_shape(c, p0, p2, p3);
    } else if p2.same(p3) {
        lemma_pieces_shape(c, p0, p1, p3);
    } else {
        let p_ca = p0.lerp(p1, three_quarters());
        let p_cb = p3.lerp(p2, three_quarters());
        let p_m = p_ca.midpoint(p_cb);
        let a = monotone_pieces(p0, p_ca, p_m);
        let b = monotone_pieces(p_m, p_cb, p3);
        lemma_pieces_shape(c, p0, p_ca, p_m);
        lemma_pieces_shape(walk(c, a, a.len()), p_m, p_cb, p3);
        lemma_walk_concat(c, a, b, b.len());
    }
}

/// End points are kept: a walk over what an element becomes ends where a
/// walk over the element ends. Of a flattener or a decomposer this asks
/// that what it made of the curve ends where the curve ends.
pub proof fn lemma_rewrite_keeps_ends(c: Cursor, el: El, treatment: Treatment, k: nat)
    requires
        el is CurveTo ==> (treatment matches Treatment::Break(strategy, made) ==> asks_outside(
            strategy,
        ) ==> serves(strategy, made_for(made, k)) && ends_at(made_for(made, k), end_of(el))),
    ensures
        walk(
            c,
            rewrite_element(c.current, el, treatment, k),
            rewrite_element(c.current, el, treatment, k).len(),
        ) == advance(c, el),
{
    let run = rewrite_element(c.current, el, treatment, k);
    match el {
        El::QuadTo(ctrl, to) => {
            lemma_pieces_shape(c, c.current, ctrl, to);
        },
        El::CurveTo(c1, c2, p3) => {
            match treatment {
                Treatment::Keep => {
                    assert(walk(c, run, 0) == c);
                    assert(walk(c, run, 1) == advance(walk(c, run, 0), run[0]));
                },
                Treatment::Break(strategy, made) => {
                    match strategy {
                        Strategy::Linear => {
                            assert(walk(c, run, 0) == c);
                            assert(walk(c, run, 1) == advance(walk(c, run, 0), run[0]));
                        },
                        Strategy::Midpoint => {
                            lemma_midpoint_walk(c, c.current, c1, c2, p3);
                        },
                        Strategy::Flatten(_) => {
                            let lines = made_for(made, k)->0->Polyline_0;
                            lemma_polyline_only_lines(lines, lines.len());
                            lemma_walk_segments(c, run, run.len());
                        },
                        Strategy::Lyon(_) => {
                            let quads = made_for(made, k)->0->Quadratics_0;
                            lemma_quadratics_walk(c, quads, quads.len());
                        },
                    }
                },
            }
        },
        _ => {
            assert(run.len() == 1);
            assert(walk(c, run, 0) == c);
            assert(walk(c, run, 1) == advance(walk(c, run, 0), run[0]));
        },
    }
}

/// The curves of a decomposer are joined end to start, beginning at `p0`.
pub open spec fn quads_chained(quads: Seq<Quad>, p0: Spot) -> bool {
    &&& quads.len() > 0 ==> quads[0].from == p0
    &&& forall|i: int| 0 < i < quads.len() ==> (#[trigger] quads[i]).from == quads[i - 1].to
}

/// Every point of the curves is well formed.
pub open spec fn quads_wf(quads: Seq<Quad>) -> bool {
    forall|i: int|
        0 <= i < quads.len() ==> (#[trigger] quads[i]).from.wf() && quads[i].ctrl.wf()
            && quads[i].to.wf()
}

/// What was made of the cubic curve from `p0` to `p3` fits the curve: it
/// is what the strategy asks for and ends at `p3`; quadratic curves are
/// well formed and joined end to start, beginning at `p0`.
pub open spec fn fits_curve(strategy: Strategy, made: Option<Pieces>, p0: Spot, p3: Spot) -> bool {
    match strategy {
        Strategy::Flatten(_) => made matches Some(Pieces::Polyline(_)) && ends_at(made, p3),
        Strategy::Lyon(_) => made matches Some(Pieces::Quadratics(quads)) && ends_at(made, p3)
            && quads_chained(quads, p0) && quads_wf(quads),
        _ => true,
    }
}

/// What was made of each cubic curve of the path fits that curve.
pub open spec fn decompositions_join(els: Seq<El>, strategy: Strategy, made: Seq<Pieces>) -> bool {
    forall|i: int|
        0 <= i < els.len() ==> (#[trigger] els[i] is CurveTo ==> fits_curve(
            strategy,
            made_for(made, cubics_prefix(els, i as nat).len()),
            cursor_at(els, i as nat).current,
            end_of(els[i]),
        ))
}

/// The monotone pieces of curves that are joined end to start are monotone
/// when walked over from the start of the first.
pub proof fn lemma_quadratics_monotone(c: Cursor, quads: Seq<Quad>, n: nat)
    requires
        c.current.wf(),
        quads_wf(quads),
        quads_chained(quads, c.current),
        n <= quads.len(),
    ensures
        quads_monotone(c, quadratic_prefix(quads, n)),
    decreases n,
{
    if n > 0 {
        let q = quads[n - 1];
        let before = quadratic_prefix(quads, (n - 1) as nat);
        let step = monotone_pieces(q.from, q.ctrl, q.to);
        lemma_quadratics_monotone(c, quads, (n - 1) as nat);
        lemma_quadratics_walk(c, quads, (n - 1) as nat);
        let here = walk(c, before, before.len());
        if n > 1 {
            assert(quads[n - 1].from == quads[n - 2].to);
            assert(quads[n - 2].to.wf());
        }
        assert(here.current == q.from);
        lemma_pieces_monotone(here, q.ctrl, q.to);
        lemma_quads_monotone_concat(c, before, step);
    }
}

/// What the tolerance-free strategy makes of a cubic curve is monotone.
pub proof fn lemma_midpoint_monotone(c: Cursor, p1: Spot, p2: Spot, p3: Spot)
    requires
        c.current.wf(),
        p1.wf(),
        p2.wf(),
        p3.wf(),
    ensures
        quads_monotone(c, midpoint_pieces(c.current, p1, p2, p3)),
{
    let p0 = c.current;
    if p0.same(p1) {
        lemma_pieces_monotone(c, p2, p3);
    } else if p2.same(p3) {
        lemma_pieces_monotone(c, p1, p3);
    } else {
        let t = three_quarters();
        let p_ca = p0.lerp(p1, t);
        let p_cb = p3.lerp(p2, t);
        let p_m = p_ca.midpoint(p_cb);
        lemma_lerp_wf(p0.x, p1.x, t);
        lemma_lerp_wf(p0.y, p1.y, t);
        lemma_lerp_wf(p3.x, p2.x, t);
        lemma_lerp_wf(p3.y, p2.y, t);
        assert(halfway(p_ca.x, p_cb.x).wf() && halfway(p_ca.y, p_cb.y).wf()) by (nonlinear_arith)
            requires
                halfway(p_ca.x, p_cb.x).den == (p_ca.x.den * p_cb.x.den) * 2,
                halfway(p_ca.y, p_cb.y).den == (p_ca.y.den * p_cb.y.den) * 2,
                p_ca.x.den > 0,
                p_cb.x.den > 0,
                p_ca.y.den > 0,
                p_cb.y.den > 0,
        ;
        let a = monotone_pieces(p0, p_ca, p_m);
        let b = monotone_pieces(p_m, p_cb, p3);
        lemma_pieces_monotone(c, p_ca, p_m);
        lemma_pieces_shape(c, p0, p_ca, p_m);
        lemma_pieces_monotone(walk(c, a, a.len()), p_cb, p3);
        lemma_quads_monotone_concat(c, a, b);
    }
}

/// What was made outside of each cubic curve fits that curve, where the
/// treatment reads it.
pub open spec fn treatment_joins(els: Seq<El>, treatment: Treatment) -> bool {
    match treatment {
        Treatment::Keep => true,
        Treatment::Break(strategy, made) => decompositions_join(els, strategy, made),
    }
}

/// What one well-formed element becomes in a walk holds monotone quadratic
/// curves only.
pub proof fn lemma_rewrite_element_monotone(c: Cursor, el: El, treatment: Treatment, k: nat)
    requires
        c.current.wf(),
        el.wf(),
        el is CurveTo ==> (treatment matches Treatment::Break(strategy, made) ==> fits_curve(
            strategy,
            made_for(made, k),
            c.current,
            end_of(el),
        )),
    ensures
        quads_monotone(c, rewrite_element(c.current, el, treatment, k)),
{
    let run = rewrite_element(c.current, el, treatment, k);
    match el {
        El::QuadTo(ctrl, to) => {
            lemma_pieces_monotone(c, ctrl, to);
        },
        El::CurveTo(c1, c2, p3) => {
            match treatment {
                Treatment::Keep => {
                    assert(!(run[0] is QuadTo));
                },
                Treatment::Break(strategy, made) => {
                    match strategy {
                        Strategy::Linear => {
                            assert(!(run[0] is QuadTo));
                        },
                        Strategy::Midpoint => {
                            lemma_midpoint_monotone(c, c1, c2, p3);
                        },
                        Strategy::Flatten(_) => {
                            let lines = made_for(made, k)->0->Polyline_0;
                            lemma_polyline_only_lines(lines, lines.len());
                        },
                        Strategy::Lyon(_) => {
                            let quads = made_for(made, k)->0->Quadratics_0;
                            lemma_quadratics_monotone(c, quads, quads.len());
                        },
                    }
                },
            }
        },
        _ => {
            assert(run.len() == 1);
            assert(!(run[0] is QuadTo));
        },
    }
}

/// End points are kept along a path: a walk over what the first `n`
/// elements of a path become ends where the walk over these elements ends.
pub proof fn lemma_rewritten_cursor(els: Seq<El>, treatment: Treatment, n: nat)
    requires
        treatment_joins(els, treatment),
        n <= els.len(),
    ensures
        walk(
            outset(),
            rewritten_prefix(els, treatment, n),
            rewritten_prefix(els, treatment, n).len(),
        ) == cursor_at(els, n),
    decreases n,
{
    if n > 0 {
        let before = rewritten_prefix(els, treatment, (n - 1) as nat);
        let c = cursor_at(els, (n - 1) as nat);
        let k = cubics_prefix(els, (n - 1) as nat).len();
        let el = els[n - 1];
        let step = rewrite_element(c.current, el, treatment, k);
        lemma_rewritten_cursor(els, treatment, (n - 1) as nat);
        assert(el is CurveTo ==> (treatment matches Treatment::Break(strategy, made) ==> fits_curve(
            strategy,
            made_for(made, k),
            c.current,
            end_of(el),
        )));
        lemma_rewrite_keeps_ends(c, el, treatment, k);
        lemma_walk_concat(outset(), before, step, step.len());
    }
}

/// What the first `n` elements of a well-formed path become in a walk
/// holds monotone quadratic curves only.
pub proof fn lemma_rewritten_prefix_monotone(els: Seq<El>, treatment: Treatment, n: nat)
    requires
        all_wf(els),
        treatment_joins(els, treatment),
        n <= els.len(),
    ensures
        quads_monotone(outset(), rewritten_prefix(els, treatment, n)),
    decreases n,
{
    if n > 0 {
        let before = rewritten_prefix(els, treatment, (n - 1) as nat);
        let c = cursor_at(els, (n - 1) as nat);
        let k = cubics_prefix(els, (n - 1) as nat).len();
        let el = els[n - 1];
        let step = rewrite_element(c.current, el, treatment, k);
        lemma_rewritten_prefix_monotone(els, treatment, (n - 1) as nat);
        lemma_rewritten_cursor(els, treatment, (n - 1) as nat);
        lemma_walk_wf(outset(), els, (n - 1) as nat);
        assert(el.wf());
        assert(el is CurveTo ==> (treatment matches Treatment::Break(strategy, made) ==> fits_curve(
            strategy,
            made_for(made, k),
            c.current,
            end_of(el),
        )));
        lemma_rewrite_element_monotone(c, el, treatment, k);
        lemma_quads_monotone_concat(outset(), before, step);
    }
}

/// The monotonicity of a rewritten path: every quadratic curve of what a
/// well-formed path becomes has its control point, along each axis, in the
/// closed span of its two end points, the first of which is where the walk
/// over the path stands when it comes to the curve. Where cubic curves
/// were broken up outside, this asks that what was made of each fits it.
pub proof fn lemma_rewritten_is_monotone(els: Seq<El>, treatment: Treatment)
    requires
        all_wf(els),
        treatment_joins(els, treatment),
    ensures
        quads_monotone(outset(), rewritten(els, treatment)),
{
    lemma_rewritten_prefix_monotone(els, treatment, els.len());
}

/// Each quadratic curve of the path is cut exactly: its pieces, joined, are
/// the curve from where the walk stands by its control point to its end.
pub open spec fn quads_cut_exactly(els: Seq<El>) -> bool {
    forall|i: int|
        0 <= i < els.len() ==> (#[trigger] els[i] matches El::QuadTo(ctrl, to) ==> pieces_exact(
            cursor_at(els, i as nat),
            ctrl,
            to,
        ))
}

/// Exactness along a path: whatever is made of the quadratic curves of a
/// well-formed path, joined, is these curves.
pub proof fn lemma_quads_cut_exactly(els: Seq<El>)
    requires
        all_wf(els),
    ensures
        quads_cut_exactly(els),
{
    assert forall|i: int| 0 <= i < els.len() implies (#[trigger] els[i] matches El::QuadTo(
        ctrl,
        to,
    ) ==> pieces_exact(cursor_at(els, i as nat), ctrl, to)) by {
        lemma_walk_wf(outset(), els, i as nat);
        assert(els[i].wf());
        match els[i] {
            El::QuadTo(ctrl, to) => {
                lemma_pieces_exact(cursor_at(els, i as nat), ctrl, to);
            },
            _ => {},
        }
    }
}

} // verus!
