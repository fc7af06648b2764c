//! Standing in for a cubic curve by lines or by quadratic curves.

use vstd::prelude::*;
use crate::rational::{Frac, Rational};
use crate::point::{Point, Spot};
use crate::path::{views, BezPath, El, PathEl};
use crate::splitter::{monotone_pieces, split_quad};
use crate::laws::{
    asks_outside, ends_at, lemma_cubic_pieces_no_cubic, lemma_rewrite_keeps_ends, no_cubic,
};
use crate::rewrite::{made_for, setting_out, walk, Treatment};

verus! {

/// How a cubic curve is approximated, as contracts speak of it.
pub enum Strategy {
    Linear,
    Flatten(Frac),
    Midpoint,
    Lyon(Frac),
}

/// How a cubic curve is approximated.
#[derive(Debug)]
pub enum CubicApprox {
    /// One line to the end point of the curve.
    Linear,
    /// The lines of a flattener, which keeps within the tolerance given.
    Flatten(Rational),
    /// One or two quadratic curves, found without a tolerance.
    Midpoint,
    /// The quadratic curves of a decomposer, which keeps within the
    /// tolerance given.
    Lyon(Rational),
}

impl View for CubicApprox {
    type V = Strategy;

    open spec fn view(&self) -> Strategy {
        match *self {
            CubicApprox::Linear => Strategy::Linear,
            CubicApprox::Flatten(tolerance) => Strategy::Flatten(tolerance@),
            CubicApprox::Midpoint => Strategy::Midpoint,
            CubicApprox::Lyon(tolerance) => Strategy::Lyon(tolerance@),
        }
    }
}

/// A quadratic curve with its start point, as contracts speak of it.
pub struct Quad {
    pub from: Spot,
    pub ctrl: Spot,
    pub to: Spot,
}

/// A quadratic curve with its start point.
#[derive(Debug)]
pub struct QuadSegment {
    pub from: Point,
    pub ctrl: Point,
    pub to: Point,
}

impl View for QuadSegment {
    type V = Quad;

    open spec fn view(&self) -> Quad {
        Quad { from: self.from@, ctrl: self.ctrl@, to: self.to@ }
    }
}

/// The curves of `v`, each by its view.
pub open spec fn quad_views(v: Seq<QuadSegment>) -> Seq<Quad> {
    Seq::new(v.len(), |i: int| v[i]@)
}

/// What a flattener or a decomposer made of one cubic curve, as contracts
/// speak of it.
pub enum Pieces {
    Polyline(Seq<El>),
    Quadratics(Seq<Quad>),
}

/// What a flattener or a decomposer made of one cubic curve.
#[derive(Debug)]
pub enum Decomposition {
    /// The elements that a flattener handed out, in order.
    Polyline(Vec<PathEl>),
    /// The curves that a decomposer handed out, in order.
    Quadratics(Vec<QuadSegment>),
}

impl View for Decomposition {
    type V = Pieces;

    open spec fn view(&self) -> Pieces {
        match *self {
            Decomposition::Polyline(lines) => Pieces::Polyline(views(lines@)),
            Decomposition::Quadratics(quads) => Pieces::Quadratics(quad_views(quads@)),
        }
    }
}

/// The decompositions of `v`, each by its view.
pub open spec fn pieces_views(v: Seq<Decomposition>) -> Seq<Pieces> {
    Seq::new(v.len(), |i: int| v[i]@)
}

/// Three quarters: how far along each outer leg the control points of the
/// two quadratic curves lie.
pub open spec fn three_quarters() -> Frac {
    Frac { num: 3, den: 4 }
}

/// The line elements among the first `n` elements of a flattener: its
/// opening move, and whatever else is no line, is left out.
pub open spec fn polyline_prefix(lines: Seq<El>, n: nat) -> Seq<El>
    decreases n,
{
    if n == 0 {
        Seq::empty()
    } else {
        let before = polyline_prefix(lines, (n - 1) as nat);
        match lines[n - 1] {
            El::LineTo(p) => before.push(El::LineTo(p)),
            _ => before,
        }
    }
}

/// The line elements that stand for a cubic curve after flattening.
pub open spec fn polyline_pieces(lines: Seq<El>) -> Seq<El> {
    polyline_prefix(lines, lines.len())
}

/// The monotone pieces of the first `n` curves of a decomposer.
pub open spec fn quadratic_prefix(quads: Seq<Quad>, n: nat) -> Seq<El>
    decreases n,
{
    if n == 0 {
        Seq::empty()
    } else {
        let q = quads[n - 1];
        quadratic_prefix(quads, (n - 1) as nat) + monotone_pieces(q.from, q.ctrl, q.to)
    }
}

/// The quadratic elements that stand for a cubic curve after decomposition:
/// the monotone pieces of each curve, in order.
pub open spec fn quadratic_pieces(quads: Seq<Quad>) -> Seq<El> {
    quadratic_prefix(quads, quads.len())
}

/// The quadratic elements that stand for the cubic curve from `p0` by the
/// control points `p1` and `p2` to `p3` without a tolerance. Where a
/// control point sits on its end point, the other three points make one
/// quadratic curve. Otherwise two curves meet halfway between the points
/// three quarters of the way along the two outer legs.
pub open spec fn midpoint_pieces(p0: Spot, p1: Spot, p2: Spot, p3: Spot) -> Seq<El> {
    if p0.same(p1) {
        monotone_pieces(p0, p2, p3)
    } else if p2.same(p3) {
        monotone_pieces(p0, p1, p3)
    } else {
        let p_ca = p0.lerp(p1, three_quarters());
        let p_cb = p3.lerp(p2, three_quarters());
        let p_m = p_ca.midpoint(p_cb);
        monotone_pieces(p0, p_ca, p_m) + monotone_pieces(p_m, p_cb, p3)
    }
}

/// The elements that stand for the cubic curve from `p0` by `p1` and `p2`
/// to `p3` under the strategy given. `made` is what the flattener or the
/// decomposer made of this curve; it is read only where the strategy calls
/// for one of them, and then it must be of that one.
pub open spec fn cubic_pieces(
    p0: Spot,
    p1: Spot,
    p2: Spot,
    p3: Spot,
    strategy: Strategy,
    made: Option<Pieces>,
) -> Seq<El> {
    match strategy {
        Strategy::Linear => seq![El::LineTo(p3)],
        Strategy::Midpoint => midpoint_pieces(p0, p1, p2, p3),
        Strategy::Flatten(_) => match made {
            Some(Pieces::Polyline(lines)) => polyline_pieces(lines),
            _ => Seq::empty(),
        },
        Strategy::Lyon(_) => match made {
            Some(Pieces::Quadratics(quads)) => quadratic_pieces(quads),
            _ => Seq::empty(),
        },
    }
}

/// The strategy finds in `made` what it needs: a polyline for flattening,
/// quadratic curves for decomposition, and nothing for the other two.
pub open spec fn serves(strategy: Strategy, made: Option<Pieces>) -> bool {
    match strategy {
        Strategy::Linear => true,
        Strategy::Midpoint => true,
        Strategy::Flatten(_) => made matches Some(Pieces::Polyline(_)),
        Strategy::Lyon(_) => made matches Some(Pieces::Quadratics(_)),
    }
}

/// The view of a decomposition that may be missing.
pub open spec fn made_view(made: Option<&Decomposition>) -> Option<Pieces> {
    match made {
        Some(d) => Some(d@),
        None => None,
    }
}

/// Appends the one or two quadratic curves, each split into monotone
/// pieces, that stand for a cubic curve without a tolerance.
pub fn approximate_midpoint(path: &mut BezPath, p0: &Point, p1: &Point, p2: &Point, p3: &Point)
    ensures
        final(path)@ == old(path)@ + midpoint_pieces(p0@, p1@, p2@, p3@),
        p0@.same(p1@) ==> final(path)@ == old(path)@ + monotone_pieces(p0@, p2@, p3@),
        !p0@.same(p1@) && p2@.same(p3@) ==> final(path)@ == old(path)@ + monotone_pieces(
            p0@,
            p1@,
            p3@,
        ),
{
    if p0.equals(p1) {
        split_quad(path, p0, p2, p3);
    } else if p2.equals(p3) {
        split_quad(path, p0, p1, p3);
    } else {
        let three: Rational = Rational::from_i64(3);
        let four: Rational = Rational::from_i64(4);
        let t: Rational = three.div(&four);
        assert(t@ == three_quarters());
        let p_ca: Point = p0.lerp(p1, &t);
        let p_cb: Point = p3.lerp(p2, &t);
        let p_m: Point = p_ca.midpoint(&p_cb);
        split_quad(path, p0, &p_ca, &p_m);
        split_quad(path, &p_m, &p_cb, p3);
        assert(path@ =~= old(path)@ + midpoint_pieces(p0@, p1@, p2@, p3@));
    }
}

/// Appends the lines that a flattener made of a cubic curve. Its opening
/// move is left out: the path is already at the start of the curve.
pub fn emit_polyline(path: &mut BezPath, lines: &Vec<PathEl>)
    ensures
        final(path)@ == old(path)@ + polyline_pieces(views(lines@)),
{
    let mut i: usize = 0;
    while i < lines.len()
        invariant
            i <= lines.len(),
            path@ == old(path)@ + polyline_prefix(views(lines@), i as nat),
        decreases lines.len() - i,
    {
        match &lines[i] {
            PathEl::LineTo(p) => {
                path.line_to(p.copy());
            },
            _ => {},
        }
        assert(path@ =~= old(path)@ + polyline_prefix(views(lines@), (i + 1) as nat));
        i += 1;
    }
}

/// Appends the monotone pieces of each curve that a decomposer made of a
/// cubic curve.
pub fn emit_quadratics(path: &mut BezPath, quads: &Vec<QuadSegment>)
    ensures
        final(path)@ == old(path)@ + quadratic_pieces(quad_views(quads@)),
{
    let mut i: usize = 0;
    while i < quads.len()
        invariant
            i <= quads.len(),
            path@ == old(path)@ + quadratic_prefix(quad_views(quads@), i as nat),
        decreases quads.len() - i,
    {
        let q: &QuadSegment = &quads[i];
        split_quad(path, &q.from, &q.ctrl, &q.to);
        assert(path@ =~= old(path)@ + quadratic_prefix(quad_views(quads@), (i + 1) as nat));
        i += 1;
    }
}

/// Appends the elements that stand for one cubic curve under the strategy
/// given. `made` is what the flattener or the decomposer made of this
/// curve; the other two strategies do not read it. No element appended is
/// a cubic curve; and the last of them ends at `p3`, if what was made
/// outside ends there.
pub fn approximate_cubic(
    path: &mut BezPath,
    p0: &Point,
    p1: &Point,
    p2: &Point,
    p3: &Point,
    cubic_approx: &CubicApprox,
    made: Option<&Decomposition>,
)
    requires
        serves(cubic_approx@, made_view(made)),
    ensures
        final(path)@ == old(path)@ + cubic_pieces(
            p0@,
            p1@,
            p2@,
            p3@,
            cubic_approx@,
            made_view(made),
        ),
        no_cubic(cubic_pieces(p0@, p1@, p2@, p3@, cubic_approx@, made_view(made))),
        (asks_outside(cubic_approx@) ==> ends_at(made_view(made), p3@)) ==> walk(
            setting_out(p0@),
            cubic_pieces(p0@, p1@, p2@, p3@, cubic_approx@, made_view(made)),
            cubic_pieces(p0@, p1@, p2@, p3@, cubic_approx@, made_view(made)).len(),
        ).current == p3@,
{
    proof {
        let c = setting_out(p0@);
        let el = El::CurveTo(p1@, p2@, p3@);
        let made_seq = match made_view(made) {
            Some(m) => seq![m],
            None => Seq::empty(),
        };
        lemma_cubic_pieces_no_cubic(p0@, p1@, p2@, p3@, cubic_approx@, made_view(made));
        assert(made_for(made_seq, 0) == made_view(made));
        if !asks_outside(cubic_approx@) || ends_at(made_view(made), p3@) {
            lemma_rewrite_keeps_ends(c, el, Treatment::Break(cubic_approx@, made_seq), 0);
        }
    }
    match cubic_approx {
        CubicApprox::Linear => {
            path.line_to(p3.copy());
            assert(path@ =~= old(path)@ + seq![El::LineTo(p3@)]);
        },
        CubicApprox::Midpoint => {
            approximate_midpoint(path, p0, p1, p2, p3);
        },
        CubicApprox::Flatten(_) => {
            match made {
                Some(Decomposition::Polyline(lines)) => {
                    emit_polyline(path, lines);
                },
                _ => {},
            }
        },
        CubicApprox::Lyon(_) => {
            match made {
                Some(Decomposition::Quadratics(quads)) => {
                    emit_quadratics(path, quads);
                },
                _ => {},
            }
        },
    }
}

} // verus!
