//! The two rewriters: one walk over the elements of a path each.

use vstd::prelude::*;
use crate::point::{Point, Spot};
use crate::path::{BezPath, El, PathEl};
use crate::laws::{
    decompositions_join, lemma_no_cubic_left, lemma_quads_cut_exactly, lemma_rewritten_cursor,
    lemma_rewritten_is_monotone, no_cubic, quads_cut_exactly, quads_monotone, treatment_joins,
};
use crate::splitter::{monotone_pieces, split_quad};
use crate::approx::{
    approximate_cubic, cubic_pieces, pieces_views, serves, CubicApprox, Decomposition, Pieces,
    Strategy,
};

verus! {

/// Where a walk stands: the point that the last element ended at, and the
/// point that the subpath began at, to which a close goes back.
pub struct Cursor {
    pub current: Spot,
    pub start: Spot,
}

/// The cursor after one more element.
pub open spec fn advance(c: Cursor, el: El) -> Cursor {
    match el {
        El::MoveTo(p) => Cursor { current: p, start: p },
        El::LineTo(p) => Cursor { current: p, start: c.start },
        El::QuadTo(_, p) => Cursor { current: p, start: c.start },
        El::CurveTo(_, _, p) => Cursor { current: p, start: c.start },
        El::ClosePath => Cursor { current: c.start, start: c.start },
    }
}

/// The cursor after the first `n` elements of a run that is walked from the
/// cursor `c`.
pub open spec fn walk(c: Cursor, els: Seq<El>, n: nat) -> Cursor
    decreases n,
{
    if n == 0 {
        c
    } else {
        advance(walk(c, els, (n - 1) as nat), els[n - 1])
    }
}

/// The cursor of a walk that begins at `p`.
pub open spec fn setting_out(p: Spot) -> Cursor {
    Cursor { current: p, start: p }
}

/// Where the walk over a path begins: at the origin.
pub open spec fn outset() -> Cursor {
    Cursor { current: Spot::origin(), start: Spot::origin() }
}

/// The cursor after the first `n` elements of a path.
pub open spec fn cursor_at(els: Seq<El>, n: nat) -> Cursor {
    walk(outset(), els, n)
}

/// A cubic curve with its start point, as contracts speak of it.
pub struct Cubic {
    pub from: Spot,
    pub ctrl1: Spot,
    pub ctrl2: Spot,
    pub to: Spot,
}

/// A cubic curve with its start point.
#[derive(Debug)]
pub struct CubicSegment {
    pub from: Point,
    pub ctrl1: Point,
    pub ctrl2: Point,
    pub to: Point,
}

impl View for CubicSegment {
    type V = Cubic;

    open spec fn view(&self) -> Cubic {
        Cubic { from: self.from@, ctrl1: self.ctrl1@, ctrl2: self.ctrl2@, to: self.to@ }
    }
}

/// The curves of `v`, each by its view.
pub open spec fn cubic_views(v: Seq<CubicSegment>) -> Seq<Cubic> {
    Seq::new(v.len(), |i: int| v[i]@)
}

/// The cubic curves among the first `n` elements of a path, in order, each
/// with the point at which the walk stands when it comes to the curve.
pub open spec fn cubics_prefix(els: Seq<El>, n: nat) -> Seq<Cubic>
    decreases n,
{
    if n == 0 {
        Seq::empty()
    } else {
        let before = cubics_prefix(els, (n - 1) as nat);
        match els[n - 1] {
            El::CurveTo(c1, c2, p) => before.push(
                Cubic { from: cursor_at(els, (n - 1) as nat).current, ctrl1: c1, ctrl2: c2, to: p },
            ),
            _ => before,
        }
    }
}

/// The cubic curves of a path, in order.
pub open spec fn cubics_of(els: Seq<El>) -> Seq<Cubic> {
    cubics_prefix(els, els.len())
}

/// The decomposition that belongs to cubic curve number `k`, if there is one.
pub open spec fn made_for(made: Seq<Pieces>, k: nat) -> Option<Pieces> {
    if k < made.len() {
        Some(made[k as int])
    } else {
        None
    }
}

/// What a walk does with the cubic curves that it comes to, as contracts
/// speak of it.
pub enum Treatment {
    /// Cubic curves are kept as they are.
    Keep,
    /// Cubic curves are broken up under the strategy; the sequence holds
    /// what was made outside of each cubic curve of the path, in order.
    Break(Strategy, Seq<Pieces>),
}

/// What one element becomes in a walk: a quadratic curve becomes its
/// monotone pieces; cubic curve number `k` is kept, or becomes what the
/// strategy makes of it; and any other element stays as it is.
pub open spec fn rewrite_element(current: Spot, el: El, treatment: Treatment, k: nat) -> Seq<El> {
    match el {
        El::QuadTo(c, p) => monotone_pieces(current, c, p),
        El::CurveTo(c1, c2, p) => match treatment {
            Treatment::Keep => seq![el],
            Treatment::Break(strategy, made) => cubic_pieces(
                current,
                c1,
                c2,
                p,
                strategy,
                made_for(made, k),
            ),
        },
        _ => seq![el],
    }
}

/// What the first `n` elements of a path become in a walk.
pub open spec fn rewritten_prefix(els: Seq<El>, treatment: Treatment, n: nat) -> Seq<El>
    decreases n,
{
    if n == 0 {
        Seq::empty()
    } else {
        rewritten_prefix(els, treatment, (n - 1) as nat) + rewrite_element(
            cursor_at(els, (n - 1) as nat).current,
            els[n - 1],
            treatment,
            cubics_prefix(els, (n - 1) as nat).len(),
        )
    }
}

/// What a path becomes in a walk.
pub open spec fn rewritten(els: Seq<El>, treatment: Treatment) -> Seq<El> {
    rewritten_prefix(els, treatment, els.len())
}

/// What a path becomes when its quadratic curves are made monotone and its
/// cubic curves are kept.
pub open spec fn monotonized(els: Seq<El>) -> Seq<El> {
    rewritten(els, Treatment::Keep)
}

/// What a path becomes when its cubic curves are broken up and its
/// quadratic curves are made monotone.
pub open spec fn broken(els: Seq<El>, strategy: Strategy, made: Seq<Pieces>) -> Seq<El> {
    rewritten(els, Treatment::Break(strategy, made))
}

/// Where the strategy calls for a flattener or a decomposer, `made` holds
/// what it made of each cubic curve of the path, one entry for each curve.
pub open spec fn decompositions_fit(els: Seq<El>, strategy: Strategy, made: Seq<Pieces>) -> bool {
    match strategy {
        Strategy::Linear => true,
        Strategy::Midpoint => true,
        _ => made.len() == cubics_of(els).len() && forall|k: int|
            0 <= k < made.len() ==> serves(strategy, Some(#[trigger] made[k])),
    }
}

/// The number of cubic curves only grows along a path.
pub proof fn lemma_cubics_grow(els: Seq<El>, m: nat, n: nat)
    requires
        m <= n,
    ensures
        cubics_prefix(els, m).len() <= cubics_prefix(els, n).len(),
    decreases n,
{
    if m < n {
        lemma_cubics_grow(els, m, (n - 1) as nat);
    }
}

/// A path holds no more cubic curves than elements.
pub proof fn lemma_cubics_bounded(els: Seq<El>, n: nat)
    ensures
        cubics_prefix(els, n).len() <= n,
    decreases n,
{
    if n > 0 {
        lemma_cubics_bounded(els, (n - 1) as nat);
    }
}

/// The cubic curves of a path, in order, each with its start point: what a
/// flattener or a decomposer has to work on.
pub fn cubic_segments(orig: &BezPath) -> (r: Vec<CubicSegment>)
    ensures
        cubic_views(r@) == cubics_of(orig@),
{
    let mut initial: Point = Point::origin();
    let mut p0: Point = Point::origin();
    let mut found: Vec<CubicSegment> = Vec::new();
    let mut i: usize = 0;
    while i < orig.len()
        invariant
            i <= orig@.len(),
            p0@ == cursor_at(orig@, i as nat).current,
            initial@ == cursor_at(orig@, i as nat).start,
            cubic_views(found@) =~= cubics_prefix(orig@, i as nat),
        decreases orig@.len() - i,
    {
        match orig.get(i) {
            PathEl::MoveTo(p) => {
                p0 = p.copy();
                initial = p.copy();
            },
            PathEl::LineTo(p) => {
                p0 = p.copy();
            },
            PathEl::QuadTo(_, p2) => {
                p0 = p2.copy();
            },
            PathEl::CurveTo(p1, p2, p3) => {
                found.push(
                    CubicSegment { from: p0, ctrl1: p1.copy(), ctrl2: p2.copy(), to: p3.copy() },
                );
                p0 = p3.copy();
            },
            PathEl::ClosePath => {
                p0 = initial.copy();
            },
        }
        i += 1;
    }
    found
}

/// What a walk does with the cubic curves that it comes to.
enum Handling<'a> {
    Keep,
    Break(&'a CubicApprox, &'a Vec<Decomposition>),
}

impl<'a> View for Handling<'a> {
    type V = Treatment;

    closed spec fn view(&self) -> Treatment {
        match *self {
            Handling::Keep => Treatment::Keep,
            Handling::Break(cubic_approx, made) => Treatment::Break(
                cubic_approx@,
                pieces_views(made@),
            ),
        }
    }
}

/// The treatment finds what it needs for each cubic curve of the path.
pub open spec fn treatment_fits(els: Seq<El>, treatment: Treatment) -> bool {
    match treatment {
        Treatment::Keep => true,
        Treatment::Break(strategy, made) => decompositions_fit(els, strategy, made),
    }
}

/// The one walk behind both rewriters. It tracks the current point and the
/// start of the subpath, copies moves, lines and closes, splits quadratic
/// curves, and handles cubic curves as it is told.
fn rewrite_path(orig: &BezPath, handling: &Handling<'_>) -> (r: BezPath)
    requires
        treatment_fits(orig@, handling@),
    ensures
        r@ == rewritten(orig@, handling@),
        quads_cut_exactly(orig@),
        treatment_joins(orig@, handling@) ==> quads_monotone(outset(), r@) && cursor_at(
            r@,
            r@.len(),
        ) == cursor_at(orig@, orig@.len()),
{
    let mut initial: Point = Point::origin();
    let mut p0: Point = Point::origin();
    let mut path: BezPath = BezPath::new();
    let mut k: usize = 0;
    let mut i: usize = 0;
    while i < orig.len()
        invariant
            i <= orig@.len(),
            p0@ == cursor_at(orig@, i as nat).current,
            initial@ == cursor_at(orig@, i as nat).start,
            k == cubics_prefix(orig@, i as nat).len(),
            path@ == rewritten_prefix(orig@, handling@, i as nat),
            treatment_fits(orig@, handling@),
            forall|j: int| 0 <= j < i ==> (#[trigger] orig@[j]).wf(),
        decreases orig@.len() - i,
    {
        let ghost before = path@;
        proof {
            lemma_cubics_grow(orig@, (i + 1) as nat, orig@.len());
            lemma_cubics_bounded(orig@, i as nat);
        }
        orig.get(i).note_wf();
        match orig.get(i) {
            PathEl::MoveTo(p) => {
                path.move_to(p.copy());
                p0 = p.copy();
                initial = p.copy();
            },
            PathEl::LineTo(p) => {
                path.line_to(p.copy());
                p0 = p.copy();
            },
            PathEl::QuadTo(p1, p2) => {
                split_quad(&mut path, &p0, p1, p2);
                p0 = p2.copy();
            },
            PathEl::CurveTo(p1, p2, p3) => {
                match handling {
                    Handling::Keep => {
                        path.curve_to(p1.copy(), p2.copy(), p3.copy());
                    },
                    Handling::Break(cubic_approx, made) => {
                        let found: Option<&Decomposition> = if k < made.len() {
                            Some(&made[k])
                        } else {
                            None
                        };
                        assert(k < made.len() ==> pieces_views(made@)[k as int] == made@[k as
                            int]@);
                        approximate_cubic(&mut path, &p0, p1, p2, p3, cubic_approx, found);
                    },
                }
                p0 = p3.copy();
                k += 1;
            },
            PathEl::ClosePath => {
                path.close_path();
                p0 = initial.copy();
            },
        }
        assert(path@ =~= before + rewrite_element(
            cursor_at(orig@, i as nat).current,
            orig@[i as int],
            handling@,
            cubics_prefix(orig@, i as nat).len(),
        ));
        i += 1;
    }
    proof {
        lemma_quads_cut_exactly(orig@);
        if treatment_joins(orig@, handling@) {
            lemma_rewritten_is_monotone(orig@, handling@);
            lemma_rewritten_cursor(orig@, handling@, orig@.len());
        }
    }
    path
}

/// Makes every quadratic curve of a path monotone along both axes: each is
/// split where a coordinate turns back. Moves, lines and closes are kept as
/// they are, and so are cubic curves. The pieces of each curve, joined, are
/// that curve; every quadratic curve of the path returned is monotone; and
/// a walk over the path returned ends where a walk over the path given
/// ends.
pub fn monotonize_quads(orig: &BezPath) -> (r: BezPath)
    ensures
        r@ == monotonized(orig@),
        quads_cut_exactly(orig@),
        quads_monotone(outset(), r@),
        cursor_at(r@, r@.len()) == cursor_at(orig@, orig@.len()),
{
    rewrite_path(orig, &Handling::Keep)
}

/// Replaces every cubic curve of a path by lines or quadratic curves, as
/// the strategy says, and makes every quadratic curve monotone along both
/// axes. Where the strategy is to flatten or to decompose, `made` holds
/// what the flattener or the decomposer made of each cubic curve of the
/// path, in the order of `cubic_segments`; the other two strategies do not
/// read it. No cubic curve is left; and where what was made of each cubic
/// curve fits that curve, every quadratic curve of the path returned is
/// monotone, and a walk over the path returned ends where a walk over the
/// path given ends.
pub fn break_path(orig: &BezPath, cubic_approx: &CubicApprox, made: &Vec<Decomposition>) -> (r:
    BezPath)
    requires
        decompositions_fit(orig@, cubic_approx@, pieces_views(made@)),
    ensures
        r@ == broken(orig@, cubic_approx@, pieces_views(made@)),
        no_cubic(r@),
        quads_cut_exactly(orig@),
        decompositions_join(orig@, cubic_approx@, pieces_views(made@)) ==> quads_monotone(
            outset(),
            r@,
        ) && cursor_at(r@, r@.len()) == cursor_at(orig@, orig@.len()),
{
    proof {
        lemma_no_cubic_left(orig@, cubic_approx@, pieces_views(made@));
    }
    rewrite_path(orig, &Handling::Break(cubic_approx, made))
}

} // verus!
