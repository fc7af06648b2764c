//! Paths: ordered runs of move, line, quadratic, cubic and close elements.

use vstd::prelude::*;
use crate::point::{Point, Spot};

verus! {

/// A path element, as contracts speak of it.
pub enum El {
    MoveTo(Spot),
    LineTo(Spot),
    QuadTo(Spot, Spot),
    CurveTo(Spot, Spot, Spot),
    ClosePath,
}

impl El {
    /// Every point of the element is well formed.
    pub open spec fn wf(self) -> bool {
        match self {
            El::MoveTo(p) => p.wf(),
            El::LineTo(p) => p.wf(),
            El::QuadTo(c, p) => c.wf() && p.wf(),
            El::CurveTo(c1, c2, p) => c1.wf() && c2.wf() && p.wf(),
            El::ClosePath => true,
        }
    }
}

/// One element of a path.
#[derive(Debug)]
pub enum PathEl {
    /// Starts a subpath at the point.
    MoveTo(Point),
    /// A straight line to the point.
    LineTo(Point),
    /// A quadratic curve: the control point, then the end point.
    QuadTo(Point, Point),
    /// A cubic curve: the two control points, then the end point.
    CurveTo(Point, Point, Point),
    /// Closes the subpath, back to where it started.
    ClosePath,
}

impl View for PathEl {
    type V = El;

    open spec fn view(&self) -> El {
        match *self {
            PathEl::MoveTo(p) => El::MoveTo(p@),
            PathEl::LineTo(p) => El::LineTo(p@),
            PathEl::QuadTo(c, p) => El::QuadTo(c@, p@),
            PathEl::CurveTo(c1, c2, p) => El::CurveTo(c1@, c2@, p@),
            PathEl::ClosePath => El::ClosePath,
        }
    }
}

impl PathEl {
    /// Makes known to the caller that every denominator is positive.
    pub fn note_wf(&self)
        ensures
            self@.wf(),
    {
        match self {
            PathEl::MoveTo(p) => {
                p.note_wf();
            },
            PathEl::LineTo(p) => {
                p.note_wf();
            },
            PathEl::QuadTo(c, p) => {
                c.note_wf();
                p.note_wf();
            },
            PathEl::CurveTo(c1, c2, p) => {
                c1.note_wf();
                c2.note_wf();
                p.note_wf();
            },
            PathEl::ClosePath => {},
        }
    }

    /// A copy of this element.
    pub fn copy(&self) -> (r: PathEl)
        ensures
            r@ == self@,
    {
        match self {
            PathEl::MoveTo(p) => PathEl::MoveTo(p.copy()),
            PathEl::LineTo(p) => PathEl::LineTo(p.copy()),
            PathEl::QuadTo(c, p) => PathEl::QuadTo(c.copy(), p.copy()),
            PathEl::CurveTo(c1, c2, p) => PathEl::CurveTo(c1.copy(), c2.copy(), p.copy()),
            PathEl::ClosePath => PathEl::ClosePath,
        }
    }
}

/// The elements of `v`, each by its view.
pub open spec fn views(v: Seq<PathEl>) -> Seq<El> {
    Seq::new(v.len(), |i: int| v[i]@)
}

/// Every point of the run is well formed.
pub open spec fn all_wf(run: Seq<El>) -> bool {
    forall|j: int| 0 <= j < run.len() ==> (#[trigger] run[j]).wf()
}

/// A path: its elements in order.
#[derive(Debug)]
pub struct BezPath {
    elements: Vec<PathEl>,
}

impl View for BezPath {
    type V = Seq<El>;

    closed spec fn view(&self) -> Seq<El> {
        views(self.elements@)
    }
}

impl BezPath {
    /// The path without elements.
    pub fn new() -> (r: BezPath)
        ensures
            r@ == Seq::<El>::empty(),
    {
        let r = BezPath { elements: Vec::new() };
        assert(r@ =~= Seq::<El>::empty());
        r
    }

    /// The path of the elements given.
    pub fn from_vec(elements: Vec<PathEl>) -> (r: BezPath)
        ensures
            r@ == views(elements@),
    {
        BezPath { elements }
    }

    /// The number of elements.
    pub fn len(&self) -> (r: usize)
        ensures
            r == self@.len(),
    {
        self.elements.len()
    }

    /// The element at place `i`.
    pub fn get(&self, i: usize) -> (r: &PathEl)
        requires
            i < self@.len(),
        ensures
            r@ == self@[i as int],
    {
        &self.elements[i]
    }

    /// The elements in order.
    pub fn elements(&self) -> (r: &Vec<PathEl>)
        ensures
            views(r@) == self@,
    {
        &self.elements
    }

    /// Appends an element.
    pub fn push(&mut self, el: PathEl)
        ensures
            final(self)@ == old(self)@.push(el@),
    {
        self.elements.push(el);
        assert(self@ =~= old(self)@.push(el@));
    }

    /// Appends a move to `p`.
    pub fn move_to(&mut self, p: Point)
        ensures
            final(self)@ == old(self)@.push(El::MoveTo(p@)),
    {
        self.push(PathEl::MoveTo(p));
    }

    /// Appends a line to `p`.
    pub fn line_to(&mut self, p: Point)
        ensures
            final(self)@ == old(self)@.push(El::LineTo(p@)),
    {
        self.push(PathEl::LineTo(p));
    }

    /// Appends a quadratic curve by the control point `c` to `p`.
    pub fn quad_to(&mut self, c: Point, p: Point)
        ensures
            final(self)@ == old(self)@.push(El::QuadTo(c@, p@)),
    {
        self.push(PathEl::QuadTo(c, p));
    }

    /// Appends a cubic curve by the control points `c1` and `c2` to `p`.
    pub fn curve_to(&mut self, c1: Point, c2: Point, p: Point)
        ensures
            final(self)@ == old(self)@.push(El::CurveTo(c1@, c2@, p@)),
    {
        self.push(PathEl::CurveTo(c1, c2, p));
    }

    /// Appends a close.
    pub fn close_path(&mut self)
        ensures
            final(self)@ == old(self)@.push(El::ClosePath),
    {
        self.push(PathEl::ClosePath);
    }
}

} // verus!
