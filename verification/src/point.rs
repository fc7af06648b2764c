//! Points of the plane with exact rational coordinates.

use vstd::prelude::*;
use crate::rational::{Frac, Rational};

verus! {

/// A point, as contracts speak of it.
pub struct Spot {
    pub x: Frac,
    pub y: Frac,
}

/// The number a fraction `t` of the way from `a` to `b`: `a + (b - a) t`.
pub open spec fn lerp(a: Frac, b: Frac, t: Frac) -> Frac {
    a.plus(b.minus(a).times(t))
}

/// The number halfway between `a` and `b`.
pub open spec fn halfway(a: Frac, b: Frac) -> Frac {
    a.plus(b).times(Frac { num: 1, den: 2 })
}

impl Spot {
    /// Both coordinates have a positive denominator.
    pub open spec fn wf(self) -> bool {
        self.x.wf() && self.y.wf()
    }

    /// The point where both coordinates are zero.
    pub open spec fn origin() -> Spot {
        Spot { x: Frac::whole(0), y: Frac::whole(0) }
    }

    /// The two stand for the same point of the plane.
    pub open spec fn same(self, o: Spot) -> bool {
        self.x.same(o.x) && self.y.same(o.y)
    }

    /// The point a fraction `t` of the way from this point to `o`.
    pub open spec fn lerp(self, o: Spot, t: Frac) -> Spot {
        Spot { x: lerp(self.x, o.x, t), y: lerp(self.y, o.y, t) }
    }

    /// The point halfway between this point and `o`.
    pub open spec fn midpoint(self, o: Spot) -> Spot {
        Spot { x: halfway(self.x, o.x), y: halfway(self.y, o.y) }
    }
}

/// A point of the plane.
#[derive(Debug)]
pub struct Point {
    pub x: Rational,
    pub y: Rational,
}

impl View for Point {
    type V = Spot;

    open spec fn view(&self) -> Spot {
        Spot { x: self.x@, y: self.y@ }
    }
}

impl Point {
    /// The point with the coordinates `x` and `y`.
    pub fn new(x: Rational, y: Rational) -> (r: Point)
        ensures
            r@ == (Spot { x: x@, y: y@ }),
    {
        Point { x, y }
    }

    /// The point with the whole coordinates `x` and `y`.
    pub fn from_integers(x: i64, y: i64) -> (r: Point)
        ensures
            r@ == (Spot { x: Frac::whole(x as int), y: Frac::whole(y as int) }),
    {
        Point { x: Rational::from_i64(x), y: Rational::from_i64(y) }
    }

    /// The point where both coordinates are zero.
    pub fn origin() -> (r: Point)
        ensures
            r@ == Spot::origin(),
    {
        Point::from_integers(0, 0)
    }

    /// A copy of this point.
    pub fn copy(&self) -> (r: Point)
        ensures
            r@ == self@,
    {
        Point { x: self.x.copy(), y: self.y.copy() }
    }

    /// Makes known to the caller that both denominators are positive.
    pub fn note_wf(&self)
        ensures
            self@.wf(),
    {
        self.x.note_wf();
        self.y.note_wf();
    }

    /// Whether the two are the same point of the plane.
    pub fn equals(&self, other: &Point) -> (r: bool)
        ensures
            r == self@.same(other@),
    {
        self.x.equals(&other.x) && self.y.equals(&other.y)
    }

    /// The point a fraction `t` of the way from this point to `other`.
    pub fn lerp(&self, other: &Point, t: &Rational) -> (r: Point)
        ensures
            r@ == self@.lerp(other@, t@),
    {
        Point { x: lerp_number(&self.x, &other.x, t), y: lerp_number(&self.y, &other.y, t) }
    }

    /// The point halfway between this point and `other`.
    pub fn midpoint(&self, other: &Point) -> (r: Point)
        ensures
            r@ == self@.midpoint(other@),
    {
        Point { x: halfway_number(&self.x, &other.x), y: halfway_number(&self.y, &other.y) }
    }
}

fn lerp_number(a: &Rational, b: &Rational, t: &Rational) -> (r: Rational)
    ensures
        r@ == lerp(a@, b@, t@),
{
    a.add(&b.sub(a).mul(t))
}

fn halfway_number(a: &Rational, b: &Rational) -> (r: Rational)
    ensures
        r@ == halfway(a@, b@),
{
    let one: Rational = Rational::from_i64(1);
    let two: Rational = Rational::from_i64(2);
    let half: Rational = one.div(&two);
    a.add(b).mul(&half)
}

} // verus!
