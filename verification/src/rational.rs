//! Exact rational numbers: the coordinates and curve parameters of the crate.

use vstd::prelude::*;
use crate::integer::Integer;

verus! {

/// A fraction of two integers, as contracts speak of it. A number is held
/// exactly as the operations below build it: nothing is reduced to lowest
/// terms, and two fractions stand for the same number where `same` holds.
pub struct Frac {
    pub num: int,
    pub den: int,
}

impl Frac {
    /// The denominator is positive.
    pub open spec fn wf(self) -> bool {
        self.den > 0
    }

    /// The whole number `v`, over one.
    pub open spec fn whole(v: int) -> Frac {
        Frac { num: v, den: 1 }
    }

    /// The sum, over the product of the denominators.
    pub open spec fn plus(self, o: Frac) -> Frac {
        Frac { num: self.num * o.den + o.num * self.den, den: self.den * o.den }
    }

    /// The difference, over the product of the denominators.
    pub open spec fn minus(self, o: Frac) -> Frac {
        Frac { num: self.num * o.den - o.num * self.den, den: self.den * o.den }
    }

    /// The product.
    pub open spec fn times(self, o: Frac) -> Frac {
        Frac { num: self.num * o.num, den: self.den * o.den }
    }

    /// The quotient by a fraction other than zero; the sign of the divisor
    /// goes to the numerator, so that the denominator stays positive.
    pub open spec fn over(self, o: Frac) -> Frac {
        if o.num < 0 {
            Frac { num: -(self.num * o.den), den: -(self.den * o.num) }
        } else {
            Frac { num: self.num * o.den, den: self.den * o.num }
        }
    }

    /// The two fractions stand for the same number.
    pub open spec fn same(self, o: Frac) -> bool {
        self.num * o.den == o.num * self.den
    }

    /// This number is less than the other; both denominators are taken to
    /// be positive.
    pub open spec fn less(self, o: Frac) -> bool {
        self.num * o.den < o.num * self.den
    }

    /// This number is not greater than the other.
    pub open spec fn at_most(self, o: Frac) -> bool {
        self.num * o.den <= o.num * self.den
    }
}

/// An exact rational number with a positive denominator.
#[derive(Debug)]
pub struct Rational {
    num: Integer,
    den: Integer,
}

impl View for Rational {
    type V = Frac;

    closed spec fn view(&self) -> Frac {
        Frac { num: self.num@, den: self.den@ }
    }
}

impl Rational {
    #[verifier::type_invariant]
    spec fn positive_denominator(self) -> bool {
        self.den@ > 0
    }

    /// The whole number `v`.
    pub fn from_i64(v: i64) -> (r: Rational)
        ensures
            r@ == Frac::whole(v as int),
            r@.wf(),
    {
        Rational { num: Integer::from_i64(v), den: Integer::from_i64(1) }
    }

    /// The fraction `num / den`, or nothing where `den` is zero.
    pub fn from_ratio(num: i64, den: i64) -> (r: Option<Rational>)
        ensures
            r is None <==> den == 0,
            r is Some ==> r->0@ == Frac::whole(num as int).over(Frac::whole(den as int)),
            r is Some ==> r->0@.wf(),
    {
        if den == 0 {
            None
        } else {
            Some(Rational::from_i64(num).div(&Rational::from_i64(den)))
        }
    }

    /// A copy of this number.
    pub fn copy(&self) -> (r: Rational)
        ensures
            r@ == self@,
            r@.wf(),
    {
        proof {
            use_type_invariant(self);
        }
        Rational { num: self.num.copy(), den: self.den.copy() }
    }

    /// Makes known to the caller that the denominator is positive.
    pub fn note_wf(&self)
        ensures
            self@.wf(),
    {
        proof {
            use_type_invariant(self);
        }
    }

    /// The fraction of the two integers, or nothing where `den` is zero. A
    /// negative denominator hands its sign to the numerator.
    pub fn from_integers(num: Integer, den: Integer) -> (r: Option<Rational>)
        ensures
            r is None <==> den@ == 0,
            r is Some ==> r->0@ == Frac::whole(num@).over(Frac::whole(den@)),
            r is Some ==> r->0@.wf(),
    {
        if den.is_zero() {
            None
        } else {
            let top: Rational = Rational { num, den: Integer::from_i64(1) };
            let bottom: Rational = Rational { num: den, den: Integer::from_i64(1) };
            Some(top.div(&bottom))
        }
    }

    /// The numerator.
    pub fn numerator(&self) -> (r: Integer)
        ensures
            r@ == self@.num,
    {
        self.num.copy()
    }

    /// The denominator, which is positive.
    pub fn denominator(&self) -> (r: Integer)
        ensures
            r@ == self@.den,
            r@ > 0,
    {
        proof {
            use_type_invariant(self);
        }
        self.den.copy()
    }

    /// The sum.
    pub fn add(&self, other: &Rational) -> (r: Rational)
        ensures
            r@ == self@.plus(other@),
            r@.wf(),
    {
        proof {
            use_type_invariant(self);
            use_type_invariant(other);
            lemma_product_positive(self.den@, other.den@);
        }
        let left: Integer = self.num.mul(&other.den);
        let right: Integer = other.num.mul(&self.den);
        Rational { num: left.add(&right), den: self.den.mul(&other.den) }
    }

    /// The difference.
    pub fn sub(&self, other: &Rational) -> (r: Rational)
        ensures
            r@ == self@.minus(other@),
            r@.wf(),
    {
        proof {
            use_type_invariant(self);
            use_type_invariant(other);
            lemma_product_positive(self.den@, other.den@);
        }
        let left: Integer = self.num.mul(&other.den);
        let right: Integer = other.num.mul(&self.den);
        Rational { num: left.sub(&right), den: self.den.mul(&other.den) }
    }

    /// The product.
    pub fn mul(&self, other: &Rational) -> (r: Rational)
        ensures
            r@ == self@.times(other@),
            r@.wf(),
    {
        proof {
            use_type_invariant(self);
            use_type_invariant(other);
            lemma_product_positive(self.den@, other.den@);
        }
        Rational { num: self.num.mul(&other.num), den: self.den.mul(&other.den) }
    }

    /// The quotient by a number other than zero.
    pub fn div(&self, other: &Rational) -> (r: Rational)
        requires
            other@.num != 0,
        ensures
            r@ == self@.over(other@),
            r@.wf(),
    {
        proof {
            use_type_invariant(self);
            use_type_invariant(other);
        }
        let num: Integer = self.num.mul(&other.den);
        let den: Integer = self.den.mul(&other.num);
        if other.num.is_negative() {
            proof {
                lemma_product_positive(self.den@, -other.num@);
                assert(self.den@ * (-other.num@) == -(self.den@ * other.num@))
                    by (nonlinear_arith);
            }
            Rational { num: num.neg(), den: den.neg() }
        } else {
            proof {
                lemma_product_positive(self.den@, other.num@);
            }
            Rational { num, den }
        }
    }

    /// Whether this number is less than the other.
    pub fn lt(&self, other: &Rational) -> (r: bool)
        ensures
            r == self@.less(other@),
    {
        let left: Integer = self.num.mul(&other.den);
        let right: Integer = other.num.mul(&self.den);
        left.lt(&right)
    }

    /// Whether the two numbers are equal.
    pub fn equals(&self, other: &Rational) -> (r: bool)
        ensures
            r == self@.same(other@),
    {
        let left: Integer = self.num.mul(&other.den);
        let right: Integer = other.num.mul(&self.den);
        left.equals(&right)
    }
}

/// The product of two positive numbers is positive.
pub proof fn lemma_product_positive(a: int, b: int)
    requires
        a > 0,
        b > 0,
    ensures
        a * b > 0,
{
    assert(a * b > 0) by (nonlinear_arith)
        requires
            a > 0,
            b > 0,
    ;
}

} // verus!
