//! Integers of unbounded size: a sign and a magnitude.

use vstd::prelude::*;
use crate::limbs::{limbs_value, limbs_from_u64, limbs_is_zero, limbs_add, limbs_sub, limbs_mul};

verus! {

/// An integer of any size.
#[derive(Debug)]
pub struct Integer {
    negative: bool,
    magnitude: Vec<u32>,
}

impl View for Integer {
    type V = int;

    closed spec fn view(&self) -> int {
        if self.negative {
            -(limbs_value(self.magnitude@) as int)
        } else {
            limbs_value(self.magnitude@) as int
        }
    }
}

impl Integer {
    /// The integer `v`.
    pub fn from_i64(v: i64) -> (r: Integer)
        ensures
            r@ == v,
    {
        if v >= 0 {
            Integer { negative: false, magnitude: limbs_from_u64(v as u64) }
        } else {
            let below: u64 = (-(v + 1)) as u64;
            Integer { negative: true, magnitude: limbs_from_u64(below + 1) }
        }
    }

    /// A copy of this integer.
    pub fn copy(&self) -> (r: Integer)
        ensures
            r@ == self@,
    {
        let magnitude: Vec<u32> = self.magnitude.clone();
        assert(magnitude@ =~= self.magnitude@);
        Integer { negative: self.negative, magnitude }
    }

    /// The integer of the sign and the magnitude given, the magnitude in
    /// limbs of 32 bits, the lowest first.
    pub fn from_limbs(negative: bool, magnitude: Vec<u32>) -> (r: Integer)
        ensures
            r@ == (if negative {
                -(limbs_value(magnitude@) as int)
            } else {
                limbs_value(magnitude@) as int
            }),
    {
        Integer { negative, magnitude }
    }

    /// The magnitude in limbs of 32 bits, the lowest first.
    pub fn magnitude(&self) -> (r: Vec<u32>)
        ensures
            limbs_value(r@) == (if self@ < 0 {
                -self@
            } else {
                self@
            }),
    {
        let magnitude: Vec<u32> = self.magnitude.clone();
        assert(magnitude@ =~= self.magnitude@);
        magnitude
    }

    /// Whether this integer is zero.
    pub fn is_zero(&self) -> (r: bool)
        ensures
            r == (self@ == 0),
    {
        limbs_is_zero(&self.magnitude)
    }

    /// Whether this integer is below zero.
    pub fn is_negative(&self) -> (r: bool)
        ensures
            r == (self@ < 0),
    {
        self.negative && !limbs_is_zero(&self.magnitude)
    }

    /// Whether this integer is above zero.
    pub fn is_positive(&self) -> (r: bool)
        ensures
            r == (self@ > 0),
    {
        !self.negative && !limbs_is_zero(&self.magnitude)
    }

    /// The integer of opposite sign.
    pub fn neg(&self) -> (r: Integer)
        ensures
            r@ == -self@,
    {
        let magnitude: Vec<u32> = self.magnitude.clone();
        assert(magnitude@ =~= self.magnitude@);
        Integer { negative: !self.negative, magnitude }
    }

    /// The sum of two magnitudes under the signs given.
    fn combine(a_negative: bool, a: &Vec<u32>, b_negative: bool, b: &Vec<u32>) -> (r: Integer)
        ensures
            r@ == (if a_negative {
                -(limbs_value(a@) as int)
            } else {
                limbs_value(a@) as int
            }) + (if b_negative {
                -(limbs_value(b@) as int)
            } else {
                limbs_value(b@) as int
            }),
    {
        if a_negative == b_negative {
            Integer { negative: a_negative, magnitude: limbs_add(a, b) }
        } else {
            match limbs_sub(a, b) {
                Some(d) => Integer { negative: a_negative, magnitude: d },
                None => {
                    match limbs_sub(b, a) {
                        Some(d) => Integer { negative: b_negative, magnitude: d },
                        None => Integer { negative: false, magnitude: Vec::new() },
                    }
                },
            }
        }
    }

    /// The sum.
    pub fn add(&self, other: &Integer) -> (r: Integer)
        ensures
            r@ == self@ + other@,
    {
        Integer::combine(self.negative, &self.magnitude, other.negative, &other.magnitude)
    }

    /// The difference.
    pub fn sub(&self, other: &Integer) -> (r: Integer)
        ensures
            r@ == self@ - other@,
    {
        Integer::combine(self.negative, &self.magnitude, !other.negative, &other.magnitude)
    }

    /// The product.
    pub fn mul(&self, other: &Integer) -> (r: Integer)
        ensures
            r@ == self@ * other@,
    {
        let magnitude: Vec<u32> = limbs_mul(&self.magnitude, &other.magnitude);
        proof {
            let a = limbs_value(self.magnitude@) as int;
            let b = limbs_value(other.magnitude@) as int;
            assert((-a) * b == -(a * b)) by (nonlinear_arith);
            assert(a * (-b) == -(a * b)) by (nonlinear_arith);
            assert((-a) * (-b) == a * b) by (nonlinear_arith);
        }
        Integer { negative: self.negative != other.negative, magnitude }
    }

    /// Whether this integer is less than the other.
    pub fn lt(&self, other: &Integer) -> (r: bool)
        ensures
            r == (self@ < other@),
    {
        self.sub(other).is_negative()
    }

    /// Whether the two integers are equal.
    pub fn equals(&self, other: &Integer) -> (r: bool)
        ensures
            r == (self@ == other@),
    {
        self.sub(other).is_zero()
    }
}

} // verus!
