//! Reading a binary64 number, given by its 64 bits, as an exact rational.

use vstd::prelude::*;
use crate::limbs::{limbs_from_u64, limbs_power_of_two, two_to};
use crate::integer::Integer;
use crate::rational::{Frac, Rational};

verus! {

/// The sign bit is set.
pub open spec fn sign_of(bits: u64) -> bool {
    bits / 0x8000_0000_0000_0000 == 1
}

/// The eleven bits of the exponent.
pub open spec fn exponent_field(bits: u64) -> int {
    ((bits / 0x10_0000_0000_0000) % 2048) as int
}

/// The fifty-two bits of the fraction.
pub open spec fn fraction_field(bits: u64) -> int {
    (bits % 0x10_0000_0000_0000) as int
}

/// The bits stand for a number: neither for an infinity nor for a
/// not-a-number.
pub open spec fn is_finite(bits: u64) -> bool {
    exponent_field(bits) != 2047
}

/// The significand as a whole number: the fraction, with the hidden bit in
/// front of it unless the number is subnormal.
pub open spec fn significand(bits: u64) -> int {
    if exponent_field(bits) == 0 {
        fraction_field(bits)
    } else {
        fraction_field(bits) + 0x10_0000_0000_0000
    }
}

/// The power of two by which the significand is multiplied.
pub open spec fn scale(bits: u64) -> int {
    if exponent_field(bits) == 0 {
        -1074
    } else {
        exponent_field(bits) - 1075
    }
}

/// The number that finite bits stand for: the significand times two to the
/// scale, with the sign. A power of two below one is the denominator.
pub open spec fn double_value(bits: u64) -> Frac {
    let m = if sign_of(bits) {
        -significand(bits)
    } else {
        significand(bits)
    };
    if scale(bits) >= 0 {
        Frac { num: m * two_to(scale(bits) as nat), den: 1 }
    } else {
        Frac { num: m, den: two_to((-scale(bits)) as nat) as int }
    }
}

/// The number that the bits of a binary64 stand for, exactly; nothing for
/// an infinity or a not-a-number.
pub fn from_double_bits(bits: u64) -> (r: Option<Rational>)
    ensures
        r is Some <==> is_finite(bits),
        r is Some ==> r->0@ == double_value(bits),
        r is Some ==> r->0@.wf(),
{
    let negative: bool = bits / 0x8000_0000_0000_0000 == 1;
    let exponent: u64 = (bits / 0x10_0000_0000_0000) % 2048;
    let fraction: u64 = bits % 0x10_0000_0000_0000;
    if exponent == 2047 {
        return None;
    }
    let m: u64 = if exponent == 0 {
        fraction
    } else {
        fraction + 0x10_0000_0000_0000
    };
    let whole: Integer = Integer::from_limbs(negative, limbs_from_u64(m));
    let one: Integer = Integer::from_i64(1);
    if exponent >= 1075 {
        let up: u32 = (exponent - 1075) as u32;
        let power: Integer = Integer::from_limbs(false, limbs_power_of_two(up));
        let num: Integer = whole.mul(&power);
        let r: Option<Rational> = Rational::from_integers(num, one);
        assert(num@ * 1 == num@ && 1 * 1 == 1int);
        r
    } else {
        let down: u32 = if exponent == 0 {
            1074
        } else {
            (1075 - exponent) as u32
        };
        let power: Integer = Integer::from_limbs(false, limbs_power_of_two(down));
        proof {
            crate::limbs::lemma_two_to_grows(0, down as nat);
        }
        let r: Option<Rational> = Rational::from_integers(whole, power);
        assert(whole@ * 1 == whole@ && 1 * power@ == power@);
        r
    }
}

} // verus!
