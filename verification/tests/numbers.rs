use monotone_paths::double::from_double_bits;
use monotone_paths::integer::Integer;
use monotone_paths::limbs::{
    limbs_add, limbs_from_u64, limbs_is_zero, limbs_leading, limbs_mul, limbs_power_of_two,
    limbs_sub,
};
use monotone_paths::rational::Rational;

fn trimmed(mut limbs: Vec<u32>) -> Vec<u32> {
    while limbs.last() == Some(&0) {
        limbs.pop();
    }
    limbs
}

fn q(num: i64, den: i64) -> Rational {
    Rational::from_ratio(num, den).unwrap()
}

#[test]
fn limbs_of_a_64_bit_number_are_low_then_high() {
    assert_eq!(limbs_from_u64(0x1234_5678_9abc_def0), vec![0x9abc_def0, 0x1234_5678]);
    assert_eq!(trimmed(limbs_from_u64(7)), vec![7]);
    assert!(limbs_is_zero(&limbs_from_u64(0)));
    assert!(!limbs_is_zero(&limbs_from_u64(1 << 40)));
}

#[test]
fn limbs_add_carries_across_limbs() {
    let a = limbs_from_u64(u64::MAX);
    let b = limbs_from_u64(1);
    assert_eq!(trimmed(limbs_add(&a, &b)), vec![0, 0, 1]);
}

#[test]
fn limbs_sub_borrows_and_refuses_a_larger_subtrahend() {
    let a = vec![0, 0, 1];
    let b = limbs_from_u64(1);
    assert_eq!(trimmed(limbs_sub(&a, &b).unwrap()), vec![u32::MAX, u32::MAX]);
    assert!(limbs_sub(&b, &a).is_none());
    assert!(limbs_is_zero(&limbs_sub(&a, &a).unwrap()));
}

#[test]
fn limbs_mul_goes_beyond_64_bits() {
    let a = limbs_from_u64(u64::MAX);
    // (2^64 - 1)^2 = 2^128 - 2^65 + 1
    assert_eq!(
        trimmed(limbs_mul(&a, &a)),
        vec![1, 0, u32::MAX - 1, u32::MAX]
    );
    assert!(limbs_is_zero(&limbs_mul(&a, &Vec::new())));
}

#[test]
fn limbs_power_of_two_sets_one_bit() {
    assert_eq!(limbs_power_of_two(0), vec![1]);
    assert_eq!(limbs_power_of_two(31), vec![0x8000_0000]);
    assert_eq!(limbs_power_of_two(32), vec![0, 1]);
    assert_eq!(limbs_power_of_two(70), vec![0, 0, 64]);
}

#[test]
fn integer_signs_follow_the_rules_of_arithmetic() {
    let a = Integer::from_i64(-6);
    let b = Integer::from_i64(4);
    assert!(a.add(&b).equals(&Integer::from_i64(-2)));
    assert!(a.sub(&b).equals(&Integer::from_i64(-10)));
    assert!(b.sub(&a).equals(&Integer::from_i64(10)));
    assert!(a.mul(&b).equals(&Integer::from_i64(-24)));
    assert!(a.mul(&a).equals(&Integer::from_i64(36)));
    assert!(a.neg().equals(&Integer::from_i64(6)));
    assert!(a.lt(&b));
    assert!(!b.lt(&a));
    assert!(!a.lt(&a));
    assert!(a.is_negative() && !a.is_positive() && !a.is_zero());
    assert!(b.is_positive() && !b.is_negative());
    assert!(a.add(&a.neg()).is_zero());
    assert!(!a.add(&a.neg()).is_negative());
}

#[test]
fn integer_holds_the_least_64_bit_number() {
    let least = Integer::from_i64(i64::MIN);
    assert!(least.is_negative());
    assert_eq!(trimmed(least.magnitude()), vec![0, 0x8000_0000]);
    assert!(least.add(&Integer::from_i64(i64::MAX)).equals(&Integer::from_i64(-1)));
}

#[test]
fn integer_from_limbs_reads_sign_and_magnitude() {
    let big = Integer::from_limbs(true, vec![0, 0, 1]);
    let two_to_32 = Integer::from_i64(1 << 32);
    assert!(big.equals(&two_to_32.mul(&two_to_32).neg()));
    assert!(Integer::from_limbs(true, vec![0, 0]).is_zero());
}

#[test]
fn rational_arithmetic_is_exact() {
    assert!(q(1, 2).add(&q(1, 3)).equals(&q(5, 6)));
    assert!(q(1, 2).sub(&q(1, 3)).equals(&q(1, 6)));
    assert!(q(2, 3).mul(&q(3, 4)).equals(&q(1, 2)));
    assert!(q(2, 3).div(&q(4, 9)).equals(&q(3, 2)));
    assert!(q(2, 3).div(&q(-4, 9)).equals(&q(-3, 2)));
    assert!(q(1, 3).lt(&q(1, 2)));
    assert!(!q(1, 2).lt(&q(1, 3)));
    assert!(!q(2, 4).lt(&q(1, 2)));
    assert!(q(-1, 2).lt(&q(1, 3)));
}

#[test]
fn rational_keeps_its_denominator_positive() {
    let r = q(3, -6);
    assert!(r.equals(&q(-1, 2)));
    assert!(r.denominator().is_positive());
    assert!(r.numerator().is_negative());
    let s = q(1, 2).div(&q(-1, 3));
    assert!(s.denominator().is_positive());
    assert!(s.equals(&q(-3, 2)));
}

#[test]
fn rational_is_not_reduced_to_lowest_terms() {
    let r = q(2, 4);
    assert!(r.numerator().equals(&Integer::from_i64(2)));
    assert!(r.denominator().equals(&Integer::from_i64(4)));
    assert!(r.equals(&q(1, 2)));
}

#[test]
fn rational_from_ratio_refuses_a_zero_denominator() {
    assert!(Rational::from_ratio(1, 0).is_none());
    assert!(Rational::from_ratio(0, 0).is_none());
    assert!(Rational::from_ratio(0, 5).unwrap().equals(&Rational::from_i64(0)));
    assert!(Rational::from_integers(Integer::from_i64(1), Integer::from_i64(0)).is_none());
}

#[test]
fn double_bits_are_read_exactly() {
    assert!(from_double_bits(7.5f64.to_bits()).unwrap().equals(&q(15, 2)));
    assert!(from_double_bits((-0.375f64).to_bits()).unwrap().equals(&q(-3, 8)));
    assert!(from_double_bits(0.0f64.to_bits()).unwrap().equals(&q(0, 1)));
    assert!(from_double_bits((-0.0f64).to_bits()).unwrap().equals(&q(0, 1)));
    assert!(from_double_bits(1e6f64.to_bits()).unwrap().equals(&q(1_000_000, 1)));
    // 2^60 has a scale above zero
    let big = from_double_bits(((1u64 << 60) as f64).to_bits()).unwrap();
    assert!(big.equals(&q(1 << 60, 1)));
    // one tenth is not a tenth: it is 3602879701896397 / 2^55
    let tenth = from_double_bits(0.1f64.to_bits()).unwrap();
    assert!(!tenth.equals(&q(1, 10)));
    assert!(tenth.equals(&q(3602879701896397, 1 << 55)));
}

#[test]
fn double_bits_of_the_smallest_number_have_a_large_denominator() {
    let least = from_double_bits(1u64).unwrap();
    assert!(least.numerator().equals(&Integer::from_i64(1)));
    let mut expected = vec![0u32; 33];
    expected.push(1 << 18);
    assert_eq!(trimmed(least.denominator().magnitude()), expected);
}

#[test]
fn double_bits_of_infinities_and_nan_are_refused() {
    assert!(from_double_bits(f64::INFINITY.to_bits()).is_none());
    assert!(from_double_bits(f64::NEG_INFINITY.to_bits()).is_none());
    assert!(from_double_bits(f64::NAN.to_bits()).is_none());
    assert!(from_double_bits(f64::MAX.to_bits()).is_some());
}

#[test]
fn leading_limbs_of_a_short_number_are_the_number() {
    assert_eq!(limbs_leading(&Vec::new()), (0, 0));
    assert_eq!(limbs_leading(&vec![0, 0, 0, 0]), (0, 0));
    assert_eq!(limbs_leading(&vec![7]), (7, 0));
    assert_eq!(limbs_leading(&vec![7, 0, 0]), (7, 0));
    assert_eq!(limbs_leading(&vec![1, 2]), ((2 << 32) + 1, 0));
    assert_eq!(limbs_leading(&vec![1, 2, 3]), ((3 << 64) + (2 << 32) + 1, 0));
}

#[test]
fn leading_limbs_of_a_long_number_leave_the_low_limbs_off() {
    assert_eq!(limbs_leading(&vec![9, 8, 1, 2, 3]), ((3 << 64) + (2 << 32) + 1, 2));
    assert_eq!(limbs_leading(&vec![9, 8, 1, 2, 3, 0, 0]), ((3 << 64) + (2 << 32) + 1, 2));
    assert_eq!(limbs_leading(&limbs_power_of_two(200)), (1 << 72, 4));
}
