//! Natural numbers of unbounded size, held as little-endian limbs of 32 bits.

use vstd::prelude::*;

verus! {

/// The weight of limb `i`: 2^(32 i).
pub open spec fn weight(i: nat) -> nat
    decreases i,
{
    if i == 0 {
        1
    } else {
        0x1_0000_0000 * weight((i - 1) as nat)
    }
}

/// Limb `i` of `s`, read as zero beyond the end.
pub open spec fn limb_at(s: Seq<u32>, i: int) -> nat {
    if 0 <= i < s.len() {
        s[i] as nat
    } else {
        0
    }
}

/// The number held by the first `i` limbs of `s`.
pub open spec fn prefix_value(s: Seq<u32>, i: nat) -> nat
    decreases i,
{
    if i == 0 {
        0
    } else {
        prefix_value(s, (i - 1) as nat) + limb_at(s, i - 1) * weight((i - 1) as nat)
    }
}

/// The number held by the limbs `s`.
pub open spec fn limbs_value(s: Seq<u32>) -> nat {
    prefix_value(s, s.len())
}

/// Every weight is positive.
pub proof fn lemma_weight_positive(i: nat)
    ensures
        weight(i) > 0,
    decreases i,
{
    if i > 0 {
        lemma_weight_positive((i - 1) as nat);
    }
}

/// Weights multiply: 2^(32 (i + j)) = 2^(32 i) 2^(32 j).
pub proof fn lemma_weight_adds(i: nat, j: nat)
    ensures
        weight(i + j) == weight(i) * weight(j),
    decreases j,
{
    if j == 0 {
        assert(weight(i) * 1 == weight(i));
    } else {
        lemma_weight_adds(i, (j - 1) as nat);
        let a = weight(i);
        let b = weight((j - 1) as nat);
        assert(weight(i + j) == 0x1_0000_0000 * weight((i + j - 1) as nat));
        assert(0x1_0000_0000 * (a * b) == a * (0x1_0000_0000 * b)) by (nonlinear_arith);
    }
}

/// The first `i` limbs hold less than 2^(32 i).
pub proof fn lemma_prefix_bound(s: Seq<u32>, i: nat)
    ensures
        prefix_value(s, i) < weight(i),
    decreases i,
{
    if i > 0 {
        lemma_prefix_bound(s, (i - 1) as nat);
        let w = weight((i - 1) as nat);
        let l = limb_at(s, i - 1);
        assert(l <= 0xffff_ffff);
        assert(l * w <= 0xffff_ffff * w) by (nonlinear_arith)
            requires
                l <= 0xffff_ffff,
                w >= 0,
        ;
    }
}

/// Limbs beyond the end add nothing.
pub proof fn lemma_prefix_beyond(s: Seq<u32>, i: nat)
    requires
        i >= s.len(),
    ensures
        prefix_value(s, i) == limbs_value(s),
    decreases i,
{
    if i > s.len() {
        lemma_prefix_beyond(s, (i - 1) as nat);
        let w = weight((i - 1) as nat);
        assert(0 * w == 0);
    }
}

/// Two limb sequences that agree on the first `i` limbs hold the same prefix.
pub proof fn lemma_prefix_agree(s: Seq<u32>, t: Seq<u32>, i: nat)
    requires
        forall|k: int| 0 <= k < i ==> limb_at(s, k) == limb_at(t, k),
    ensures
        prefix_value(s, i) == prefix_value(t, i),
    decreases i,
{
    if i > 0 {
        lemma_prefix_agree(s, t, (i - 1) as nat);
    }
}

/// Appending a limb adds it at the weight of its place.
pub proof fn lemma_push_value(s: Seq<u32>, x: u32)
    ensures
        limbs_value(s.push(x)) == limbs_value(s) + x * weight(s.len()),
{
    let t = s.push(x);
    assert forall|k: int| 0 <= k < s.len() implies limb_at(s, k) == limb_at(t, k) by {}
    lemma_prefix_agree(s, t, s.len());
    assert(limb_at(t, s.len() as int) == x);
}

/// A prefix is zero exactly when each of its limbs is.
pub proof fn lemma_prefix_zero(s: Seq<u32>, i: nat)
    ensures
        prefix_value(s, i) == 0 <==> (forall|k: int| 0 <= k < i ==> limb_at(s, k) == 0),
    decreases i,
{
    if i > 0 {
        lemma_prefix_zero(s, (i - 1) as nat);
        lemma_weight_positive((i - 1) as nat);
        let w = weight((i - 1) as nat);
        let l = limb_at(s, i - 1);
        assert(l * w == 0 <==> l == 0) by (nonlinear_arith)
            requires
                w > 0,
                l >= 0,
        ;
        if prefix_value(s, i) == 0 {
            assert forall|k: int| 0 <= k < i implies limb_at(s, k) == 0 by {
                if k < i - 1 {
                }
            }
        }
    }
}

/// The limbs of a 64-bit number.
pub fn limbs_from_u64(v: u64) -> (r: Vec<u32>)
    ensures
        limbs_value(r@) == v,
{
    let lo: u32 = (v % 0x1_0000_0000) as u32;
    let hi: u32 = (v / 0x1_0000_0000) as u32;
    let mut r: Vec<u32> = Vec::new();
    proof {
        lemma_push_value(r@, lo);
        lemma_push_value(r@.push(lo), hi);
        assert(weight(0) == 1);
        assert(weight(1) == 0x1_0000_0000) by {
            reveal_with_fuel(weight, 2);
        }
        assert(limbs_value(r@) == 0);
        let one = r@.push(lo);
        assert(one.len() == 1);
        assert(lo * weight(0) == lo);
        assert(hi * weight(1) == hi * 0x1_0000_0000);
        assert(limbs_value(one) == lo);
        assert(limbs_value(one.push(hi)) == lo + hi * 0x1_0000_0000);
    }
    r.push(lo);
    r.push(hi);
    r
}

/// Whether the limbs hold zero.
pub fn limbs_is_zero(a: &Vec<u32>) -> (r: bool)
    ensures
        r == (limbs_value(a@) == 0),
{
    let mut i: usize = 0;
    while i < a.len()
        invariant
            i <= a.len(),
            forall|k: int| 0 <= k < i ==> limb_at(a@, k) == 0,
        decreases a.len() - i,
    {
        if a[i] != 0 {
            proof {
                lemma_prefix_zero(a@, a@.len());
                assert(limb_at(a@, i as int) != 0);
            }
            return false;
        }
        i += 1;
    }
    proof {
        lemma_prefix_zero(a@, a@.len());
    }
    true
}

fn limb_or_zero(a: &Vec<u32>, i: usize) -> (r: u32)
    ensures
        r == limb_at(a@, i as int),
{
    if i < a.len() {
        a[i]
    } else {
        0
    }
}

/// The sum of two naturals.
pub fn limbs_add(a: &Vec<u32>, b: &Vec<u32>) -> (r: Vec<u32>)
    ensures
        limbs_value(r@) == limbs_value(a@) + limbs_value(b@),
{
    let n: usize = if a.len() >= b.len() {
        a.len()
    } else {
        b.len()
    };
    let mut r: Vec<u32> = Vec::new();
    let mut carry: u64 = 0;
    let mut i: usize = 0;
    while i < n
        invariant
            i <= n,
            r@.len() == i,
            carry <= 1,
            limbs_value(r@) + carry * weight(i as nat) == prefix_value(a@, i as nat)
                + prefix_value(b@, i as nat),
        decreases n - i,
    {
        let x: u32 = limb_or_zero(a, i);
        let y: u32 = limb_or_zero(b, i);
        let sum: u64 = x as u64 + y as u64 + carry;
        let low: u32 = (sum % 0x1_0000_0000) as u32;
        let high: u64 = sum / 0x1_0000_0000;
        proof {
            lemma_push_value(r@, low);
            let w = weight(i as nat);
            assert(sum == low + high * 0x1_0000_0000);
            assert(sum * w == low * w + high * (0x1_0000_0000 * w)) by (nonlinear_arith)
                requires
                    sum == low + high * 0x1_0000_0000,
            ;
            assert(sum * w == x * w + y * w + carry * w) by (nonlinear_arith)
                requires
                    sum == x + y + carry,
            ;
        }
        r.push(low);
        carry = high;
        i += 1;
    }
    proof {
        lemma_push_value(r@, carry as u32);
        lemma_prefix_beyond(a@, n as nat);
        lemma_prefix_beyond(b@, n as nat);
    }
    r.push(carry as u32);
    r
}

/// The difference `a - b`, or nothing where `a < b`.
pub fn limbs_sub(a: &Vec<u32>, b: &Vec<u32>) -> (r: Option<Vec<u32>>)
    ensures
        r is None <==> limbs_value(a@) < limbs_value(b@),
        r is Some ==> limbs_value(r->0@) == limbs_value(a@) - limbs_value(b@),
{
    let n: usize = if a.len() >= b.len() {
        a.len()
    } else {
        b.len()
    };
    let mut r: Vec<u32> = Vec::new();
    let mut borrow: u64 = 0;
    let mut i: usize = 0;
    while i < n
        invariant
            i <= n,
            r@.len() == i,
            borrow <= 1,
            limbs_value(r@) + prefix_value(b@, i as nat) == prefix_value(a@, i as nat) + borrow
                * weight(i as nat),
        decreases n - i,
    {
        let x: u32 = limb_or_zero(a, i);
        let y: u32 = limb_or_zero(b, i);
        let take: u64 = y as u64 + borrow;
        let total: u64 = if (x as u64) < take {
            x as u64 + 0x1_0000_0000 - take
        } else {
            x as u64 - take
        };
        let next: u64 = if (x as u64) < take {
            1
        } else {
            0
        };
        let low: u32 = total as u32;
        proof {
            lemma_push_value(r@, low);
            let w = weight(i as nat);
            assert(low + y + borrow == x + next * 0x1_0000_0000);
            assert(low * w + y * w + borrow * w == x * w + next * (0x1_0000_0000 * w))
                by (nonlinear_arith)
                requires
                    low + y + borrow == x + next * 0x1_0000_0000,
            ;
        }
        r.push(low);
        borrow = next;
        i += 1;
    }
    proof {
        lemma_prefix_beyond(a@, n as nat);
        lemma_prefix_beyond(b@, n as nat);
        lemma_prefix_bound(r@, n as nat);
        lemma_prefix_bound(a@, n as nat);
        assert(borrow * weight(n as nat) == if borrow == 1 {
            weight(n as nat)
        } else {
            0
        }) by (nonlinear_arith)
            requires
                borrow <= 1,
        ;
    }
    if borrow == 1 {
        None
    } else {
        Some(r)
    }
}

/// The product of `a`, one limb `m` and 2^(32 shift).
fn limbs_mul_limb(a: &Vec<u32>, m: u32, shift: usize) -> (r: Vec<u32>)
    ensures
        limbs_value(r@) == limbs_value(a@) * m * weight(shift as nat),
{
    let mut r: Vec<u32> = Vec::new();
    let mut k: usize = 0;
    while k < shift
        invariant
            k <= shift,
            r@.len() == k,
            limbs_value(r@) == 0,
        decreases shift - k,
    {
        proof {
            lemma_push_value(r@, 0);
            assert(0 * weight(k as nat) == 0);
        }
        r.push(0);
        k += 1;
    }
    let mut carry: u64 = 0;
    let mut i: usize = 0;
    proof {
        let ws = weight(shift as nat);
        assert(0 * ws == 0);
        assert(0 * m * ws == 0) by (nonlinear_arith);
    }
    while i < a.len()
        invariant
            i <= a.len(),
            r@.len() == shift + i,
            carry <= 0xffff_ffff,
            limbs_value(r@) + carry * weight((shift + i) as nat) == prefix_value(a@, i as nat) * m
                * weight(shift as nat),
        decreases a.len() - i,
    {
        let x: u32 = a[i];
        assert(x * m + carry <= 0xffff_ffff * 0xffff_ffff + 0xffff_ffff) by (nonlinear_arith)
            requires
                x <= 0xffff_ffff,
                m <= 0xffff_ffff,
                carry <= 0xffff_ffff,
        ;
        let prod: u64 = x as u64 * m as u64 + carry;
        let low: u32 = (prod % 0x1_0000_0000) as u32;
        let high: u64 = prod / 0x1_0000_0000;
        proof {
            lemma_push_value(r@, low);
            lemma_weight_adds(shift as nat, i as nat);
            let w = weight((shift + i) as nat);
            let ws = weight(shift as nat);
            let wi = weight(i as nat);
            let p = prefix_value(a@, i as nat);
            assert(weight((shift + i + 1) as nat) == 0x1_0000_0000 * w);
            assert(prod == low + high * 0x1_0000_0000);
            assert(low * w + high * (0x1_0000_0000 * w) == x * m * w + carry * w)
                by (nonlinear_arith)
                requires
                    prod == low + high * 0x1_0000_0000,
                    prod == x * m + carry,
            ;
            assert((p + x * wi) * m * ws == p * m * ws + x * m * w) by (nonlinear_arith)
                requires
                    w == ws * wi,
            ;
        }
        r.push(low);
        carry = high;
        i += 1;
    }
    proof {
        lemma_push_value(r@, carry as u32);
    }
    r.push(carry as u32);
    r
}

/// The product of two naturals.
pub fn limbs_mul(a: &Vec<u32>, b: &Vec<u32>) -> (r: Vec<u32>)
    ensures
        limbs_value(r@) == limbs_value(a@) * limbs_value(b@),
{
    let mut acc: Vec<u32> = Vec::new();
    let mut j: usize = 0;
    proof {
        assert(limbs_value(a@) * 0 == 0);
    }
    while j < b.len()
        invariant
            j <= b.len(),
            limbs_value(acc@) == limbs_value(a@) * prefix_value(b@, j as nat),
        decreases b.len() - j,
    {
        let row: Vec<u32> = limbs_mul_limb(a, b[j], j);
        proof {
            let v = limbs_value(a@);
            let p = prefix_value(b@, j as nat);
            let y = b[j as int];
            let w = weight(j as nat);
            assert(v * (p + y * w) == v * p + v * y * w) by (nonlinear_arith);
        }
        acc = limbs_add(&acc, &row);
        j += 1;
    }
    acc
}

/// Two to the power `k`.
pub open spec fn two_to(k: nat) -> nat
    decreases k,
{
    if k == 0 {
        1
    } else {
        2 * two_to((k - 1) as nat)
    }
}

/// Powers of two multiply: 2^(i + j) = 2^i 2^j.
pub proof fn lemma_two_to_adds(i: nat, j: nat)
    ensures
        two_to(i + j) == two_to(i) * two_to(j),
    decreases j,
{
    if j == 0 {
        assert(two_to(i) * 1 == two_to(i));
    } else {
        lemma_two_to_adds(i, (j - 1) as nat);
        let a = two_to(i);
        let b = two_to((j - 1) as nat);
        assert(two_to(i + j) == 2 * two_to((i + j - 1) as nat));
        assert(2 * (a * b) == a * (2 * b)) by (nonlinear_arith);
    }
}

/// 2^31 and 2^32 in figures.
pub proof fn lemma_two_to_32()
    ensures
        two_to(31) == 0x8000_0000,
        two_to(32) == 0x1_0000_0000,
{
    assert(two_to(8) == 256) by {
        reveal_with_fuel(two_to, 9);
    }
    lemma_two_to_adds(8, 8);
    assert(two_to(16) == 65536);
    lemma_two_to_adds(16, 16);
    assert(two_to(32) == 65536 * 65536);
    assert(two_to(32) == 2 * two_to(31));
}

/// The weight of limb `i` is 2^(32 i).
pub proof fn lemma_weight_is_power(i: nat)
    ensures
        weight(i) == two_to(32 * i),
    decreases i,
{
    if i > 0 {
        lemma_weight_is_power((i - 1) as nat);
        lemma_two_to_32();
        lemma_two_to_adds(32, (32 * (i - 1)) as nat);
        assert(32 + 32 * (i - 1) == 32 * i);
        let w = weight((i - 1) as nat);
        assert(two_to(32) * w == 0x1_0000_0000 * w);
    }
}

/// The limbs of two to the power `k`.
pub fn limbs_power_of_two(k: u32) -> (r: Vec<u32>)
    ensures
        limbs_value(r@) == two_to(k as nat),
{
    let zeros: u32 = k / 32;
    let bit: u32 = k % 32;
    let mut r: Vec<u32> = Vec::new();
    let mut i: u32 = 0;
    while i < zeros
        invariant
            i <= zeros,
            r@.len() == i,
            limbs_value(r@) == 0,
        decreases zeros - i,
    {
        proof {
            lemma_push_value(r@, 0);
            assert(0 * weight(i as nat) == 0);
        }
        r.push(0);
        i += 1;
    }
    let mut top: u32 = 1;
    let mut j: u32 = 0;
    proof {
        lemma_two_to_32();
        lemma_two_to_grows(0, 31);
    }
    while j < bit
        invariant
            j <= bit,
            bit < 32,
            top == two_to(j as nat),
            top <= two_to(31),
            two_to(31) == 0x8000_0000,
        decreases bit - j,
    {
        proof {
            lemma_two_to_grows((j + 1) as nat, 31);
        }
        top = top * 2;
        j += 1;
    }
    proof {
        lemma_push_value(r@, top);
        lemma_weight_is_power(zeros as nat);
        lemma_two_to_adds((32 * zeros) as nat, bit as nat);
        assert(32 * zeros + bit == k);
        let w = weight(zeros as nat);
        assert(top * w == w * top) by (nonlinear_arith);
    }
    r.push(top);
    r
}

/// Powers of two grow with the exponent.
pub proof fn lemma_two_to_grows(i: nat, j: nat)
    requires
        i <= j,
    ensures
        two_to(i) <= two_to(j),
        two_to(i) > 0,
    decreases j,
{
    if i < j {
        lemma_two_to_grows(i, (j - 1) as nat);
    } else if i > 0 {
        lemma_two_to_grows((i - 1) as nat, (j - 1) as nat);
    }
}

/// Limbs that are zero from place `k` on add nothing to the first `k`.
pub proof fn lemma_prefix_zero_tail(s: Seq<u32>, k: nat, n: nat)
    requires
        k <= n,
        forall|j: int| k <= j < n ==> limb_at(s, j) == 0,
    ensures
        prefix_value(s, n) == prefix_value(s, k),
    decreases n,
{
    if k < n {
        lemma_prefix_zero_tail(s, k, (n - 1) as nat);
        assert(limb_at(s, n - 1) == 0);
        assert(0 * weight((n - 1) as nat) == 0);
    }
}

/// The leading limbs of a natural, at most three of them, as one number
/// `top`, and the count `k` of the limbs below them: the natural lies from
/// `top 2^(32 k)` up to, and not including, `(top + 1) 2^(32 k)`. Where
/// limbs were left off, `top` is 2^64 at least, so that it holds the first
/// 65 bits of the natural or more.
pub fn limbs_leading(a: &Vec<u32>) -> (r: (u128, usize))
    ensures
        r.0 * weight(r.1 as nat) <= limbs_value(a@) < (r.0 + 1) * weight(r.1 as nat),
        r.1 > 0 ==> r.0 >= 0x1_0000_0000_0000_0000,
        r.1 == 0 ==> r.0 == limbs_value(a@),
{
    let mut h: usize = a.len();
    while h > 0 && a[h - 1] == 0
        invariant
            h <= a.len(),
            forall|j: int| h <= j < a.len() ==> limb_at(a@, j) == 0,
        decreases h,
    {
        h -= 1;
    }
    proof {
        lemma_prefix_zero_tail(a@, h as nat, a@.len());
        assert(weight(0) == 1);
        assert(weight(1) == 0x1_0000_0000) by {
            reveal_with_fuel(weight, 2);
        }
        assert(weight(2) == 0x1_0000_0000_0000_0000) by {
            reveal_with_fuel(weight, 3);
        }
    }
    if h == 0 {
        assert(limbs_value(a@) == 0);
        assert(1 * weight(0) == 1);
        (0, 0)
    } else if h == 1 {
        proof {
            let x0 = a@[0] as int;
            assert(prefix_value(a@, 0) == 0);
            assert(prefix_value(a@, 1) == prefix_value(a@, 0) + limb_at(a@, 0) * weight(0));
            assert(x0 * 1 == x0 && (x0 + 1) * 1 == x0 + 1);
        }
        (a[0] as u128, 0)
    } else if h == 2 {
        proof {
            let x0 = a@[0] as int;
            let x1 = a@[1] as int;
            assert(prefix_value(a@, 0) == 0);
            assert(prefix_value(a@, 1) == prefix_value(a@, 0) + limb_at(a@, 0) * weight(0));
            assert(prefix_value(a@, 2) == prefix_value(a@, 1) + limb_at(a@, 1) * weight(1));
            assert(x0 * 1 == x0);
            let top = x1 * 0x1_0000_0000 + x0;
            assert(top * 1 == top && (top + 1) * 1 == top + 1);
        }
        (a[1] as u128 * 0x1_0000_0000 + a[0] as u128, 0)
    } else {
        let k: usize = h - 3;
        let top: u128 = a[h - 1] as u128 * 0x1_0000_0000_0000_0000 + a[h - 2] as u128
            * 0x1_0000_0000 + a[h - 3] as u128;
        proof {
            let w = weight(k as nat);
            let low = prefix_value(a@, k as nat);
            lemma_prefix_bound(a@, k as nat);
            lemma_weight_adds(k as nat, 1);
            lemma_weight_adds(k as nat, 2);
            let x0 = a@[h - 3] as int;
            let x1 = a@[h - 2] as int;
            let x2 = a@[h - 1] as int;
            assert(prefix_value(a@, (k + 1) as nat) == low + x0 * w);
            assert(prefix_value(a@, (k + 2) as nat) == low + x0 * w + x1 * weight((k + 1) as nat));
            assert(prefix_value(a@, h as nat) == low + x0 * w + x1 * weight((k + 1) as nat) + x2
                * weight((k + 2) as nat));
            assert(x1 * (w * 0x1_0000_0000) == (x1 * 0x1_0000_0000) * w) by (nonlinear_arith);
            assert(x2 * (w * 0x1_0000_0000_0000_0000) == (x2 * 0x1_0000_0000_0000_0000) * w)
                by (nonlinear_arith);
            assert(top * w == (x2 * 0x1_0000_0000_0000_0000) * w + (x1 * 0x1_0000_0000) * w + x0
                * w) by (nonlinear_arith)
                requires
                    top == x2 * 0x1_0000_0000_0000_0000 + x1 * 0x1_0000_0000 + x0,
            ;
            assert((top + 1) * w == top * w + w) by (nonlinear_arith);
            assert(x2 >= 1);
            if k == 0 {
                assert(low == 0);
                assert(top * 1 == top);
            }
        }
        (top, k)
    }
}

} // verus!
