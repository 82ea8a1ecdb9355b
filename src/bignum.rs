//! Arbitrary-precision natural numbers, held as little-endian base 2^32
//! digits. The arithmetic itself is done by `num`'s `BigUint`; each
//! operation below states what it computes on the numbers' values.

use num::bigint::{BigUint, RandBigInt};
use num::integer::Integer;
use num::traits::Zero;
use rand::rngs::StdRng;
use rand::SeedableRng;
use vstd::arithmetic::power2::pow2;
use vstd::prelude::*;

verus! {

#[verifier::external_type_specification]
#[verifier::external_body]
pub struct ExStdRng(StdRng);

/// The value of a little-endian sequence of base 2^32 digits.
pub open spec fn digits_value(d: Seq<u32>) -> nat
    decreases d.len(),
{
    if d.len() == 0 {
        0
    } else {
        d[0] as nat + 4294967296 * digits_value(d.subrange(1, d.len() as int))
    }
}

/// A natural number of unbounded size. Its view is the number it stands for.
#[derive(Debug, Clone, PartialEq, Eq)]
pub struct BigNat {
    digits: Vec<u32>,
}

impl View for BigNat {
    type V = nat;

    closed spec fn view(&self) -> nat {
        digits_value(self.digits@)
    }
}

/// A zero digit at the most significant end adds nothing to the value.
proof fn lemma_drop_leading_zero(d: Seq<u32>)
    requires
        d.len() > 0,
        d.last() == 0,
    ensures
        digits_value(d) == digits_value(d.drop_last()),
    decreases d.len(),
{
    let t = d.subrange(1, d.len() as int);
    if d.len() == 1 {
        assert(t.len() == 0);
        assert(d[0] == 0);
        assert(digits_value(t) == 0);
        assert(d.drop_last().len() == 0);
    } else {
        assert(t.last() == 0);
        lemma_drop_leading_zero(t);
        let e = d.drop_last();
        assert(e.subrange(1, e.len() as int) =~= t.drop_last());
        assert(e[0] == d[0]);
        assert(digits_value(e) == e[0] as nat + 4294967296 * digits_value(e.subrange(1, e.len() as int)));
    }
}

impl BigNat {
    /// The number with the given little-endian base 2^32 digits.
    pub fn from_u32_digits(digits: Vec<u32>) -> (r: BigNat)
        ensures
            r@ == digits_value(digits@),
    {
        let mut d = digits;
        while d.len() > 0 && d[d.len() - 1] == 0
            invariant
                digits_value(d@) == digits_value(digits@),
            decreases d@.len(),
        {
            proof {
                lemma_drop_leading_zero(d@);
            }
            d.pop();
        }
        BigNat { digits: d }
    }

    /// The number `v`.
    pub fn from_u64(v: u64) -> (r: BigNat)
        ensures
            r@ == v as nat,
    {
        let lo: u32 = (v % 4294967296) as u32;
        let hi: u32 = (v / 4294967296) as u32;
        let mut digits: Vec<u32> = Vec::new();
        if v != 0 {
            digits.push(lo);
            if hi != 0 {
                digits.push(hi);
            }
        }
        proof {
            let d = digits@;
            assert(v as nat == lo as nat + 4294967296 * hi as nat);
            if v != 0 {
                let t = d.subrange(1, d.len() as int);
                if hi != 0 {
                    assert(t.len() == 1 && t[0] == hi);
                    assert(t.subrange(1, t.len() as int).len() == 0);
                    assert(digits_value(t.subrange(1, t.len() as int)) == 0);
                    assert(digits_value(t) == hi as nat);
                } else {
                    assert(t.len() == 0);
                }
                assert(d[0] == lo);
                assert(digits_value(d) == d[0] as nat + 4294967296 * digits_value(t));
            }
        }
        BigNat { digits }
    }

    /// A copy of this number.
    pub fn copy(&self) -> (r: BigNat)
        ensures
            r@ == self@,
    {
        let mut digits: Vec<u32> = Vec::new();
        let mut i: usize = 0;
        while i < self.digits.len()
            invariant
                i <= self.digits@.len(),
                digits@ == self.digits@.subrange(0, i as int),
            decreases self.digits@.len() - i,
        {
            digits.push(self.digits[i]);
            i += 1;
        }
        assert(digits@ =~= self.digits@);
        BigNat { digits }
    }

    /// The little-endian base 2^32 digits of this number.
    pub fn to_u32_digits(&self) -> (r: Vec<u32>)
        ensures
            digits_value(r@) == self@,
    {
        let r = self.copy();
        r.digits
    }
}

/// Relies on `BigUint + BigUint`: the exact sum.
#[verifier::external_body]
pub(crate) fn plus(a: &BigNat, b: &BigNat) -> (r: BigNat)
    ensures
        r@ == a@ + b@,
{
    let s = BigUint::new(a.digits.clone()) + BigUint::new(b.digits.clone());
    BigNat { digits: s.to_u32_digits() }
}

/// Relies on `BigUint - BigUint`, which panics when `b > a`.
#[verifier::external_body]
pub(crate) fn minus(a: &BigNat, b: &BigNat) -> (r: BigNat)
    requires
        b@ <= a@,
    ensures
        r@ == a@ - b@,
{
    let s = BigUint::new(a.digits.clone()) - BigUint::new(b.digits.clone());
    BigNat { digits: s.to_u32_digits() }
}

/// Relies on `BigUint * BigUint`: the exact product.
#[verifier::external_body]
pub(crate) fn times(a: &BigNat, b: &BigNat) -> (r: BigNat)
    ensures
        r@ == a@ * b@,
{
    let s = BigUint::new(a.digits.clone()) * BigUint::new(b.digits.clone());
    BigNat { digits: s.to_u32_digits() }
}

/// Relies on `BigUint % BigUint`, which panics on a zero divisor.
#[verifier::external_body]
pub(crate) fn rem(a: &BigNat, m: &BigNat) -> (r: BigNat)
    requires
        m@ > 0,
    ensures
        r@ == a@ % m@,
{
    let s = BigUint::new(a.digits.clone()) % BigUint::new(m.digits.clone());
    BigNat { digits: s.to_u32_digits() }
}

/// Relies on `BigUint >> 1`: floor division by two.
#[verifier::external_body]
pub(crate) fn half(a: &BigNat) -> (r: BigNat)
    ensures
        r@ == a@ / 2,
{
    let s = BigUint::new(a.digits.clone()) >> 1u32;
    BigNat { digits: s.to_u32_digits() }
}

/// Relies on `BigUint << k`: multiplication by `2^k`.
#[verifier::external_body]
pub(crate) fn shl(a: &BigNat, k: u64) -> (r: BigNat)
    ensures
        r@ == a@ * pow2(k as nat),
{
    let s = BigUint::new(a.digits.clone()) << k;
    BigNat { digits: s.to_u32_digits() }
}

/// Relies on `Integer::is_even` for `BigUint`.
#[verifier::external_body]
pub(crate) fn is_even(a: &BigNat) -> (r: bool)
    ensures
        r == (a@ % 2 == 0),
{
    BigUint::new(a.digits.clone()).is_even()
}

/// Relies on `Zero::is_zero` for `BigUint`.
#[verifier::external_body]
pub(crate) fn is_zero(a: &BigNat) -> (r: bool)
    ensures
        r == (a@ == 0),
{
    BigUint::new(a.digits.clone()).is_zero()
}

/// Relies on `Integer::is_multiple_of` for `BigUint`: a zero divisor divides
/// only zero.
#[verifier::external_body]
pub(crate) fn is_multiple_of(a: &BigNat, b: &BigNat) -> (r: bool)
    ensures
        b@ > 0 ==> r == (a@ % b@ == 0),
        b@ == 0 ==> r == (a@ == 0),
{
    BigUint::new(a.digits.clone()).is_multiple_of(&BigUint::new(b.digits.clone()))
}

/// Relies on `PartialOrd::le` for `BigUint`: numeric order.
#[verifier::external_body]
pub(crate) fn le(a: &BigNat, b: &BigNat) -> (r: bool)
    ensures
        r == (a@ <= b@),
{
    BigUint::new(a.digits.clone()) <= BigUint::new(b.digits.clone())
}

/// Relies on `PartialEq::eq` for `BigUint`: numeric equality.
#[verifier::external_body]
pub(crate) fn eq(a: &BigNat, b: &BigNat) -> (r: bool)
    ensures
        r == (a@ == b@),
{
    BigUint::new(a.digits.clone()) == BigUint::new(b.digits.clone())
}

/// Relies on `BigUint::bits`: the length of the binary representation,
/// zero for zero.
#[verifier::external_body]
pub(crate) fn bits(a: &BigNat) -> (r: u64)
    ensures
        a@ == 0 ==> r == 0,
        a@ > 0 ==> r >= 1 && pow2((r - 1) as nat) <= a@ && a@ < pow2(r as nat),
{
    BigUint::new(a.digits.clone()).bits()
}

/// Relies on `RandBigInt::gen_biguint`: a random number below `2^bit_size`.
#[verifier::external_body]
pub(crate) fn random_bits(rng: &mut StdRng, bit_size: u64) -> (r: BigNat)
    ensures
        r@ < pow2(bit_size as nat),
{
    BigNat { digits: rng.gen_biguint(bit_size).to_u32_digits() }
}

/// Relies on `RandBigInt::gen_biguint_range`: a random number in
/// `[lo, hi)`; it panics when the range is empty.
#[verifier::external_body]
pub(crate) fn random_range(rng: &mut StdRng, lo: &BigNat, hi: &BigNat) -> (r: BigNat)
    requires
        lo@ < hi@,
    ensures
        lo@ <= r@ < hi@,
{
    let l = BigUint::new(lo.digits.clone());
    let h = BigUint::new(hi.digits.clone());
    BigNat { digits: rng.gen_biguint_range(&l, &h).to_u32_digits() }
}

/// Relies on `SeedableRng::from_entropy` for `StdRng`: a generator seeded
/// from the operating system's entropy source.
#[verifier::external_body]
pub(crate) fn fresh_rng() -> (r: StdRng) {
    StdRng::from_entropy()
}

} // verus!
