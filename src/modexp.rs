//! Modular exponentiation by repeated squaring.

use crate::bignum::{half, is_even, is_zero, rem, times, BigNat};
use crate::error::PrimeError;
use vstd::arithmetic::div_mod::{
    lemma_mul_mod_noop_left, lemma_mul_mod_noop_right, lemma_small_mod,
};
use vstd::arithmetic::power::{lemma_pow0, lemma_pow1, lemma_pow_adds, lemma_pow_mod_noop, lemma_pow_multiplies, pow};
use vstd::prelude::*;

verus! {

/// `b^e mod m`.
pub open spec fn mod_pow(b: nat, e: nat, m: nat) -> int
    recommends
        m > 0,
{
    pow(b as int, e) % (m as int)
}

/// One step of square-and-multiply keeps `r * b^e mod m` unchanged.
proof fn lemma_square_step(r: int, b: int, e: nat, m: int)
    requires
        m > 0,
    ensures
        e % 2 == 1 ==> (((r * b) % m) * pow((b * b) % m, e / 2)) % m == (r * pow(b, e)) % m,
        e % 2 == 0 ==> (r * pow((b * b) % m, e / 2)) % m == (r * pow(b, e)) % m,
{
    let h: nat = e / 2;
    let y = pow(b * b, h);
    lemma_pow_mod_noop(b * b, h, m);
    assert(pow(b, 2) == b * b) by {
        lemma_pow1(b);
        lemma_pow_adds(b, 1, 1);
    }
    lemma_pow_multiplies(b, 2, h);
    assert(y == pow(b, 2 * h));
    lemma_pow_adds(b, 2 * h, (e % 2) as nat);
    assert(pow(b, e) == y * pow(b, (e % 2) as nat));
    if e % 2 == 1 {
        lemma_pow1(b);
        let s = (r * b) % m;
        lemma_mul_mod_noop_right(s, pow((b * b) % m, h), m);
        lemma_mul_mod_noop_right(s, y, m);
        lemma_mul_mod_noop_left(r * b, y, m);
        assert((r * b) * y == r * pow(b, e)) by (nonlinear_arith)
            requires
                pow(b, e) == y * b,
        ;
    } else {
        lemma_pow0(b);
        lemma_mul_mod_noop_right(r, pow((b * b) % m, h), m);
        lemma_mul_mod_noop_right(r, y, m);
    }
}

/// `base^exponent mod modulus` for a nonzero modulus.
pub(crate) fn mod_pow_nonzero(base: &BigNat, exponent: &BigNat, modulus: &BigNat) -> (r: BigNat)
    requires
        modulus@ > 0,
    ensures
        r@ == mod_pow(base@, exponent@, modulus@),
        r@ < modulus@,
{
    let ghost m: int = modulus@ as int;
    let mut result = rem(&BigNat::from_u64(1), modulus);
    let mut b = rem(base, modulus);
    let mut e = exponent.copy();
    proof {
        lemma_pow_mod_noop(base@ as int, exponent@, m);
        lemma_mul_mod_noop_left(1, pow(b@ as int, e@), m);
        lemma_mul_mod_noop_right(1, pow(base@ as int, e@), m);
    }
    while !is_zero(&e)
        invariant
            m == modulus@,
            m > 0,
            result@ < m,
            b@ < m,
            (result@ * pow(b@ as int, e@)) % m == mod_pow(base@, exponent@, modulus@),
        decreases e@,
    {
        let ghost (r0, b0, e0) = (result@ as int, b@ as int, e@);
        proof {
            lemma_square_step(r0, b0, e0, m);
        }
        if !is_even(&e) {
            result = rem(&times(&result, &b), modulus);
        }
        e = half(&e);
        b = rem(&times(&b, &b), modulus);
    }
    proof {
        lemma_pow0(b@ as int);
        lemma_small_mod(result@, m as nat);
    }
    result
}

/// `base^exponent mod modulus`, computed by square-and-multiply; a zero
/// modulus is refused.
pub fn modular_exp(base: &BigNat, exponent: &BigNat, modulus: &BigNat) -> (r: Result<BigNat, PrimeError>)
    ensures
        r is Err <==> modulus@ == 0,
        r is Err ==> r == Err::<BigNat, PrimeError>(PrimeError::ZeroModulus),
        r matches Ok(v) ==> v@ == mod_pow(base@, exponent@, modulus@) && v@ < modulus@,
{
    if is_zero(modulus) {
        return Err(PrimeError::ZeroModulus);
    }
    Ok(mod_pow_nonzero(base, exponent, modulus))
}

/// For every modulus `m > 0`: `a^0 mod m == 1 mod m` and
/// `a^1 mod m == a mod m`.
pub proof fn lemma_modular_exp_small_exponents(a: nat, m: nat)
    requires
        m > 0,
    ensures
        mod_pow(a, 0, m) == 1int % (m as int),
        mod_pow(a, 1, m) == a % m,
{
    lemma_pow0(a as int);
    lemma_pow1(a as int);
}

} // verus!
