//! Prime generation: random search for weak primes, and Gordon's algorithm
//! for strong primes.

use crate::bignum::{
    eq, fresh_rng, is_even, minus, plus, random_bits, random_range, rem, shl, times, BigNat,
};
use crate::error::PrimeError;
use crate::modexp::{mod_pow, mod_pow_nonzero};
use crate::primality::{has_small_factor, passes_rounds, probably_prime_faster_with, SMALL_PRIMES};
use rand::rngs::StdRng;
use vstd::arithmetic::div_mod::{lemma_fundamental_div_mod, lemma_mod_multiples_basic, lemma_small_mod};
use vstd::arithmetic::power2::{lemma_pow2_pos, lemma_pow2_unfold, pow2};
use vstd::prelude::*;

verus! {

/// No bound on the number of attempts that can be reached in practice.
pub const UNBOUNDED_ATTEMPTS: u64 = 0xffff_ffff_ffff_ffff;

/// Fewest bits of a weak prime: every odd number below 256 is 1 or a
/// multiple of a prime of the trial-division table, so none passes the test.
pub const MIN_WEAK_PRIME_BITS: u64 = 9;

/// Fewest bits of a strong prime: `s` has half as many bits, and is a weak
/// prime.
pub const MIN_STRONG_PRIME_BITS: u64 = 18;

/// `n` came through the screening that every generated prime passes: it is
/// odd, greater than one, and no multiple of an odd prime below 256.
pub open spec fn passed_screening(n: nat) -> bool {
    n > 1 && n % 2 == 1 && !has_small_factor(n)
}

/// `n` passed the prime test at `security`: the screening, and
/// `security - 1` Miller-Rabin rounds that found no witness of compositeness.
pub open spec fn passed_prime_test(n: nat, security: nat) -> bool {
    passed_screening(n) && (security >= 2 ==> passes_rounds(n, (security - 1) as nat))
}

/// `n` has exactly `bit_size` bits.
pub open spec fn has_bit_length(n: nat, bit_size: nat) -> bool {
    bit_size >= 1 && pow2((bit_size - 1) as nat) <= n && n < pow2(bit_size)
}

/// The first number of the form `base + step * k`, `k` counting up from
/// `seed`, that passes the prime test, together with its `k`; `None` once
/// `max_attempts` numbers have failed.
pub fn search_prime_of_form(
    rng: &mut StdRng,
    base: &BigNat,
    step: &BigNat,
    seed: &BigNat,
    security: u64,
    max_attempts: u64,
) -> (res: Option<(BigNat, BigNat)>)
    requires
        base@ % 2 == 1,
        step@ % 2 == 0,
    ensures
        max_attempts == 0 ==> res is None,
        res matches Some(v) ==> {
            &&& v.0@ >= seed@
            &&& v.1@ == base@ + step@ * v.0@
            &&& passed_prime_test(v.1@, security as nat)
        },
{
    let one = BigNat::from_u64(1);
    let mut k = seed.copy();
    let mut attempts: u64 = 0;
    while attempts < max_attempts
        invariant
            one@ == 1,
            k@ >= seed@,
            base@ % 2 == 1,
            step@ % 2 == 0,
        decreases max_attempts - attempts,
    {
        let candidate = plus(base, &times(step, &k));
        attempts += 1;
        proof {
            let h = step@ / 2;
            assert(step@ * k@ == 2 * (h * k@)) by (nonlinear_arith)
                requires
                    step@ == 2 * h,
            ;
            assert(candidate@ % 2 == 1);
            assert(SMALL_PRIMES[0] == 3);
            assert(3nat % (SMALL_PRIMES[0] as nat) == 0);
        }
        if probably_prime_faster_with(rng, &candidate, security) {
            return Some((k, candidate));
        }
        k = plus(&k, &one);
    }
    None
}

/// Random search for a prime of exactly `bit_size` bits: draws numbers in
/// `[2^(bit_size - 1), 2^bit_size)` from `rng` until an odd one passes trial
/// division and `security - 1` Miller-Rabin rounds, or `max_attempts`
/// numbers have been drawn.
pub fn generate_weak_prime_with(
    rng: &mut StdRng,
    bit_size: u64,
    security: u64,
    max_attempts: u64,
) -> (r: Result<BigNat, PrimeError>)
    ensures
        bit_size < MIN_WEAK_PRIME_BITS <==> r == Err::<BigNat, PrimeError>(PrimeError::InvalidBitLength),
        bit_size >= MIN_WEAK_PRIME_BITS && max_attempts == 0 ==> r == Err::<BigNat, PrimeError>(PrimeError::Exhausted),
        r matches Err(e) ==> e == PrimeError::InvalidBitLength || e == PrimeError::Exhausted,
        r matches Ok(p) ==> passed_prime_test(p@, security as nat) && has_bit_length(p@, bit_size as nat),
{
    if bit_size < MIN_WEAK_PRIME_BITS {
        return Err(PrimeError::InvalidBitLength);
    }
    let one = BigNat::from_u64(1);
    let lo = shl(&one, bit_size - 1);
    let hi = shl(&one, bit_size);
    proof {
        lemma_pow2_unfold(bit_size as nat);
        lemma_pow2_pos((bit_size - 1) as nat);
    }
    let mut attempts: u64 = 0;
    while attempts < max_attempts
        invariant
            bit_size >= MIN_WEAK_PRIME_BITS,
            lo@ == pow2((bit_size - 1) as nat),
            hi@ == pow2(bit_size as nat),
            lo@ < hi@,
        decreases max_attempts - attempts,
    {
        let n = random_range(rng, &lo, &hi);
        attempts += 1;
        proof {
            assert(SMALL_PRIMES[0] == 3);
            assert(3nat % (SMALL_PRIMES[0] as nat) == 0);
        }
        if !is_even(&n) && probably_prime_faster_with(rng, &n, security) {
            return Ok(n);
        }
    }
    Err(PrimeError::Exhausted)
}

/// `generate_weak_prime_with` on a generator seeded from the operating
/// system, with no practical bound on the number of attempts.
pub fn generate_weak_prime(bit_size: u64, security: u64) -> (r: Result<BigNat, PrimeError>)
    ensures
        bit_size < MIN_WEAK_PRIME_BITS <==> r == Err::<BigNat, PrimeError>(PrimeError::InvalidBitLength),
        r matches Err(e) ==> e == PrimeError::InvalidBitLength || e == PrimeError::Exhausted,
        r matches Ok(p) ==> passed_prime_test(p@, security as nat) && has_bit_length(p@, bit_size as nat),
{
    let mut rng = fresh_rng();
    generate_weak_prime_with(&mut rng, bit_size, security, UNBOUNDED_ATTEMPTS)
}

/// `r`, `s` and `t` give `p` the structure of a strong prime:
/// `r | p - 1`, `s | p + 1` and `t | r - 1`.
pub open spec fn is_gordon_structure(p: nat, r: nat, s: nat, t: nat) -> bool {
    &&& p > 1 && r > 1 && s > 1 && t > 1
    &&& (p - 1) % (r as int) == 0
    &&& (p + 1) % s == 0
    &&& (r - 1) % (t as int) == 0
}

/// Gordon's construction with multipliers `i` and `j`: `r = 2 i t + 1` and
/// `p = p0 + 2 j r s`, where `p0 = 2 (s^(r - 2) mod r) s - 1`.
pub open spec fn is_gordon_construction(p: nat, r: nat, s: nat, t: nat, i: nat, j: nat) -> bool {
    &&& r == 2 * i * t + 1
    &&& r >= 3
    &&& p + 1 == 2 * mod_pow(s, (r - 2) as nat, r) * s + 2 * j * r * s
}

/// `p` is a strong prime of about `bit_size` bits, tested at `security`,
/// with the factors `r`, `s` and `t`: all four passed the prime test, `s`
/// has `bit_size / 2` bits, `t` has `bit_size / 2 + 1` bits, and
/// `r > 2^(bit_size / 2)`.
pub open spec fn is_strong_prime_of(p: nat, r: nat, s: nat, t: nat, bit_size: nat, security: nat) -> bool {
    &&& is_gordon_structure(p, r, s, t)
    &&& passed_prime_test(p, security) && passed_prime_test(r, security)
    &&& passed_prime_test(s, security) && passed_prime_test(t, security)
    &&& has_bit_length(s, bit_size / 2)
    &&& has_bit_length(t, bit_size / 2 + 1)
    &&& r > pow2(bit_size / 2)
}

/// A strong prime `p`, the primes `r`, `s` and `t` it was built from, and
/// the multipliers `i` and `j` of its construction.
#[derive(Debug, Clone)]
pub struct StrongPrime {
    pub p: BigNat,
    pub r: BigNat,
    pub s: BigNat,
    pub t: BigNat,
    pub i: BigNat,
    pub j: BigNat,
}

/// Gordon's algorithm. With `half = bit_size / 2`: `s` and `t` are weak
/// primes of `half` and `half + 1` bits; `r` is the first number of the form
/// `2 i t + 1`, `i` counting up from a random seed of `bit_size / 4` bits,
/// that passes the prime test and satisfies `s^(r - 1) == 1 (mod r)`; and
/// `p` is the first number of the form `p0 + 2 j r s`, with
/// `p0 = 2 (s^(r - 2) mod r) s - 1` and `j` counting up from such a seed,
/// that passes the prime test. Each search draws at most `max_attempts`
/// numbers, and at most `max_attempts` values of `r` are tried.
pub fn generate_strong_prime_with(
    rng: &mut StdRng,
    bit_size: u64,
    security: u64,
    max_attempts: u64,
) -> (res: Result<StrongPrime, PrimeError>)
    ensures
        bit_size < MIN_STRONG_PRIME_BITS <==> res matches Err(PrimeError::InvalidBitLength),
        bit_size >= MIN_STRONG_PRIME_BITS && max_attempts == 0 ==> res matches Err(PrimeError::Exhausted),
        res matches Err(e) ==> e == PrimeError::InvalidBitLength || e == PrimeError::Exhausted,
        res matches Ok(g) ==> {
            &&& is_gordon_construction(g.p@, g.r@, g.s@, g.t@, g.i@, g.j@)
            &&& is_strong_prime_of(g.p@, g.r@, g.s@, g.t@, bit_size as nat, security as nat)
        },
{
    if bit_size < MIN_STRONG_PRIME_BITS {
        return Err(PrimeError::InvalidBitLength);
    }
    let half = bit_size / 2;
    let s = match generate_weak_prime_with(rng, half, security, max_attempts) {
        Ok(v) => v,
        Err(e) => {
            return Err(e);
        },
    };
    let t = match generate_weak_prime_with(rng, half + 1, security, max_attempts) {
        Ok(v) => v,
        Err(e) => {
            return Err(e);
        },
    };
    let one = BigNat::from_u64(1);
    let two = BigNat::from_u64(2);
    let seed_bits = bit_size / 4;

    // The search for r = 2 i t + 1.
    let r_step = times(&two, &t);
    let mut seed = random_bits(rng, seed_bits);
    let mut tries: u64 = 0;
    let mut found: Option<(BigNat, BigNat, BigNat)> = None;
    while tries < max_attempts
        invariant_except_break
            found is None,
        invariant
            one@ == 1,
            two@ == 2,
            r_step@ == 2 * t@,
            passed_prime_test(s@, security as nat),
            passed_prime_test(t@, security as nat),
        ensures
            found matches Some(v) ==> {
                &&& v.1@ == one@ + r_step@ * v.0@
                &&& passed_prime_test(v.1@, security as nat)
                &&& v.2@ == mod_pow(s@, (v.1@ - 2) as nat, v.1@)
                &&& (v.2@ * s@) % v.1@ == 1
            },
        decreases max_attempts - tries,
    {
        tries += 1;
        match search_prime_of_form(rng, &one, &r_step, &seed, security, max_attempts) {
            None => {
                break;
            },
            Some((i, r)) => {
                // s^(r - 1) == 1 (mod r) holds for every prime r that does not
                // divide s; checking it makes r | p - 1 certain even where
                // the probabilistic test was fooled.
                let x = mod_pow_nonzero(&s, &minus(&r, &two), &r);
                if eq(&rem(&times(&x, &s), &r), &one) {
                    found = Some((i, r, x));
                    break;
                }
                seed = plus(&i, &one);
            },
        }
    }
    let (i, r, x) = match found {
        Some(v) => v,
        None => {
            return Err(PrimeError::Exhausted);
        },
    };

    // The search for p = p0 + 2 j r s.
    let xs = times(&x, &s);
    proof {
        if xs@ == 0 {
            lemma_small_mod(0, r@);
        }
    }
    let p0 = minus(&times(&two, &xs), &one);
    let p_step = times(&times(&two, &r), &s);
    let j_seed = random_bits(rng, seed_bits);
    proof {
        assert(p0@ % 2 == 1);
        assert(p_step@ == 2 * (r@ * s@)) by (nonlinear_arith)
            requires
                p_step@ == (2 * r@) * s@,
        ;
    }
    let (j, p) = match search_prime_of_form(rng, &p0, &p_step, &j_seed, security, max_attempts) {
        Some(v) => v,
        None => {
            return Err(PrimeError::Exhausted);
        },
    };
    proof {
        let q = xs@ / r@;
        lemma_fundamental_div_mod(xs@ as int, r@ as int);
        assert(p@ + 1 == (2 * x@ + 2 * j@ * r@) * s@) by (nonlinear_arith)
            requires
                p@ == p0@ + p_step@ * j@,
                p0@ == 2 * xs@ - 1,
                xs@ == x@ * s@,
                p_step@ == 2 * (r@ * s@),
        ;
        lemma_mod_multiples_basic((2 * x@ + 2 * j@ * r@) as int, s@ as int);
        assert(p@ - 1 == (2 * q + 2 * j@ * s@) * r@) by (nonlinear_arith)
            requires
                p@ == p0@ + p_step@ * j@,
                p0@ == 2 * xs@ - 1,
                xs@ == r@ * q + 1,
                p_step@ == 2 * (r@ * s@),
        ;
        lemma_mod_multiples_basic((2 * q + 2 * j@ * s@) as int, r@ as int);
        assert(p@ + 1 == 2 * x@ * s@ + 2 * j@ * r@ * s@) by (nonlinear_arith)
            requires
                p@ + 1 == (2 * x@ + 2 * j@ * r@) * s@,
        ;
        // r = 2 i t + 1 > 1 forces i >= 1, so r > t >= 2^half.
        assert(r@ == 2 * i@ * t@ + 1) by (nonlinear_arith)
            requires
                r@ == 1 + (2 * t@) * i@,
        ;
        assert(r@ - 1 == (2 * i@) * t@) by (nonlinear_arith)
            requires
                r@ == 2 * i@ * t@ + 1,
        ;
        lemma_mod_multiples_basic((2 * i@) as int, t@ as int);
        assert(r@ > t@) by (nonlinear_arith)
            requires
                r@ == 2 * i@ * t@ + 1,
                r@ > 1,
                t@ > 1,
        ;
        assert(half + 1 - 1 == half);
    }
    Ok(StrongPrime { p, r, s, t, i, j })
}

/// A strong prime of about `bit_size` bits by `generate_strong_prime_with`,
/// on a generator seeded from the operating system, with no practical bound
/// on the number of attempts.
pub fn generate_strong_prime(bit_size: u64, security: u64) -> (res: Result<BigNat, PrimeError>)
    ensures
        bit_size < MIN_STRONG_PRIME_BITS <==> res matches Err(PrimeError::InvalidBitLength),
        res matches Err(e) ==> e == PrimeError::InvalidBitLength || e == PrimeError::Exhausted,
        res is Ok ==> exists|r: nat, s: nat, t: nat, i: nat, j: nat|
            {
                &&& #[trigger] is_gordon_construction(res->Ok_0@, r, s, t, i, j)
                &&& is_strong_prime_of(res->Ok_0@, r, s, t, bit_size as nat, security as nat)
            },
{
    let mut rng = fresh_rng();
    match generate_strong_prime_with(&mut rng, bit_size, security, UNBOUNDED_ATTEMPTS) {
        Ok(g) => {
            let ghost (r, s, t, i, j) = (g.r@, g.s@, g.t@, g.i@, g.j@);
            let res: Result<BigNat, PrimeError> = Ok(g.p);
            assert(is_gordon_construction(res->Ok_0@, r, s, t, i, j));
            assert(is_strong_prime_of(res->Ok_0@, r, s, t, bit_size as nat, security as nat));
            res
        },
        Err(e) => Err(e),
    }
}

} // verus!
