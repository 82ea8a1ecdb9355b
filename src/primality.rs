//! Trial division by small primes and the Miller-Rabin test.

use crate::bignum::{
    bits, eq, fresh_rng, half, is_even, is_multiple_of, le, minus, random_range, BigNat,
};
use rand::rngs::StdRng;
use crate::modexp::{mod_pow, mod_pow_nonzero};
use vstd::arithmetic::power::{lemma_pow0, lemma_pow1, lemma_pow_adds, lemma_pow_mod_noop, lemma_pow_multiplies, pow};
use vstd::arithmetic::div_mod::lemma_small_mod;
use vstd::arithmetic::power2::{lemma_pow2_strictly_increases, lemma_pow2_unfold, pow2};
use vstd::prelude::*;

verus! {

/// The odd primes below 256, in increasing order.
pub const SMALL_PRIMES: [u64; 53] = [
    3, 5, 7, 11, 13, 17, 19, 23, 29, 31, 37, 41, 43, 47, 53, 59, 61, 67, 71, 73, 79, 83, 89, 97,
    101, 103, 107, 109, 113, 127, 131, 137, 139, 149, 151, 157, 163, 167, 173, 179, 181, 191, 193,
    197, 199, 211, 223, 227, 229, 233, 239, 241, 251,
];

/// `n` is a multiple of one of the small primes.
pub open spec fn has_small_factor(n: nat) -> bool {
    exists|k: int| 0 <= k < 53 && #[trigger] (n % (SMALL_PRIMES[k] as nat)) == 0
}

/// Returns true when `n` is a multiple of one of the odd primes below 256.
/// A false answer says nothing about primality.
pub fn is_obviously_composite(n: &BigNat) -> (r: bool)
    ensures
        r == has_small_factor(n@),
{
    let mut i: usize = 0;
    while i < 53
        invariant
            i <= 53,
            forall|k: int| 0 <= k < i ==> #[trigger] (n@ % (SMALL_PRIMES[k] as nat)) != 0,
        decreases 53 - i,
    {
        let p = BigNat::from_u64(SMALL_PRIMES[i]);
        assert(SMALL_PRIMES[i as int] > 0);
        if is_multiple_of(n, &p) {
            return true;
        }
        i += 1;
    }
    false
}

/// The exponent of the largest power of two that divides `m` (zero for zero).
pub open spec fn two_valuation(m: nat) -> nat
    decreases m,
{
    if m == 0 || m % 2 == 1 {
        0
    } else {
        1 + two_valuation(m / 2)
    }
}

/// `m` with every factor two removed (zero for zero).
pub open spec fn odd_part(m: nat) -> nat
    decreases m,
{
    if m == 0 || m % 2 == 1 {
        m
    } else {
        odd_part(m / 2)
    }
}

/// Splits a positive even `number` into `(power, remainder)` with
/// `number == 2^power * remainder` and `remainder` odd.
fn factor_powers_of_two(number: &BigNat) -> (r: (u64, BigNat))
    requires
        number@ > 0,
        number@ % 2 == 0,
    ensures
        r.0 >= 1,
        r.0 as nat == two_valuation(number@),
        r.1@ == odd_part(number@),
        r.1@ % 2 == 1,
        number@ == pow2(r.0 as nat) * r.1@,
{
    let nb = bits(number);
    let mut n = half(number);
    let mut power: u64 = 1;
    proof {
        lemma_pow2_unfold(1);
        lemma_pow0(2);
    }
    loop
        invariant
            n@ > 0,
            power >= 1,
            two_valuation(number@) == power + two_valuation(n@),
            odd_part(number@) == odd_part(n@),
            number@ == pow2(power as nat) * n@,
            number@ < pow2(nb as nat),
        decreases n@,
    {
        if !is_even(&n) {
            return (power, n);
        }
        proof {
            assert(pow2(power as nat) <= number@) by (nonlinear_arith)
                requires
                    number@ == pow2(power as nat) * n@,
                    n@ > 0,
            ;
            if power >= nb {
                if power > nb {
                    lemma_pow2_strictly_increases(nb as nat, power as nat);
                }
            }
            lemma_pow2_unfold((power + 1) as nat);
        }
        let ghost old_n = n@;
        let ghost old_p = pow2(power as nat);
        n = half(&n);
        power += 1;
        proof {
            assert(old_n == 2 * n@);
            assert(pow2(power as nat) == 2 * old_p);
            assert(number@ == pow2(power as nat) * n@) by (nonlinear_arith)
                requires
                    number@ == old_p * old_n,
                    old_n == 2 * n@,
                    pow2(power as nat) == 2 * old_p,
            ;
        }
    }
}

/// `a` is no witness to the compositeness of the odd number `n > 2`: with
/// `n - 1 == 2^s * d` and `d` odd, either `a^d == 1 (mod n)`, or
/// `a^(d * 2^i) == n - 1 (mod n)` for some `i < s`.
pub open spec fn is_strong_probable_prime_base(n: nat, a: nat) -> bool {
    let m = (n - 1) as nat;
    mod_pow(a, odd_part(m), n) == 1 || exists|i: nat|
        i < two_valuation(m) && #[trigger] mod_pow(a, odd_part(m) * pow2(i), n) == n - 1
}

/// Squaring `a^k mod n` modulo `n` gives `a^(2k) mod n`.
proof fn lemma_square_mod(a: nat, k: nat, n: nat, x: nat)
    requires
        n > 0,
        x == mod_pow(a, k, n),
    ensures
        mod_pow(x, 2, n) == mod_pow(a, k * 2, n),
{
    lemma_pow_mod_noop(pow(a as int, k), 2, n as int);
    lemma_pow_multiplies(a as int, k, 2);
}

/// Once `a^(d * 2^j) == 1 (mod n)`, every later square stays 1.
proof fn lemma_stays_one(a: nat, d: nat, n: nat, j: nat, i: nat)
    requires
        n > 1,
        mod_pow(a, d * pow2(j), n) == 1,
        j <= i,
    ensures
        mod_pow(a, d * pow2(i), n) == 1,
    decreases i - j,
{
    if i > j {
        let k = (i - 1) as nat;
        lemma_stays_one(a, d, n, j, k);
        lemma_square_mod(a, d * pow2(k), n, 1);
        lemma_pow2_unfold(i);
        assert(d * pow2(k) * 2 == d * pow2(i)) by (nonlinear_arith)
            requires
                pow2(i) == 2 * pow2(k),
        ;
        assert(pow(1, 2) == 1) by {
            lemma_pow1(1);
            lemma_pow_adds(1, 1, 1);
        }
        assert(mod_pow(1, 2, n) == 1) by {
            lemma_small_mod(1, n);
        }
    }
}

/// One Miller-Rabin round: whether `a` fails to witness the compositeness
/// of `candidate`, given `candidate - 1 == 2^power * remainder`.
fn witness_round(candidate: &BigNat, bound: &BigNat, power: u64, remainder: &BigNat, a: &BigNat) -> (r: bool)
    requires
        candidate@ >= 3,
        candidate@ % 2 == 1,
        bound@ == candidate@ - 1,
        power as nat == two_valuation(bound@),
        remainder@ == odd_part(bound@),
    ensures
        r == is_strong_probable_prime_base(candidate@, a@),
{
    let one = BigNat::from_u64(1);
    let two = BigNat::from_u64(2);
    let ghost n: nat = candidate@;
    let ghost d: nat = remainder@;
    let mut x = mod_pow_nonzero(a, remainder, candidate);
    proof {
        lemma_pow0(2);
        assert(pow2(0) == 1);
        assert(d * pow2(0) == d);
        assert(power >= 1);
    }
    if eq(&x, &one) {
        return true;
    }
    if eq(&x, bound) {
        assert(mod_pow(a@, d * pow2(0), n) == n - 1);
        return true;
    }
    let mut j: u64 = 1;
    while j < power
        invariant
            1 <= j <= power,
            one@ == 1,
            two@ == 2,
            n == candidate@,
            d == remainder@,
            n >= 3,
            bound@ == n - 1,
            power as nat == two_valuation(bound@),
            d == odd_part(bound@),
            x@ == mod_pow(a@, d * pow2((j - 1) as nat), n),
            mod_pow(a@, d, n) != 1,
            forall|i: nat| i < j ==> #[trigger] mod_pow(a@, d * pow2(i), n) != n - 1,
        decreases power - j,
    {
        let ghost k: nat = (j - 1) as nat;
        let ghost x0: nat = x@;
        x = mod_pow_nonzero(&x, &two, candidate);
        proof {
            lemma_square_mod(a@, d * pow2(k), n, x0);
            lemma_pow2_unfold(j as nat);
            assert(d * pow2(k) * 2 == d * pow2(j as nat)) by (nonlinear_arith)
                requires
                    pow2(j as nat) == 2 * pow2(k),
            ;
            assert(x@ == mod_pow(a@, d * pow2(j as nat), n));
        }
        if eq(&x, &one) {
            proof {
                assert forall|i: nat| i < two_valuation(bound@) implies #[trigger] mod_pow(
                    a@,
                    d * pow2(i),
                    n,
                ) != n - 1 by {
                    if i >= j {
                        lemma_stays_one(a@, d, n, j as nat, i);
                    }
                }
            }
            return false;
        }
        if eq(&x, bound) {
            assert(mod_pow(a@, d * pow2(j as nat), n) == n - 1);
            return true;
        }
        j += 1;
    }
    false
}

/// Some `a` in `[2, n - 2]` witnesses that `n` is composite.
pub open spec fn has_compositeness_witness(n: nat) -> bool {
    exists|a: nat| 2 <= a < n - 1 && !#[trigger] is_strong_probable_prime_base(n, a)
}

/// `rounds` witnesses in `[2, n - 2]`, none of which proves `n` composite.
pub open spec fn passes_rounds(n: nat, rounds: nat) -> bool {
    exists|ws: Seq<nat>|
        ws.len() == rounds && forall|k: int|
            0 <= k < ws.len() ==> 2 <= #[trigger] ws[k] < n - 1 && is_strong_probable_prime_base(
                n,
                ws[k],
            )
}

/// Whether `witness` fails to prove the odd number `candidate > 2`
/// composite, by the Miller-Rabin criterion.
pub fn is_strong_probable_prime(candidate: &BigNat, witness: &BigNat) -> (r: bool)
    requires
        candidate@ >= 3,
        candidate@ % 2 == 1,
    ensures
        r == is_strong_probable_prime_base(candidate@, witness@),
{
    let bound = minus(candidate, &BigNat::from_u64(1));
    let (power, remainder) = factor_powers_of_two(&bound);
    witness_round(candidate, &bound, power, &remainder, witness)
}

/// The Miller-Rabin test with `security - 1` rounds, each with a witness
/// drawn from `rng` in `[2, candidate - 2]`. A composite number passes all
/// rounds with probability at most `4^-(security - 1)`. A false answer for
/// an odd number is proof of compositeness.
pub fn probably_prime_with(rng: &mut StdRng, candidate: &BigNat, security: u64) -> (r: bool)
    ensures
        candidate@ <= 1 ==> !r,
        candidate@ == 2 ==> r,
        candidate@ > 2 && candidate@ % 2 == 0 ==> !r,
        candidate@ == 3 ==> r,
        candidate@ > 2 && candidate@ % 2 == 1 && security <= 1 ==> r,
        !r && candidate@ > 3 && candidate@ % 2 == 1 ==> has_compositeness_witness(candidate@),
        r && candidate@ > 3 && security >= 2 ==> passes_rounds(candidate@, (security - 1) as nat),
{
    let one = BigNat::from_u64(1);
    if le(candidate, &one) {
        return false;
    }
    let two = BigNat::from_u64(2);
    if eq(candidate, &two) {
        return true;
    }
    if is_even(candidate) {
        return false;
    }
    let bound = minus(candidate, &one);
    let (power, remainder) = factor_powers_of_two(&bound);
    if le(&bound, &two) {
        // The candidate is 3: no witness lies in [2, 1], and 3 is prime.
        return true;
    }
    let mut i: u64 = 1;
    let ghost mut ws: Seq<nat> = Seq::empty();
    while i < security
        invariant
            i >= 1,
            i <= security || i == 1,
            ws.len() == i - 1,
            forall|k: int|
                0 <= k < ws.len() ==> 2 <= #[trigger] ws[k] < candidate@ - 1
                    && is_strong_probable_prime_base(candidate@, ws[k]),
            candidate@ > 3,
            candidate@ % 2 == 1,
            two@ == 2,
            bound@ == candidate@ - 1,
            power as nat == two_valuation(bound@),
            remainder@ == odd_part(bound@),
        decreases security - i,
    {
        let a = random_range(rng, &two, &bound);
        if !witness_round(candidate, &bound, power, &remainder, &a) {
            return false;
        }
        proof {
            ws = ws.push(a@);
        }
        i += 1;
    }
    proof {
        if security >= 2 {
            assert(ws.len() == security - 1);
        }
    }
    true
}

/// The Miller-Rabin test as in `probably_prime_with`, on a generator seeded
/// from the operating system.
pub fn probably_prime(candidate: &BigNat, security: u64) -> (r: bool)
    ensures
        candidate@ <= 1 ==> !r,
        candidate@ == 2 ==> r,
        candidate@ > 2 && candidate@ % 2 == 0 ==> !r,
        candidate@ == 3 ==> r,
        candidate@ > 2 && candidate@ % 2 == 1 && security <= 1 ==> r,
        !r && candidate@ > 3 && candidate@ % 2 == 1 ==> has_compositeness_witness(candidate@),
        r && candidate@ > 3 && security >= 2 ==> passes_rounds(candidate@, (security - 1) as nat),
{
    let mut rng = fresh_rng();
    probably_prime_with(&mut rng, candidate, security)
}

/// Trial division by the odd primes below 256, then the Miller-Rabin test
/// of `probably_prime_with`. The small primes themselves are rejected.
pub fn probably_prime_faster_with(rng: &mut StdRng, n: &BigNat, security: u64) -> (r: bool)
    ensures
        has_small_factor(n@) ==> !r,
        r ==> n@ > 1 && (n@ == 2 || n@ % 2 == 1),
        n@ == 2 ==> r,
        !has_small_factor(n@) && n@ > 1 && n@ % 2 == 1 && security <= 1 ==> r,
        !r && !has_small_factor(n@) && n@ > 3 && n@ % 2 == 1 ==> has_compositeness_witness(n@),
        r && n@ > 3 && security >= 2 ==> passes_rounds(n@, (security - 1) as nat),
{
    if is_obviously_composite(n) {
        proof {
            if n@ == 2 {
                assert forall|k: int| 0 <= k < 53 implies #[trigger] (n@ % (SMALL_PRIMES[k] as nat))
                    != 0 by {
                    assert(SMALL_PRIMES[k] >= 3);
                    lemma_small_mod(2, SMALL_PRIMES[k] as nat);
                }
            }
        }
        return false;
    }
    proof {
        if n@ % 2 == 1 && n@ > 1 {
            assert(n@ % (SMALL_PRIMES[0] as nat) != 0);
        }
    }
    probably_prime_with(rng, n, security)
}

/// `probably_prime_faster_with` on a generator seeded from the operating
/// system.
pub fn probably_prime_faster(n: &BigNat, security: u64) -> (r: bool)
    ensures
        has_small_factor(n@) ==> !r,
        r ==> n@ > 1 && (n@ == 2 || n@ % 2 == 1),
        n@ == 2 ==> r,
        !has_small_factor(n@) && n@ > 1 && n@ % 2 == 1 && security <= 1 ==> r,
        !r && !has_small_factor(n@) && n@ > 3 && n@ % 2 == 1 ==> has_compositeness_witness(n@),
        r && n@ > 3 && security >= 2 ==> passes_rounds(n@, (security - 1) as nat),
{
    let mut rng = fresh_rng();
    probably_prime_faster_with(&mut rng, n, security)
}

} // verus!
