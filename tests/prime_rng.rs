use num::bigint::BigUint;
use num::integer::Integer;
use prime_rng::bignum::BigNat;
use prime_rng::error::PrimeError;
use prime_rng::generate::{
    generate_strong_prime, generate_strong_prime_with, generate_weak_prime,
    generate_weak_prime_with, search_prime_of_form,
};
use prime_rng::modexp::modular_exp;
use prime_rng::primality::{
    is_obviously_composite, is_strong_probable_prime, probably_prime, probably_prime_faster,
    probably_prime_faster_with, probably_prime_with,
};
use rand::rngs::StdRng;
use rand::SeedableRng;

fn big(v: u64) -> BigNat {
    BigNat::from_u64(v)
}

fn to_num(n: &BigNat) -> BigUint {
    BigUint::new(n.to_u32_digits())
}

fn from_num(n: &BigUint) -> BigNat {
    BigNat::from_u32_digits(n.to_u32_digits())
}

#[test]
fn test_probably_prime() {
    let seventeen = big(17);
    assert!(probably_prime(&seventeen, 1));

    let eighteen = big(18);
    assert!(!probably_prime(&eighteen, 1));
}

#[test]
fn test_modular_exp_bad() {
    let r = modular_exp(&big(26614), &big(480), &big(0));
    assert_ne!(r, Ok(big(15120)));
    assert_eq!(r, Err(PrimeError::ZeroModulus));
}

#[test]
fn test_modular_exp() {
    assert_eq!(modular_exp(&big(4), &big(13), &big(497)), Ok(big(445)));
    assert_eq!(modular_exp(&big(0), &big(25871), &big(14932)), Ok(big(0)));
    assert_eq!(modular_exp(&big(962), &big(0), &big(29008)), Ok(big(1)));
    assert_eq!(modular_exp(&big(6826), &big(25871), &big(14932)), Ok(big(2632)));
    assert_eq!(modular_exp(&big(962), &big(6431), &big(29008)), Ok(big(10064)));
    assert_eq!(modular_exp(&big(26614), &big(480), &big(18928)), Ok(big(15120)));
}

#[test]
fn modular_exp_zero_and_one_exponents() {
    for &(a, m) in &[(0u64, 1u64), (7, 1), (7, 5), (123456789, 1000), (3, 4294967311)] {
        assert_eq!(modular_exp(&big(a), &big(0), &big(m)), Ok(big(1 % m)));
        assert_eq!(modular_exp(&big(a), &big(1), &big(m)), Ok(big(a % m)));
    }
}

#[test]
fn modular_exp_zero_modulus_is_refused() {
    assert_eq!(modular_exp(&big(26614), &big(480), &big(0)), Err(PrimeError::ZeroModulus));
    assert_eq!(modular_exp(&big(0), &big(0), &big(0)), Err(PrimeError::ZeroModulus));
}

#[test]
fn modular_exp_large_operands() {
    // 2^127 - 1 is prime: 3^(p - 1) == 1 and 2^127 == 1 modulo it.
    let p = BigUint::from(2u32).pow(127) - BigUint::from(1u32);
    let pm1 = &p - BigUint::from(1u32);
    assert_eq!(modular_exp(&big(3), &from_num(&pm1), &from_num(&p)), Ok(big(1)));
    assert_eq!(modular_exp(&big(2), &big(127), &from_num(&p)), Ok(big(1)));
    let base = from_num(&(BigUint::from(10u32).pow(30) + BigUint::from(7u32)));
    let expected = BigUint::from(10u32).pow(30) + BigUint::from(7u32);
    let r = modular_exp(&base, &big(5), &from_num(&p)).unwrap();
    assert_eq!(to_num(&r), expected.modpow(&BigUint::from(5u32), &p));
}

#[test]
fn digits_round_trip() {
    let v = BigUint::from(2u32).pow(100) + BigUint::from(12345u32);
    assert_eq!(to_num(&from_num(&v)), v);
    assert_eq!(BigNat::from_u32_digits(vec![5, 0, 0]), big(5));
    assert_eq!(BigNat::from_u32_digits(vec![0, 1]), big(4294967296));
    assert_eq!(big(u64::MAX).to_u32_digits(), vec![u32::MAX, u32::MAX]);
    assert_eq!(big(0).to_u32_digits(), Vec::<u32>::new());
}

#[test]
fn small_values_of_probably_prime() {
    for security in [1u64, 2, 5, 20] {
        assert!(!probably_prime(&big(0), security));
        assert!(!probably_prime(&big(1), security));
        assert!(probably_prime(&big(2), security));
        assert!(probably_prime(&big(3), security));
    }
    assert!(probably_prime(&big(17), 20));
    assert!(probably_prime(&big(7919), 20));
    assert!(!probably_prime(&big(561), 20));
    assert!(!probably_prime(&big(7917), 20));
}

#[test]
fn even_numbers_are_never_probable_primes() {
    for n in [4u64, 6, 18, 1024, 4294967296, u64::MAX - 1] {
        for security in [0u64, 1, 2, 10] {
            assert!(!probably_prime(&big(n), security));
        }
    }
}

#[test]
fn one_security_round_accepts_every_odd_number() {
    // With security 1 no witness round is run.
    assert!(probably_prime(&big(9), 1));
    assert!(probably_prime(&big(561), 0));
}

#[test]
fn strong_probable_prime_bases() {
    // 9 - 1 == 2^3: 2, 4, 7 modulo 9, never 8.
    assert!(!is_strong_probable_prime(&big(9), &big(2)));
    // 25 - 1 == 2^3 * 3: 7^3 == 18, 18^2 == 24 modulo 25.
    assert!(is_strong_probable_prime(&big(25), &big(7)));
    assert!(is_strong_probable_prime(&big(13), &big(2)));
    // 2^340 == 1 (mod 341) but 341 = 11 * 31 is caught by the squares.
    assert!(!is_strong_probable_prime(&big(341), &big(2)));
}

#[test]
fn trial_division_filter() {
    assert!(is_obviously_composite(&big(9)));
    assert!(is_obviously_composite(&big(3)));
    assert!(is_obviously_composite(&big(251 * 257)));
    assert!(!is_obviously_composite(&big(257)));
    assert!(!is_obviously_composite(&big(2)));
    assert!(!is_obviously_composite(&big(257 * 263)));
    assert!(!is_obviously_composite(&big(1)));
}

#[test]
fn faster_test_rejects_small_primes_and_multiples() {
    assert!(!probably_prime_faster(&big(3), 10));
    assert!(!probably_prime_faster(&big(15), 10));
    assert!(probably_prime_faster(&big(2), 10));
    assert!(probably_prime_faster(&big(257), 10));
    assert!(!probably_prime_faster(&big(257 * 263), 10));
}

#[test]
fn weak_prime_has_exact_bit_length() {
    let mut rng = StdRng::seed_from_u64(11);
    for bits in [9u64, 16, 33, 64, 128] {
        let p = generate_weak_prime_with(&mut rng, bits, 10, u64::MAX).unwrap();
        let n = to_num(&p);
        assert_eq!(n.bits(), bits);
        assert!(n.is_odd());
        assert!(probably_prime_with(&mut rng, &p, 40));
    }
    let p = generate_weak_prime(48, 8).unwrap();
    assert_eq!(to_num(&p).bits(), 48);
    assert!(probably_prime(&p, 30));
}

#[test]
fn weak_prime_errors() {
    let mut rng = StdRng::seed_from_u64(1);
    assert_eq!(generate_weak_prime_with(&mut rng, 0, 5, 10), Err(PrimeError::InvalidBitLength));
    assert_eq!(generate_weak_prime(0, 5), Err(PrimeError::InvalidBitLength));
    assert_eq!(generate_weak_prime_with(&mut rng, 32, 5, 0), Err(PrimeError::Exhausted));
    // Below 9 bits every odd candidate is 1 or has a small prime factor.
    assert_eq!(generate_weak_prime_with(&mut rng, 2, 5, 50), Err(PrimeError::InvalidBitLength));
    assert_eq!(generate_weak_prime_with(&mut rng, 8, 5, 50), Err(PrimeError::InvalidBitLength));
    assert!(generate_weak_prime_with(&mut rng, 9, 5, u64::MAX).is_ok());
}

#[test]
fn strong_prime_structure() {
    let mut rng = StdRng::seed_from_u64(5);
    let g = generate_strong_prime_with(&mut rng, 64, 10, u64::MAX).unwrap();
    let (p, r, s, t) = (to_num(&g.p), to_num(&g.r), to_num(&g.s), to_num(&g.t));
    let one = BigUint::from(1u32);
    assert!((&p - &one).is_multiple_of(&r));
    assert!((&p + &one).is_multiple_of(&s));
    assert!((&r - &one).is_multiple_of(&t));
    assert_eq!(s.bits(), 32);
    assert_eq!(t.bits(), 33);
    assert!(r > BigUint::from(2u32).pow(32));
    let (i, j) = (to_num(&g.i), to_num(&g.j));
    let two = BigUint::from(2u32);
    assert_eq!(r, &two * &i * &t + &one);
    let p0 = &two * s.modpow(&(&r - &two), &r) * &s - &one;
    assert_eq!(p, p0 + &two * &j * &r * &s);
    for x in [&g.p, &g.r, &g.s, &g.t] {
        assert!(probably_prime_with(&mut rng, x, 40));
    }
}

#[test]
fn strong_prime_without_seed() {
    let p = generate_strong_prime(40, 8).unwrap();
    assert!(probably_prime(&p, 30));
    assert!(to_num(&p).is_odd());
}

#[test]
fn strong_prime_errors() {
    let mut rng = StdRng::seed_from_u64(3);
    assert!(matches!(
        generate_strong_prime_with(&mut rng, 1, 5, 10),
        Err(PrimeError::InvalidBitLength)
    ));
    assert!(matches!(
        generate_strong_prime_with(&mut rng, 17, 5, 10),
        Err(PrimeError::InvalidBitLength)
    ));
    assert!(generate_strong_prime_with(&mut rng, 18, 5, u64::MAX).is_ok());
    assert_eq!(generate_strong_prime(0, 5), Err(PrimeError::InvalidBitLength));
    assert!(matches!(
        generate_strong_prime_with(&mut rng, 64, 5, 0),
        Err(PrimeError::Exhausted)
    ));
}

#[test]
fn same_seed_gives_same_primes() {
    let mut a = StdRng::seed_from_u64(2024);
    let mut b = StdRng::seed_from_u64(2024);
    assert_eq!(
        generate_weak_prime_with(&mut a, 64, 10, u64::MAX),
        generate_weak_prime_with(&mut b, 64, 10, u64::MAX)
    );
    let ga = generate_strong_prime_with(&mut a, 48, 10, u64::MAX).unwrap();
    let gb = generate_strong_prime_with(&mut b, 48, 10, u64::MAX).unwrap();
    assert_eq!(ga.p, gb.p);
    assert_eq!(ga.r, gb.r);
    let n = big(1_000_000_007);
    assert_eq!(
        probably_prime_faster_with(&mut a, &n, 10),
        probably_prime_faster_with(&mut b, &n, 10)
    );
}

#[test]
fn search_of_form_finds_first_prime() {
    let mut rng = StdRng::seed_from_u64(9);
    // 1 + 2k from k = 128: 257 is the first that passes.
    let (k, c) = search_prime_of_form(&mut rng, &big(1), &big(2), &big(128), 10, 100).unwrap();
    assert_eq!(k, big(128));
    assert_eq!(c, big(257));
    // 263 + 6k from k = 0: 263, then 269 and 275 = 5^2 * 11, 281 ...
    let (k, c) = search_prime_of_form(&mut rng, &big(263), &big(6), &big(1), 10, 100).unwrap();
    assert_eq!((k, c), (big(1), big(269)));
    assert!(search_prime_of_form(&mut rng, &big(1), &big(2), &big(128), 10, 0).is_none());
    // 255 + 30k is always a multiple of 3 and 5.
    assert!(search_prime_of_form(&mut rng, &big(255), &big(30), &big(0), 10, 50).is_none());
}

#[test]
fn composites_without_small_factors_are_rejected() {
    let mut rng = StdRng::seed_from_u64(6);
    // 71273 = 263 * 271 and 9 are rejected by every round.
    for _ in 0..20 {
        assert!(!probably_prime_with(&mut rng, &big(71273), 2));
        assert!(!probably_prime_faster_with(&mut rng, &big(71273), 2));
        assert!(!probably_prime_with(&mut rng, &big(9), 2));
    }
}
