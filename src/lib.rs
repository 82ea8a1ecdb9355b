//! Probabilistic prime generation over arbitrary-precision integers:
//! modular exponentiation, trial division, the Miller-Rabin test, and
//! weak (random search) and strong (Gordon) prime generators. A small
//! module holds the start of a TLS client, whose handshake is a stub.

pub mod bignum;
pub mod error;
pub mod modexp;
pub mod primality;
pub mod generate;
pub mod tls;
