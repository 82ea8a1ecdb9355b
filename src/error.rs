use vstd::prelude::*;

verus! {

/// Why an operation of this library gave no number.
#[derive(Debug, Clone, Copy, PartialEq, Eq, Structural)]
pub enum PrimeError {
    /// A modular operation was asked for with modulus zero.
    ZeroModulus,
    /// The requested bit length is too small for the requested kind of prime.
    InvalidBitLength,
    /// A search for a prime used up its allowed number of attempts.
    Exhausted,
}

} // verus!
