//! Searches exponent ranges for Mersenne primes 2^p - 1 with the
//! Lucas-Lehmer test, built on a fast reduction modulo 2^p - 1 that
//! replaces big-integer division with shift, mask and add steps.

pub mod bigint;
pub mod mersenne;
pub mod primality;
pub mod search;
