//! A cryptographic accumulator core over a group of unknown order.
//!
//! The accumulator commits to a multiset of primes as one element of a
//! group of unknown order (realized over the fixed public RSA-2048
//! modulus). Batched additions come with proofs-of-exponentiation, checked
//! by recomputing a hash-to-prime challenge from the proof transcript;
//! deletions and membership proofs combine per-element witnesses through
//! Bezout relations; non-membership is certified by coprimality of exponent
//! products. The vector-commitment layer authenticates a sparse boolean
//! vector keyed by integer indices, mapping each index to a prime with the
//! same deterministic hash-to-prime function.

pub mod arith;
pub mod encoding;
pub mod modular;
pub mod group;
pub mod hash;
pub mod accumulator;
pub mod vector_commitment;
