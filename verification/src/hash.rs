//! Deterministic hash-to-prime: map a byte string to a prime integer by
//! hashing the bytes together with an incrementing counter until a candidate
//! passes the primality test. The mapping is a pure function of the input,
//! so independent parties recompute the same exponent for the same data.

use vstd::prelude::*;
use sha2::Digest;
use crate::arith::{int_of, prime_test, int_from_bytes, int_is_probably_prime};
use crate::encoding::{be_val, be8, u64_be, append_slice, lemma_be_val_nonneg};

verus! {

/// Repetitions handed to the probabilistic primality test.
pub const PRIME_TEST_REPS: u32 = 30;

/// The SHA-256 digest of a byte string.
pub uninterp spec fn sha256_of(b: Seq<u8>) -> Seq<u8>;

/// Relies on `sha2::Sha256::digest`: SHA-256 is a pure function of the
/// input bytes and its digest is 32 bytes long.
#[verifier::external_body]
fn sha256(input: &[u8]) -> (r: Vec<u8>)
    ensures
        r@ == sha256_of(input@),
        r@.len() == 32,
{
    sha2::Sha256::digest(input).to_vec()
}

/// The candidate integer tried for `b` at counter `i`: the value of the
/// digest of `b` followed by the eight counter bytes.
pub open spec fn candidate(b: Seq<u8>, i: u64) -> int {
    be_val(sha256_of(b + be8(i as int)))
}

/// The candidate at counter `i` passes the primality test.
pub open spec fn good_candidate(b: Seq<u8>, i: u64) -> bool {
    candidate(b, i) >= 2 && prime_test(candidate(b, i), PRIME_TEST_REPS as int)
}

/// Some counter yields a prime for `b`; failure of the bounded search is a
/// purely theoretical event.
pub open spec fn hash_found(b: Seq<u8>) -> bool {
    exists|i: u64| #[trigger] good_candidate(b, i)
}

/// `p` is the hash-to-prime image of `b`: the candidate at the least
/// counter that passes the primality test.
pub open spec fn is_hash_to_prime(b: Seq<u8>, p: int) -> bool {
    exists|i: u64|
        {
            &&& #[trigger] good_candidate(b, i)
            &&& p == candidate(b, i)
            &&& forall|j: u64| j < i ==> !good_candidate(b, j)
        }
}

/// The prime that hashing `b` yields.
pub open spec fn hash_prime_of(b: Seq<u8>) -> int {
    choose|p: int| is_hash_to_prime(b, p)
}

/// Hash-to-prime is deterministic: a byte string has at most one image.
pub proof fn lemma_hash_to_prime_deterministic(b: Seq<u8>, p1: int, p2: int)
    requires
        is_hash_to_prime(b, p1),
        is_hash_to_prime(b, p2),
    ensures
        p1 == p2,
{
    let i1 = choose|i: u64|
        {
            &&& #[trigger] good_candidate(b, i)
            &&& p1 == candidate(b, i)
            &&& forall|j: u64| j < i ==> !good_candidate(b, j)
        };
    let i2 = choose|i: u64|
        {
            &&& #[trigger] good_candidate(b, i)
            &&& p2 == candidate(b, i)
            &&& forall|j: u64| j < i ==> !good_candidate(b, j)
        };
    if i1 < i2 {
        assert(!good_candidate(b, i1));
    } else if i2 < i1 {
        assert(!good_candidate(b, i2));
    }
}

/// An image satisfying the search predicate is the image.
pub proof fn lemma_hash_prime_of(b: Seq<u8>, p: int)
    requires
        is_hash_to_prime(b, p),
    ensures
        p == hash_prime_of(b),
{
    lemma_hash_to_prime_deterministic(b, p, hash_prime_of(b));
}

/// One probe of the search: the candidate for `bytes` at counter `i`, and
/// whether it passes the primality test.
fn probe(bytes: &[u8], i: u64) -> (r: (rug::Integer, bool))
    ensures
        int_of(r.0) == candidate(bytes@, i),
        r.1 == good_candidate(bytes@, i),
{
    let counter = u64_be(i);
    let input = append_slice(Vec::new(), bytes);
    let input = append_slice(input, counter.as_slice());
    proof {
        assert(input@ =~= bytes@ + be8(i as int));
    }
    let digest = sha256(input.as_slice());
    let cand = int_from_bytes(digest.as_slice());
    proof {
        lemma_be_val_nonneg(digest@);
    }
    let good = int_is_probably_prime(&cand, PRIME_TEST_REPS);
    (cand, good)
}

/// Map a byte string deterministically to a prime: try candidates at
/// counters zero upward and return the first that passes the primality
/// test. Returns nothing only if no counter at all yields a prime, which is
/// treated as a purely theoretical failure.
pub fn hash_to_prime(bytes: &[u8]) -> (r: Option<rug::Integer>)
    ensures
        match r {
            Some(p) => {
                &&& int_of(p) >= 2
                &&& prime_test(int_of(p), PRIME_TEST_REPS as int)
                &&& is_hash_to_prime(bytes@, int_of(p))
                &&& int_of(p) == hash_prime_of(bytes@)
            },
            None => !hash_found(bytes@),
        },
{
    let mut i: u64 = 0;
    while i < u64::MAX
        invariant
            forall|j: u64| j < i ==> !good_candidate(bytes@, j),
        decreases u64::MAX - i,
    {
        let (cand, good) = probe(bytes, i);
        if good {
            proof {
                assert(is_hash_to_prime(bytes@, int_of(cand)));
                lemma_hash_prime_of(bytes@, int_of(cand));
            }
            return Some(cand);
        }
        i = i + 1;
    }
    let (cand, good) = probe(bytes, u64::MAX);
    if good {
        proof {
            assert(is_hash_to_prime(bytes@, int_of(cand)));
            lemma_hash_prime_of(bytes@, int_of(cand));
        }
        Some(cand)
    } else {
        proof {
            assert(forall|j: u64| !good_candidate(bytes@, j));
        }
        None
    }
}

} // verus!
