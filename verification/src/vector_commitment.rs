//! The vector-commitment layer: one accumulator authenticates a sparse
//! boolean vector. Indices are mapped to primes by hash-to-prime; each
//! one-bit is covered by a membership proof and each zero-bit by a
//! non-membership proof against a shared index universe.

use vstd::prelude::*;
use vstd::arithmetic::power::pow;
use crate::accumulator::{
    Accumulator, MembershipProof, NonmembershipProof, all_positive, membership_checks,
    nonmembership_checks, elems_foldable,
};
use crate::arith::{int_of, ints_of, prime_test};
use crate::encoding::{int_bytes, encode_int, transcript_bytes};
use crate::group::UnknownOrderGroup;
use crate::hash::{hash_to_prime, hash_found, hash_prime_of, PRIME_TEST_REPS};
use crate::modular::{coprime, powm, prod};

verus! {

/// Failures of the vector-commitment layer: an index supplied twice within
/// one call, or an opening whose underlying proof construction failed
/// (including the purely theoretical case that hash-to-prime finds no prime
/// for some index).
#[derive(Debug)]
pub enum VCError {
    ConflictingIndicesError,
    InvalidOpenError,
}

/// A proof for a whole bit vector: one membership proof covering all
/// one-bits and one non-membership proof covering all zero-bits, both
/// against the same accumulator snapshot.
pub struct VectorProof<G: UnknownOrderGroup> {
    membership_proof: MembershipProof<G>,
    nonmembership_proof: NonmembershipProof<G>,
}

impl<G: UnknownOrderGroup> VectorProof<G> {
    pub closed spec fn membership_proof(&self) -> MembershipProof<G> {
        self.membership_proof
    }

    pub closed spec fn nonmembership_proof(&self) -> NonmembershipProof<G> {
        self.nonmembership_proof
    }

    pub closed spec fn wf(&self) -> bool {
        self.membership_proof.wf() && self.nonmembership_proof.wf()
    }
}

/// The prime an index is mapped to.
pub open spec fn index_prime(i: int) -> int {
    hash_prime_of(int_bytes(i))
}

/// The bounded hash-to-prime search succeeds for this index.
pub open spec fn index_found(i: int) -> bool {
    hash_found(int_bytes(i))
}

/// Some index occurs twice in the input, whatever its bits say.
pub open spec fn has_conflict(bits: Seq<(bool, rug::Integer)>) -> bool {
    exists|i: int, j: int|
        0 <= i < j < bits.len() && #[trigger] int_of(bits[i].1) == #[trigger] int_of(bits[j].1)
}

/// Hash-to-prime succeeds for every index of the input.
pub open spec fn all_indices_found(bits: Seq<(bool, rug::Integer)>) -> bool {
    forall|k: int| 0 <= k < bits.len() ==> index_found(#[trigger] int_of(bits[k].1))
}

/// The primes of the indices whose bit equals `bit`, in input order.
pub open spec fn selected_primes(bits: Seq<(bool, rug::Integer)>, bit: bool) -> Seq<int>
    decreases bits.len(),
{
    if bits.len() == 0 {
        Seq::empty()
    } else {
        let rest = selected_primes(bits.drop_last(), bit);
        if bits.last().0 == bit {
            rest.push(index_prime(int_of(bits.last().1)))
        } else {
            rest
        }
    }
}

pub open spec fn zero_primes(bits: Seq<(bool, rug::Integer)>) -> Seq<int> {
    selected_primes(bits, false)
}

pub open spec fn one_primes(bits: Seq<(bool, rug::Integer)>) -> Seq<int> {
    selected_primes(bits, true)
}

/// The primes of a sequence of raw indices.
pub open spec fn index_primes(s: Seq<rug::Integer>) -> Seq<int> {
    s.map_values(|x: rug::Integer| index_prime(int_of(x)))
}

/// Every entry passes the probabilistic primality test, as hash-to-prime
/// outputs do.
pub open spec fn all_pass_prime_test(s: Seq<int>) -> bool {
    forall|k: int| 0 <= k < s.len() ==> s[k] >= 2 && prime_test(#[trigger] s[k], PRIME_TEST_REPS as int)
}

/// Each supplied witness, raised to the prime of its index, reconstructs
/// the state.
pub open spec fn open_witnesses_ok<G: UnknownOrderGroup>(
    state: int,
    pairs: Seq<(rug::Integer, Accumulator<G>)>,
) -> bool {
    forall|k: int|
        0 <= k < pairs.len() ==> pow(
            #[trigger] pairs[k].1.state(),
            index_prime(int_of(pairs[k].0)) as nat,
        ) % G::modulus() == state
}

proof fn lemma_selected_take_succ(bits: Seq<(bool, rug::Integer)>, bit: bool, k: int)
    requires
        0 <= k < bits.len(),
    ensures
        selected_primes(bits.take(k + 1), bit) == if bits[k].0 == bit {
            selected_primes(bits.take(k), bit).push(index_prime(int_of(bits[k].1)))
        } else {
            selected_primes(bits.take(k), bit)
        },
{
    assert(bits.take(k + 1).drop_last() =~= bits.take(k));
    assert(bits.take(k + 1).last() == bits[k]);
}

/// Create the backing accumulator for a fresh vector commitment: an empty
/// accumulator whose state is the group's public generator.
pub fn setup<G: UnknownOrderGroup>() -> (r: Accumulator<G>)
    ensures
        r.wf(),
        r.state() == G::generator_value(),
{
    Accumulator::<G>::new()
}

/// The prime a raw index is mapped to, as used by the whole layer; returns
/// nothing only in the purely theoretical case that the bounded
/// hash-to-prime search fails for this index.
pub fn index_to_prime(i: &rug::Integer) -> (r: Option<rug::Integer>)
    ensures
        match r {
            Some(p) => int_of(p) == index_prime(int_of(*i)) && int_of(p) >= 2 && prime_test(
                int_of(p),
                PRIME_TEST_REPS as int,
            ) && index_found(int_of(*i)),
            None => !index_found(int_of(*i)),
        },
{
    let encoded = encode_int(i);
    hash_to_prime(encoded.as_slice())
}

/// Partition the input into the primes of the zero-bit indices and the
/// primes of the one-bit indices. Fails with `ConflictingIndicesError`
/// exactly when some index appears twice (whether or not the repeated bits
/// agree), and with `InvalidOpenError` only in the purely theoretical case
/// that hash-to-prime fails for some index.
pub fn group_elems_by_bit(bits: &[(bool, rug::Integer)]) -> (r: Result<
    (Vec<rug::Integer>, Vec<rug::Integer>),
    VCError,
>)
    ensures
        match r {
            Ok(zo) => {
                &&& !has_conflict(bits@)
                &&& all_indices_found(bits@)
                &&& ints_of(zo.0@) == zero_primes(bits@)
                &&& ints_of(zo.1@) == one_primes(bits@)
                &&& all_positive(ints_of(zo.0@))
                &&& all_positive(ints_of(zo.1@))
                &&& all_pass_prime_test(ints_of(zo.0@))
                &&& all_pass_prime_test(ints_of(zo.1@))
            },
            Err(e) => match e {
                VCError::ConflictingIndicesError => has_conflict(bits@),
                VCError::InvalidOpenError => !has_conflict(bits@) && !all_indices_found(bits@),
            },
        },
{
    let mut i: usize = 0;
    while i < bits.len()
        invariant
            i <= bits@.len(),
            forall|a: int, b: int|
                0 <= a < b < i ==> #[trigger] int_of(bits@[a].1) != #[trigger] int_of(bits@[b].1),
        decreases bits@.len() - i,
    {
        let mut j: usize = 0;
        while j < i
            invariant
                j <= i < bits@.len(),
                forall|a: int, b: int|
                    0 <= a < b < i ==> #[trigger] int_of(bits@[a].1) != #[trigger] int_of(
                        bits@[b].1,
                    ),
                forall|a: int|
                    0 <= a < j ==> #[trigger] int_of(bits@[a].1) != int_of(bits@[i as int].1),
            decreases i - j,
        {
            if crate::arith::int_eq(&bits[j].1, &bits[i].1) {
                return Err(VCError::ConflictingIndicesError);
            }
            j = j + 1;
        }
        i = i + 1;
    }
    let mut zeros: Vec<rug::Integer> = Vec::new();
    let mut ones: Vec<rug::Integer> = Vec::new();
    let mut k: usize = 0;
    while k < bits.len()
        invariant
            k <= bits@.len(),
            !has_conflict(bits@),
            forall|k2: int| 0 <= k2 < k ==> index_found(#[trigger] int_of(bits@[k2].1)),
            ints_of(zeros@) == zero_primes(bits@.take(k as int)),
            ints_of(ones@) == one_primes(bits@.take(k as int)),
            all_positive(ints_of(zeros@)),
            all_positive(ints_of(ones@)),
            all_pass_prime_test(ints_of(zeros@)),
            all_pass_prime_test(ints_of(ones@)),
        decreases bits@.len() - k,
    {
        let ghost prefix = bits@.take(k as int);
        let encoded = encode_int(&bits[k].1);
        match hash_to_prime(encoded.as_slice()) {
            Some(p) => {
                proof {
                    lemma_selected_take_succ(bits@, false, k as int);
                    lemma_selected_take_succ(bits@, true, k as int);
                }
                if bits[k].0 {
                    proof {
                        assert(ints_of(ones@.push(p)) =~= ints_of(ones@).push(int_of(p)));
                    }
                    ones.push(p);
                } else {
                    proof {
                        assert(ints_of(zeros@.push(p)) =~= ints_of(zeros@).push(int_of(p)));
                    }
                    zeros.push(p);
                }
            },
            None => {
                return Err(VCError::InvalidOpenError);
            },
        }
        k = k + 1;
    }
    proof {
        assert(bits@.take(bits@.len() as int) =~= bits@);
    }
    Ok((zeros, ones))
}

/// Fold the one-bits into the accumulator and prove non-membership of the
/// zero-bits against the new accumulator and the full index universe
/// `acc_set`. Fails with `ConflictingIndicesError` on a repeated index and
/// with `InvalidOpenError` when the zero-bit primes are not coprime to the
/// accumulated product (some zero-bit index is actually present, or
/// `acc_set` is inconsistent), or in the purely theoretical case of a
/// hash-to-prime failure.
pub fn update<G: UnknownOrderGroup>(
    acc: Accumulator<G>,
    acc_set: &[rug::Integer],
    bits: &[(bool, rug::Integer)],
) -> (r: Result<(Accumulator<G>, VectorProof<G>), VCError>)
    requires
        acc.wf(),
        all_positive(ints_of(acc_set@)),
    ensures
        match r {
            Ok(av) => {
                &&& !has_conflict(bits@)
                &&& all_indices_found(bits@)
                &&& coprime(prod(ints_of(acc_set@)), prod(zero_primes(bits@)))
                &&& av.0.wf()
                &&& av.1.wf()
                &&& av.0.state() == powm(acc.state(), prod(one_primes(bits@)), G::modulus())
                &&& av.1.membership_proof().witness_value() == acc.state()
                &&& hash_found(
                    transcript_bytes(acc.state(), prod(one_primes(bits@)), av.0.state()),
                ) ==> membership_checks::<G>(av.0.state(), one_primes(bits@), av.1.membership_proof())
                &&& (av.0.state() == powm(
                    G::generator_value(),
                    prod(ints_of(acc_set@)),
                    G::modulus(),
                ) ==> nonmembership_checks::<G>(
                    av.0.state(),
                    zero_primes(bits@),
                    av.1.nonmembership_proof(),
                ))
            },
            Err(e) => match e {
                VCError::ConflictingIndicesError => has_conflict(bits@),
                VCError::InvalidOpenError => (!has_conflict(bits@) && !all_indices_found(bits@))
                    || (!has_conflict(bits@) && all_indices_found(bits@) && !coprime(
                    prod(ints_of(acc_set@)),
                    prod(zero_primes(bits@)),
                )),
            },
        },
{
    match group_elems_by_bit(bits) {
        Ok((zeros, ones)) => {
            let (new_acc, membership_proof) = acc.add(ones.as_slice());
            match new_acc.prove_nonmembership(acc_set, zeros.as_slice()) {
                Ok(nonmembership_proof) => Ok(
                    (new_acc, VectorProof { membership_proof, nonmembership_proof }),
                ),
                Err(_) => Err(VCError::InvalidOpenError),
            }
        },
        Err(e) => Err(e),
    }
}

/// Everything `open` must establish: every index hashes to a prime, every
/// one-bit witness reconstructs the state through its index's prime, the
/// one-bit primes fold through Bezout relations, and the zero-bit primes
/// are coprime to the accumulated product.
pub open spec fn open_ok<G: UnknownOrderGroup>(
    state: int,
    acc_set: Seq<rug::Integer>,
    zero_bits: Seq<rug::Integer>,
    one_bit_witnesses: Seq<(rug::Integer, Accumulator<G>)>,
) -> bool {
    &&& forall|k: int| 0 <= k < zero_bits.len() ==> index_found(#[trigger] int_of(zero_bits[k]))
    &&& forall|k: int|
        0 <= k < one_bit_witnesses.len() ==> index_found(#[trigger] int_of(one_bit_witnesses[k].0))
    &&& open_witnesses_ok::<G>(state, one_bit_witnesses)
    &&& elems_foldable(index_primes(one_bit_witnesses.map_values(|p: (rug::Integer, Accumulator<G>)| p.0)))
    &&& coprime(prod(ints_of(acc_set)), prod(index_primes(zero_bits)))
}

/// Reconstruct a vector proof for an existing accumulator without changing
/// it, from explicit per-element witnesses for the one-bits. Fails with
/// `InvalidOpenError` exactly when the witnesses or products do not support
/// the opening (or hash-to-prime fails for some index).
pub fn open<G: UnknownOrderGroup>(
    acc: &Accumulator<G>,
    acc_set: &[rug::Integer],
    zero_bits: &[rug::Integer],
    one_bit_witnesses: &[(rug::Integer, Accumulator<G>)],
) -> (r: Result<VectorProof<G>, VCError>)
    requires
        acc.wf(),
        all_positive(ints_of(acc_set@)),
        forall|k: int|
            0 <= k < one_bit_witnesses@.len() ==> (#[trigger] one_bit_witnesses@[k].1).wf(),
    ensures
        match r {
            Ok(vp) => {
                &&& open_ok::<G>(acc.state(), acc_set@, zero_bits@, one_bit_witnesses@)
                &&& vp.wf()
                &&& hash_found(
                    transcript_bytes(
                        vp.membership_proof().witness_value(),
                        prod(index_primes(one_bit_witnesses@.map_values(|p: (rug::Integer, Accumulator<G>)| p.0))),
                        acc.state(),
                    ),
                ) ==> membership_checks::<G>(
                    acc.state(),
                    index_primes(one_bit_witnesses@.map_values(|p: (rug::Integer, Accumulator<G>)| p.0)),
                    vp.membership_proof(),
                )
                &&& (acc.state() == powm(
                    G::generator_value(),
                    prod(ints_of(acc_set@)),
                    G::modulus(),
                ) ==> nonmembership_checks::<G>(
                    acc.state(),
                    index_primes(zero_bits@),
                    vp.nonmembership_proof(),
                ))
            },
            Err(e) => e matches VCError::InvalidOpenError && !open_ok::<G>(
                acc.state(),
                acc_set@,
                zero_bits@,
                one_bit_witnesses@,
            ),
        },
{
    let ghost firsts = one_bit_witnesses@.map_values(|p: (rug::Integer, Accumulator<G>)| p.0);
    let mut pairs: Vec<(rug::Integer, Accumulator<G>)> = Vec::new();
    let mut k: usize = 0;
    while k < one_bit_witnesses.len()
        invariant
            k <= one_bit_witnesses@.len(),
            acc.wf(),
            firsts == one_bit_witnesses@.map_values(|p: (rug::Integer, Accumulator<G>)| p.0),
            forall|k2: int|
                0 <= k2 < one_bit_witnesses@.len() ==> (#[trigger] one_bit_witnesses@[k2].1).wf(),
            pairs@.len() == k,
            forall|j: int|
                0 <= j < k ==> index_found(#[trigger] int_of(one_bit_witnesses@[j].0)),
            forall|j: int|
                0 <= j < k ==> int_of(#[trigger] pairs@[j].0) == index_prime(
                    int_of(one_bit_witnesses@[j].0),
                ) && int_of(pairs@[j].0) >= 1,
            forall|j: int|
                0 <= j < k ==> (#[trigger] pairs@[j].1).state() == one_bit_witnesses@[j].1.state()
                    && pairs@[j].1.wf(),
        decreases one_bit_witnesses@.len() - k,
    {
        let encoded = encode_int(&one_bit_witnesses[k].0);
        match hash_to_prime(encoded.as_slice()) {
            Some(p) => {
                pairs.push((p, one_bit_witnesses[k].1.duplicate()));
            },
            None => {
                return Err(VCError::InvalidOpenError);
            },
        }
        k = k + 1;
    }
    let mut zeros: Vec<rug::Integer> = Vec::new();
    let mut k: usize = 0;
    while k < zero_bits.len()
        invariant
            k <= zero_bits@.len(),
            forall|j: int| 0 <= j < k ==> index_found(#[trigger] int_of(zero_bits@[j])),
            ints_of(zeros@) == index_primes(zero_bits@.take(k as int)),
            all_positive(ints_of(zeros@)),
        decreases zero_bits@.len() - k,
    {
        let encoded = encode_int(&zero_bits[k]);
        match hash_to_prime(encoded.as_slice()) {
            Some(p) => {
                proof {
                    assert(ints_of(zeros@.push(p)) =~= ints_of(zeros@).push(int_of(p)));
                    assert(index_primes(zero_bits@.take(k as int + 1)) =~= index_primes(
                        zero_bits@.take(k as int),
                    ).push(index_prime(int_of(zero_bits@[k as int]))));
                }
                zeros.push(p);
            },
            None => {
                return Err(VCError::InvalidOpenError);
            },
        }
        k = k + 1;
    }
    proof {
        assert(zero_bits@.take(zero_bits@.len() as int) =~= zero_bits@);
        assert(ints_of(pairs@.map_values(|p: (rug::Integer, Accumulator<G>)| p.0)) =~= index_primes(
            firsts,
        ));
    }
    let membership_result = acc.prove_membership(pairs.as_slice());
    match membership_result {
        Ok(membership_proof) => {
            proof {
                if !open_witnesses_ok::<G>(acc.state(), one_bit_witnesses@) {
                    let bad = choose|k: int|
                        0 <= k < one_bit_witnesses@.len() && pow(
                            #[trigger] one_bit_witnesses@[k].1.state(),
                            index_prime(int_of(one_bit_witnesses@[k].0)) as nat,
                        ) % G::modulus() != acc.state();
                    assert(pow(pairs@[bad].1.state(), int_of(pairs@[bad].0) as nat) % G::modulus()
                        != acc.state());
                    assert(false);
                }
            }
            match acc.prove_nonmembership(acc_set, zeros.as_slice()) {
                Ok(nonmembership_proof) => Ok(
                    VectorProof { membership_proof, nonmembership_proof },
                ),
                Err(_) => Err(VCError::InvalidOpenError),
            }
        },
        Err(_) => {
            proof {
                if open_witnesses_ok::<G>(acc.state(), one_bit_witnesses@) {
                    assert forall|k2: int| 0 <= k2 < pairs@.len() implies pow(
                        #[trigger] pairs@[k2].1.state(),
                        int_of(pairs@[k2].0) as nat,
                    ) % G::modulus() == acc.state() by {
                        assert(pow(
                            one_bit_witnesses@[k2].1.state(),
                            index_prime(int_of(one_bit_witnesses@[k2].0)) as nat,
                        ) % G::modulus() == acc.state());
                    }
                }
            }
            Err(VCError::InvalidOpenError)
        },
    }
}

/// Check a vector proof: re-derive the zero/one partition (failing closed,
/// returning false, if the partition is invalid) and check the membership
/// proof over the one-bit primes and the non-membership proof over the
/// zero-bit primes.
pub fn verify<G: UnknownOrderGroup>(
    acc: &Accumulator<G>,
    bits: &[(bool, rug::Integer)],
    proof: &VectorProof<G>,
) -> (r: bool)
    requires
        acc.wf(),
        proof.wf(),
    ensures
        r == {
            &&& !has_conflict(bits@)
            &&& all_indices_found(bits@)
            &&& membership_checks::<G>(acc.state(), one_primes(bits@), proof.membership_proof())
            &&& nonmembership_checks::<G>(
                acc.state(),
                zero_primes(bits@),
                proof.nonmembership_proof(),
            )
        },
{
    match group_elems_by_bit(bits) {
        Ok((zeros, ones)) => {
            let verified_membership = acc.verify_membership(ones.as_slice(), &proof.membership_proof);
            let verified_nonmembership = acc.verify_nonmembership(
                zeros.as_slice(),
                &proof.nonmembership_proof,
            );
            verified_membership && verified_nonmembership
        },
        Err(_) => false,
    }
}

/// Vector round-trip: a successful `update` whose index universe `acc_set`
/// matches the updated accumulator yields a proof that `verify` accepts for
/// the same bits, provided the membership challenge transcript admits a
/// hash-to-prime image (which fails only in the purely theoretical case of
/// an exhausted bounded search).
pub proof fn lemma_update_verify_roundtrip<G: UnknownOrderGroup>(
    old_state: int,
    acc_set: Seq<rug::Integer>,
    bits: Seq<(bool, rug::Integer)>,
    new_acc: Accumulator<G>,
    vp: VectorProof<G>,
)
    requires
        !has_conflict(bits),
        all_indices_found(bits),
        new_acc.state() == powm(old_state, prod(one_primes(bits)), G::modulus()),
        hash_found(transcript_bytes(old_state, prod(one_primes(bits)), new_acc.state()))
            ==> membership_checks::<G>(new_acc.state(), one_primes(bits), vp.membership_proof()),
        new_acc.state() == powm(G::generator_value(), prod(ints_of(acc_set)), G::modulus())
            ==> nonmembership_checks::<G>(new_acc.state(), zero_primes(bits), vp.nonmembership_proof()),
        hash_found(transcript_bytes(old_state, prod(one_primes(bits)), new_acc.state())),
        new_acc.state() == powm(G::generator_value(), prod(ints_of(acc_set)), G::modulus()),
    ensures
        ({
            &&& !has_conflict(bits)
            &&& all_indices_found(bits)
            &&& membership_checks::<G>(new_acc.state(), one_primes(bits), vp.membership_proof())
            &&& nonmembership_checks::<G>(new_acc.state(), zero_primes(bits), vp.nonmembership_proof())
        }),
{
}

} // verus!
