use accumulator::accumulator::{AccError, Accumulator};
use accumulator::group::Rsa2048;
use accumulator::hash::hash_to_prime;
use accumulator::vector_commitment::{
    group_elems_by_bit, index_to_prime, open, setup, update, verify, VCError,
};
use rug::Integer;

fn ints(vals: &[u32]) -> Vec<Integer> {
    vals.iter().map(|v| Integer::from(*v)).collect()
}

#[test]
fn hash_to_prime_is_deterministic_and_prime() {
    let a = hash_to_prime(b"some element").expect("search found no prime");
    let b = hash_to_prime(b"some element").expect("search found no prime");
    assert_eq!(a, b);
    assert!(!matches!(a.is_probably_prime(30), rug::integer::IsPrime::No));
    let c = hash_to_prime(b"another element").expect("search found no prime");
    assert_ne!(a, c);
}

#[test]
fn add_batches_commute() {
    let empty = Accumulator::<Rsa2048>::new();
    let ab = empty.add(&ints(&[3, 5])).0.add(&ints(&[7, 11])).0;
    let ba = empty.add(&ints(&[7, 11])).0.add(&ints(&[3, 5])).0;
    assert!(ab.equals(&ba));
}

#[test]
fn membership_proof_verifies_and_rejects_other_elems() {
    let empty = Accumulator::<Rsa2048>::new();
    let (acc, proof) = empty.add(&ints(&[3, 5]));
    assert!(acc.verify_membership(&ints(&[3, 5]), &proof));
    assert!(!acc.verify_membership(&ints(&[3, 7]), &proof));
    assert!(!acc.verify_membership(&ints(&[3]), &proof));
}

#[test]
fn membership_verification_is_idempotent() {
    let empty = Accumulator::<Rsa2048>::new();
    let (acc, proof) = empty.add(&ints(&[3, 5]));
    let first = acc.verify_membership(&ints(&[3, 5]), &proof);
    let second = acc.verify_membership(&ints(&[3, 5]), &proof);
    assert_eq!(first, second);
    assert!(first);
}

#[test]
fn nonmembership_succeeds_on_disjoint_and_fails_on_member() {
    let acc_set = ints(&[3, 5]);
    let empty = Accumulator::<Rsa2048>::new();
    let (acc, _) = empty.add(&acc_set);
    let proof = acc
        .prove_nonmembership(&acc_set, &ints(&[7, 11]))
        .expect("disjoint primes must prove absent");
    assert!(acc.verify_nonmembership(&ints(&[7, 11]), &proof));
    assert!(!acc.verify_nonmembership(&ints(&[13]), &proof));
    let overlapping = acc.prove_nonmembership(&acc_set, &ints(&[5, 7]));
    assert!(matches!(overlapping, Err(AccError::InputsNotCoprime)));
}

#[test]
fn delete_with_bad_witness_fails() {
    let empty = Accumulator::<Rsa2048>::new();
    let (acc, _) = empty.add(&ints(&[3, 5]));
    let stale = empty.duplicate();
    let r = acc.delete(&[(Integer::from(3u32), stale)]);
    assert!(matches!(r, Err(AccError::BadWitness)));
}

#[test]
fn delete_undoes_add() {
    let empty = Accumulator::<Rsa2048>::new();
    let (with_both, _) = empty.add(&ints(&[3, 5]));
    let (only_five, _) = empty.add(&ints(&[5]));
    let deleted = with_both
        .delete(&[(Integer::from(3u32), only_five.duplicate())])
        .expect("consistent witness must delete");
    assert!(deleted.equals(&only_five));
}

#[test]
fn conflicting_indices_are_rejected() {
    let twice_same_bit = vec![
        (true, Integer::from(7u32)),
        (true, Integer::from(7u32)),
    ];
    assert!(matches!(
        group_elems_by_bit(&twice_same_bit),
        Err(VCError::ConflictingIndicesError)
    ));
    let twice_mixed = vec![
        (true, Integer::from(7u32)),
        (false, Integer::from(7u32)),
    ];
    assert!(matches!(
        group_elems_by_bit(&twice_mixed),
        Err(VCError::ConflictingIndicesError)
    ));
}

#[test]
fn partition_splits_by_bit() {
    let bits = vec![
        (true, Integer::from(1u32)),
        (false, Integer::from(2u32)),
        (true, Integer::from(3u32)),
    ];
    let (zeros, ones) = group_elems_by_bit(&bits).expect("no conflicts");
    assert_eq!(zeros.len(), 1);
    assert_eq!(ones.len(), 2);
    let p1 = index_to_prime(&Integer::from(1u32)).unwrap();
    let p2 = index_to_prime(&Integer::from(2u32)).unwrap();
    let p3 = index_to_prime(&Integer::from(3u32)).unwrap();
    assert_eq!(ones[0], p1);
    assert_eq!(ones[1], p3);
    assert_eq!(zeros[0], p2);
}

#[test]
fn vector_round_trip_and_flip_rejection() {
    let bits = vec![
        (true, Integer::from(1u32)),
        (false, Integer::from(2u32)),
        (true, Integer::from(3u32)),
    ];
    let p1 = index_to_prime(&Integer::from(1u32)).unwrap();
    let p3 = index_to_prime(&Integer::from(3u32)).unwrap();
    let acc_set = vec![p1, p3];
    let (acc, vector_proof) =
        update(setup::<Rsa2048>(), &acc_set, &bits).expect("consistent update");
    assert!(verify(&acc, &bits, &vector_proof));
    let flipped = vec![
        (true, Integer::from(1u32)),
        (true, Integer::from(2u32)),
        (true, Integer::from(3u32)),
    ];
    assert!(!verify(&acc, &flipped, &vector_proof));
}

#[test]
fn update_with_present_zero_bit_fails() {
    // Index 2's bit is claimed zero while its prime is in the universe of
    // a state that accumulated it.
    let p1 = index_to_prime(&Integer::from(1u32)).unwrap();
    let p2 = index_to_prime(&Integer::from(2u32)).unwrap();
    let bits = vec![(true, Integer::from(1u32)), (false, Integer::from(2u32))];
    let acc_set = vec![p1, p2.clone()];
    let base = setup::<Rsa2048>().add(&[p2]).0;
    let r = update(base, &acc_set, &bits);
    assert!(matches!(r, Err(VCError::InvalidOpenError)));
}

#[test]
fn open_reconstructs_a_verifying_proof() {
    let one_indices = [Integer::from(1u32), Integer::from(3u32)];
    let p1 = index_to_prime(&one_indices[0]).unwrap();
    let p3 = index_to_prime(&one_indices[1]).unwrap();
    let empty = setup::<Rsa2048>();
    let (acc, _) = empty.add(&[p1.clone(), p3.clone()]);
    let witness_for_1 = empty.add(&[p3]).0;
    let witness_for_3 = empty.add(&[p1]).0;
    let acc_set = [
        index_to_prime(&one_indices[0]).unwrap(),
        index_to_prime(&one_indices[1]).unwrap(),
    ];
    let vector_proof = open(
        &acc,
        &acc_set,
        &[Integer::from(2u32)],
        &[
            (Integer::from(1u32), witness_for_1),
            (Integer::from(3u32), witness_for_3.duplicate()),
        ],
    )
    .expect("consistent opening");
    let bits = vec![
        (true, Integer::from(1u32)),
        (false, Integer::from(2u32)),
        (true, Integer::from(3u32)),
    ];
    assert!(verify(&acc, &bits, &vector_proof));
    let bad = open(
        &acc,
        &acc_set,
        &[Integer::from(2u32)],
        &[
            (Integer::from(1u32), setup::<Rsa2048>()),
            (Integer::from(3u32), witness_for_3),
        ],
    );
    assert!(matches!(bad, Err(VCError::InvalidOpenError)));
}

#[test]
fn partition_outputs_are_prime() {
    let bits = vec![
        (true, Integer::from(10u32)),
        (false, Integer::from(11u32)),
        (true, Integer::from(12u32)),
    ];
    let (zeros, ones) = group_elems_by_bit(&bits).expect("no conflicts");
    for p in zeros.iter().chain(ones.iter()) {
        assert!(!matches!(p.is_probably_prime(30), rug::integer::IsPrime::No));
        assert!(*p >= 2);
    }
}
