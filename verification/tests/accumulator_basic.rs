use accumulator::accumulator::Accumulator;
use accumulator::group::Rsa2048;
use accumulator::vector_commitment::{setup, VCError};

#[test]
fn setup_starts_at_generator() {
    let a = setup::<Rsa2048>();
    let b = Accumulator::<Rsa2048>::new();
    assert!(a.equals(&b));
}

#[test]
fn setup_is_deterministic() {
    let a = setup::<Rsa2048>();
    let b = setup::<Rsa2048>();
    assert!(a.equals(&b));
    assert!(b.equals(&a));
}

#[test]
fn duplicate_preserves_state() {
    let a = setup::<Rsa2048>();
    let c = a.duplicate();
    assert!(a.equals(&c));
}

#[test]
fn error_kinds_are_distinct() {
    let conflict = VCError::ConflictingIndicesError;
    let open = VCError::InvalidOpenError;
    assert!(matches!(conflict, VCError::ConflictingIndicesError));
    assert!(matches!(open, VCError::InvalidOpenError));
}

use accumulator::group::UnknownOrderGroup;

#[test]
fn group_op_matches_small_squares() {
    let g = Rsa2048::generator();
    let four = Rsa2048::op(&g, &g);
    let two = rug::Integer::from(2u64);
    let also_four = Rsa2048::exp(&g, &two);
    assert!(Rsa2048::eq_elem(&four, &also_four));
    assert!(!Rsa2048::eq_elem(&four, &g));
}

#[test]
fn group_exp_zero_gives_identity() {
    let g = Rsa2048::generator();
    let zero = rug::Integer::from(0u64);
    let one = Rsa2048::exp(&g, &zero);
    assert!(Rsa2048::eq_elem(&one, &Rsa2048::identity()));
}

#[test]
fn group_exp_negative_inverts() {
    let g = Rsa2048::generator();
    let minus_one = rug::Integer::from(-1i64);
    let inv = Rsa2048::exp(&g, &minus_one);
    assert!(!Rsa2048::eq_elem(&inv, &g));
    let back = Rsa2048::exp(&inv, &minus_one);
    assert!(Rsa2048::eq_elem(&back, &g));
    let product = Rsa2048::op(&g, &inv);
    assert!(Rsa2048::eq_elem(&product, &Rsa2048::identity()));
}

#[test]
fn group_exp_adds_exponents() {
    let g = Rsa2048::generator();
    let a = rug::Integer::from(11u64);
    let b = rug::Integer::from(13u64);
    let ab = rug::Integer::from(24u64);
    let left = Rsa2048::op(&Rsa2048::exp(&g, &a), &Rsa2048::exp(&g, &b));
    let right = Rsa2048::exp(&g, &ab);
    assert!(Rsa2048::eq_elem(&left, &right));
}
