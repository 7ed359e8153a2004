//! The unknown-order group capability and its RSA-2048 realization.
//!
//! The accumulator is written once against `UnknownOrderGroup`; `Rsa2048`
//! realizes it over the multiplicative residues modulo a fixed, public
//! 2048-bit RSA challenge modulus whose factorization nobody is known to
//! hold, which is what makes the group's order unknown.

use vstd::prelude::*;
use vstd::arithmetic::power::pow;
use vstd::arithmetic::div_mod::lemma_fundamental_div_mod;
use crate::arith::{
    int_of, int_from_u64, int_dup, int_eq, int_add, int_mul, int_div_rem_euc, int_pow_mod,
    int_is_positive, int_secure_pow_mod,
};
use crate::encoding::{int_bytes, encode_int};
use crate::modular::{
    coprime, powm, inverse_of, lemma_coprime_one, lemma_coprime_pow, lemma_coprime_mod,
    lemma_coprime_mul, lemma_powm_props, lemma_powm_of_inverse,
};

verus! {

/// A well-formed group element: a reduced residue that is a unit, so that
/// every element has an inverse and signed exponents are meaningful.
pub open spec fn elem_wf<G: UnknownOrderGroup>(e: &G) -> bool {
    &&& 0 <= e.value() < G::modulus()
    &&& coprime(e.value(), G::modulus())
}

/// A group of unknown order: commutative multiplication of residues modulo
/// a fixed public modulus whose factorization (and hence the group order)
/// is not known to any party.
pub trait UnknownOrderGroup: Sized {
    /// The group's fixed public modulus.
    spec fn modulus() -> int;

    /// The residue of the fixed public generator.
    spec fn generator_value() -> int;

    /// The residue this element stands for.
    spec fn value(&self) -> int;

    /// The public parameters are sound: the modulus is at least two and the
    /// generator is a well-formed unit.
    proof fn lemma_parameters()
        ensures
            Self::modulus() >= 2,
            1 <= Self::generator_value() < Self::modulus(),
            coprime(Self::generator_value(), Self::modulus()),
    ;

    /// The neutral element.
    fn identity() -> (r: Self)
        ensures
            0 <= r.value() < Self::modulus(),
            coprime(r.value(), Self::modulus()),
            r.value() == 1,
    ;

    /// The fixed public generator, from which all accumulator states descend.
    fn generator() -> (r: Self)
        ensures
            0 <= r.value() < Self::modulus(),
            coprime(r.value(), Self::modulus()),
            r.value() == Self::generator_value(),
    ;

    /// The group operation: multiplication of residues.
    fn op(a: &Self, b: &Self) -> (r: Self)
        requires
            0 <= a.value() < Self::modulus(),
            coprime(a.value(), Self::modulus()),
            0 <= b.value() < Self::modulus(),
            coprime(b.value(), Self::modulus()),
        ensures
            0 <= r.value() < Self::modulus(),
            coprime(r.value(), Self::modulus()),
            r.value() == (a.value() * b.value()) % Self::modulus(),
    ;

    /// Exponentiation by an arbitrary-precision signed exponent; a negative
    /// exponent raises the inverse of the base.
    fn exp(base: &Self, e: &rug::Integer) -> (r: Self)
        requires
            0 <= base.value() < Self::modulus(),
            coprime(base.value(), Self::modulus()),
        ensures
            0 <= r.value() < Self::modulus(),
            coprime(r.value(), Self::modulus()),
            r.value() == powm(base.value(), int_of(*e), Self::modulus()),
    ;

    /// Equality of elements.
    fn eq_elem(a: &Self, b: &Self) -> (r: bool)
        ensures
            r == (a.value() == b.value()),
    ;

    /// A copy of the element.
    fn dup(e: &Self) -> (r: Self)
        ensures
            r.value() == e.value(),
    ;

    /// The stable byte encoding of the element used in proof transcripts.
    fn encode(e: &Self) -> (r: Vec<u8>)
        ensures
            r@ == int_bytes(e.value()),
    ;
}

/// The fixed public 2048-bit modulus of the `Rsa2048` realization: the RSA
/// factoring-challenge modulus, whose factorization is not publicly known,
/// assembled from eighteen-digit groups of its decimal digits.
pub open spec fn rsa2048_modulus() -> int {
    ((((((((((((((((((((((((((((((((((25195int
        ) * 1000000000000000000 + 908475657893494027
        ) * 1000000000000000000 + 183240048398571429
        ) * 1000000000000000000 + 282126204032027777
        ) * 1000000000000000000 + 137836043662020707
        ) * 1000000000000000000 + 595556264018525880
        ) * 1000000000000000000 + 784406918290641249
        ) * 1000000000000000000 + 515082189298559149
        ) * 1000000000000000000 + 176184502808489120
        ) * 1000000000000000000 + 72844992687392807
        ) * 1000000000000000000 + 287776735971418347
        ) * 1000000000000000000 + 270261896375014971
        ) * 1000000000000000000 + 824691165077613379
        ) * 1000000000000000000 + 859095700097330459
        ) * 1000000000000000000 + 748808428401797429
        ) * 1000000000000000000 + 100642458691817195
        ) * 1000000000000000000 + 118746121515172654
        ) * 1000000000000000000 + 632282216869987549
        ) * 1000000000000000000 + 182422433637259085
        ) * 1000000000000000000 + 141865462043576798
        ) * 1000000000000000000 + 423387184774447920
        ) * 1000000000000000000 + 739934236584823824
        ) * 1000000000000000000 + 281198163815010674
        ) * 1000000000000000000 + 810451660377306056
        ) * 1000000000000000000 + 201619676256133844
        ) * 1000000000000000000 + 143603833904414952
        ) * 1000000000000000000 + 634432190114657544
        ) * 1000000000000000000 + 454178424020924616
        ) * 1000000000000000000 + 515723350778707749
        ) * 1000000000000000000 + 817125772467962926
        ) * 1000000000000000000 + 386356373289912154
        ) * 1000000000000000000 + 831438167899885040
        ) * 1000000000000000000 + 445364023527381951
        ) * 1000000000000000000 + 378636564391212010
        ) * 1000000000000000000 + 397122822120720357
}

/// One element of the RSA-2048 group: a residue modulo `rsa2048_modulus`.
pub struct Rsa2048 {
    residue: rug::Integer,
}

/// The modulus as a `rug::Integer`, assembled from the same
/// eighteen-digit groups as `rsa2048_modulus`.
fn rsa2048_modulus_int() -> (r: rug::Integer)
    ensures
        int_of(r) == rsa2048_modulus(),
{
    let scale = int_from_u64(1000000000000000000);
    let mut n = int_from_u64(25195);
    n = int_add(&int_mul(&n, &scale), &int_from_u64(908475657893494027));
    n = int_add(&int_mul(&n, &scale), &int_from_u64(183240048398571429));
    n = int_add(&int_mul(&n, &scale), &int_from_u64(282126204032027777));
    n = int_add(&int_mul(&n, &scale), &int_from_u64(137836043662020707));
    n = int_add(&int_mul(&n, &scale), &int_from_u64(595556264018525880));
    n = int_add(&int_mul(&n, &scale), &int_from_u64(784406918290641249));
    n = int_add(&int_mul(&n, &scale), &int_from_u64(515082189298559149));
    n = int_add(&int_mul(&n, &scale), &int_from_u64(176184502808489120));
    n = int_add(&int_mul(&n, &scale), &int_from_u64(72844992687392807));
    n = int_add(&int_mul(&n, &scale), &int_from_u64(287776735971418347));
    n = int_add(&int_mul(&n, &scale), &int_from_u64(270261896375014971));
    n = int_add(&int_mul(&n, &scale), &int_from_u64(824691165077613379));
    n = int_add(&int_mul(&n, &scale), &int_from_u64(859095700097330459));
    n = int_add(&int_mul(&n, &scale), &int_from_u64(748808428401797429));
    n = int_add(&int_mul(&n, &scale), &int_from_u64(100642458691817195));
    n = int_add(&int_mul(&n, &scale), &int_from_u64(118746121515172654));
    n = int_add(&int_mul(&n, &scale), &int_from_u64(632282216869987549));
    n = int_add(&int_mul(&n, &scale), &int_from_u64(182422433637259085));
    n = int_add(&int_mul(&n, &scale), &int_from_u64(141865462043576798));
    n = int_add(&int_mul(&n, &scale), &int_from_u64(423387184774447920));
    n = int_add(&int_mul(&n, &scale), &int_from_u64(739934236584823824));
    n = int_add(&int_mul(&n, &scale), &int_from_u64(281198163815010674));
    n = int_add(&int_mul(&n, &scale), &int_from_u64(810451660377306056));
    n = int_add(&int_mul(&n, &scale), &int_from_u64(201619676256133844));
    n = int_add(&int_mul(&n, &scale), &int_from_u64(143603833904414952));
    n = int_add(&int_mul(&n, &scale), &int_from_u64(634432190114657544));
    n = int_add(&int_mul(&n, &scale), &int_from_u64(454178424020924616));
    n = int_add(&int_mul(&n, &scale), &int_from_u64(515723350778707749));
    n = int_add(&int_mul(&n, &scale), &int_from_u64(817125772467962926));
    n = int_add(&int_mul(&n, &scale), &int_from_u64(386356373289912154));
    n = int_add(&int_mul(&n, &scale), &int_from_u64(831438167899885040));
    n = int_add(&int_mul(&n, &scale), &int_from_u64(445364023527381951));
    n = int_add(&int_mul(&n, &scale), &int_from_u64(378636564391212010));
    n = int_add(&int_mul(&n, &scale), &int_from_u64(397122822120720357));
    n
}

impl UnknownOrderGroup for Rsa2048 {
    closed spec fn modulus() -> int {
        rsa2048_modulus()
    }

    closed spec fn generator_value() -> int {
        2
    }

    closed spec fn value(&self) -> int {
        int_of(self.residue)
    }

    proof fn lemma_parameters() {
        let n = rsa2048_modulus();
        assert(n % 2 == 1);
        lemma_fundamental_div_mod(1 - n, 2);
        assert((1 - n) % 2 == 0);
        let u = (1 - n) / 2;
        assert(u * 2 + 1 * n == 1);
    }

    fn identity() -> (r: Self) {
        let one = int_from_u64(1);
        proof {
            lemma_coprime_one(rsa2048_modulus());
        }
        Rsa2048 { residue: one }
    }

    fn generator() -> (r: Self) {
        let two = int_from_u64(2);
        proof {
            Self::lemma_parameters();
        }
        Rsa2048 { residue: two }
    }

    fn op(a: &Self, b: &Self) -> (r: Self) {
        let m = rsa2048_modulus_int();
        let ab = int_mul(&a.residue, &b.residue);
        let (_q, rem) = int_div_rem_euc(&ab, &m);
        proof {
            lemma_coprime_mul(a.value(), b.value(), rsa2048_modulus());
            lemma_coprime_mod(a.value() * b.value(), rsa2048_modulus());
        }
        Rsa2048 { residue: rem }
    }

    fn exp(base: &Self, e: &rug::Integer) -> (r: Self) {
        let m = rsa2048_modulus_int();
        if int_is_positive(e) {
            let v = int_secure_pow_mod(&base.residue, e, &m);
            proof {
                let n = rsa2048_modulus();
                lemma_coprime_pow(base.value(), int_of(*e) as nat, n);
                lemma_coprime_mod(pow(base.value(), int_of(*e) as nat), n);
            }
            return Rsa2048 { residue: v };
        }
        let res = int_pow_mod(&base.residue, e, &m);
        match res {
            Some(v) => {
                proof {
                    let n = rsa2048_modulus();
                    if int_of(*e) >= 0 {
                        lemma_coprime_pow(base.value(), int_of(*e) as nat, n);
                        lemma_coprime_mod(pow(base.value(), int_of(*e) as nat), n);
                    } else {
                        assert(inverse_of(int_of(v), pow(base.value(), (-int_of(*e)) as nat), n));
                        lemma_powm_of_inverse(base.value(), int_of(*e), n, int_of(v));
                        lemma_powm_props(base.value(), int_of(*e), n);
                    }
                }
                Rsa2048 { residue: v }
            },
            None => {
                proof {
                    assert(false);
                }
                Rsa2048 { residue: m }
            },
        }
    }

    fn eq_elem(a: &Self, b: &Self) -> (r: bool) {
        int_eq(&a.residue, &b.residue)
    }

    fn dup(e: &Self) -> (r: Self) {
        Rsa2048 { residue: int_dup(&e.residue) }
    }

    fn encode(e: &Self) -> (r: Vec<u8>) {
        encode_int(&e.residue)
    }
}

} // verus!
