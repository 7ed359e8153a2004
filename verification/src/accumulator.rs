//! The accumulator: a single group-element commitment to a multiset of
//! primes. Batched additions pay one exponentiation for a whole batch and
//! come with a proof-of-exponentiation; deletions and membership proofs
//! combine per-element witnesses through Bezout relations; non-membership
//! proofs are coprimality certificates over the accumulated product.

use vstd::prelude::*;
use vstd::arithmetic::power::{pow, lemma_pow1, lemma_pow_adds, lemma_pow_multiplies, lemma_pow_mod_noop};
use vstd::arithmetic::div_mod::{
    lemma_fundamental_div_mod, lemma_mul_mod_noop_general, lemma_small_mod, lemma_mod_bound,
    lemma_div_pos_is_pos,
};
use crate::arith::{int_of, ints_of, int_from_u64, int_mul, int_eq, int_div_rem_euc, int_xgcd};
use crate::encoding::{encode_int, append_framed, transcript_bytes};
use crate::group::{UnknownOrderGroup, elem_wf};
use crate::hash::{hash_to_prime, hash_found, hash_prime_of};
use crate::modular::{
    coprime, powm, prod, lemma_powm_props, lemma_powm_add, lemma_powm_mul_exp, lemma_root_combine,
    lemma_root_combine_unit, lemma_gcd_one_iff_coprime, lemma_coprime_sym, lemma_prod_all_ge_one,
    lemma_prod_take_succ,
};

verus! {

/// Failures of accumulator operations: a witness inconsistent with the
/// current state, or elements that are not coprime to what the operation
/// requires.
#[derive(Debug)]
pub enum AccError {
    BadWitness,
    InputsNotCoprime,
}

/// One accumulator value: a group element. Every reachable state is the
/// generator raised to the product of the accumulated primes.
pub struct Accumulator<G: UnknownOrderGroup> {
    value: G,
}

/// A membership transcript: the witness element and the quotient power of a
/// proof-of-exponentiation, checked against a claimed batch of primes.
pub struct MembershipProof<G: UnknownOrderGroup> {
    witness: G,
    quotient: G,
}

/// A non-membership certificate: a group element and the integer Bezout
/// coefficient of a coprimality relation.
pub struct NonmembershipProof<G: UnknownOrderGroup> {
    d: G,
    b: rug::Integer,
}

/// Every entry is at least one, as holds of any sequence of primes.
pub open spec fn all_positive(s: Seq<int>) -> bool {
    forall|k: int| 0 <= k < s.len() ==> s[k] >= 1
}

/// Each supplied witness, raised to its element, reconstructs the state.
pub open spec fn witnesses_consistent<G: UnknownOrderGroup>(
    state: int,
    pairs: Seq<(rug::Integer, Accumulator<G>)>,
) -> bool {
    forall|k: int|
        0 <= k < pairs.len() ==> pow(#[trigger] pairs[k].1.state(), int_of(pairs[k].0) as nat)
            % G::modulus() == state
}

/// The element sequence can be folded through Bezout relations: each entry
/// is coprime to the product of the entries before it.
pub open spec fn elems_foldable(elems: Seq<int>) -> bool {
    forall|k: int| 0 <= k < elems.len() ==> #[trigger] coprime(prod(elems.take(k)), elems[k])
}

/// The proof-of-exponentiation check: with the challenge prime derived from
/// the transcript of the claim that `u` raised to `x` is `w`, the quotient
/// power `q` and the remainder power of `u` must reproduce `w`.
pub open spec fn poe_checks(m: int, u: int, x: int, w: int, q: int) -> bool {
    let tb = transcript_bytes(u, x, w);
    let l = hash_prime_of(tb);
    &&& hash_found(tb)
    &&& ((pow(q, l as nat) % m) * (pow(u, (x % l) as nat) % m)) % m == w
}

/// What `verify_membership` checks of a proof against a state and a batch.
pub open spec fn membership_checks<G: UnknownOrderGroup>(
    state: int,
    elems: Seq<int>,
    p: MembershipProof<G>,
) -> bool {
    poe_checks(G::modulus(), p.witness_value(), prod(elems), state, p.quotient_value())
}

/// What `verify_nonmembership` checks of a certificate against a state and
/// a batch: the certificate element raised to the batch product, times the
/// state raised to the Bezout coefficient, is the generator.
pub open spec fn nonmembership_checks<G: UnknownOrderGroup>(
    state: int,
    elems: Seq<int>,
    p: NonmembershipProof<G>,
) -> bool {
    (powm(p.d_value(), prod(elems), G::modulus()) * powm(state, p.b_value(), G::modulus()))
        % G::modulus() == G::generator_value()
}

impl<G: UnknownOrderGroup> MembershipProof<G> {
    pub closed spec fn witness_value(&self) -> int {
        self.witness.value()
    }

    pub closed spec fn quotient_value(&self) -> int {
        self.quotient.value()
    }

    pub closed spec fn wf(&self) -> bool {
        elem_wf(&self.witness) && elem_wf(&self.quotient)
    }
}

impl<G: UnknownOrderGroup> NonmembershipProof<G> {
    pub closed spec fn d_value(&self) -> int {
        self.d.value()
    }

    pub closed spec fn b_value(&self) -> int {
        int_of(self.b)
    }

    pub closed spec fn wf(&self) -> bool {
        elem_wf(&self.d)
    }
}

/// An honest prover's quotient power passes the proof-of-exponentiation
/// equation: splitting the exponent `x` by the challenge `l` into quotient
/// and remainder reproduces `u` to the `x`.
proof fn lemma_poe_complete(m: int, u: int, x: int, l: int)
    requires
        m >= 2,
        x >= 0,
        l >= 2,
    ensures
        ((pow(pow(u, (x / l) as nat) % m, l as nat) % m) * (pow(u, (x % l) as nat) % m)) % m == pow(
            u,
            x as nat,
        ) % m,
{
    let q = x / l;
    let r = x % l;
    lemma_fundamental_div_mod(x, l);
    lemma_div_pos_is_pos(x, l);
    lemma_mod_bound(x, l);
    lemma_pow_mod_noop(pow(u, q as nat), l as nat, m);
    lemma_pow_multiplies(u, q as nat, l as nat);
    assert((q * l) as nat == (q as nat) * (l as nat)) by (nonlinear_arith)
        requires
            q >= 0,
            l >= 2,
    ;
    lemma_mul_mod_noop_general(pow(u, (q * l) as nat), pow(u, r as nat), m);
    lemma_pow_adds(u, (q * l) as nat, r as nat);
    assert(l * q == q * l) by (nonlinear_arith);
    assert(q * l + r == x);
}

/// The product of a slice of integers.
fn prod_integers(elems: &[rug::Integer]) -> (r: rug::Integer)
    ensures
        int_of(r) == prod(ints_of(elems@)),
{
    let ghost gs = ints_of(elems@);
    let mut acc = int_from_u64(1);
    let mut k: usize = 0;
    while k < elems.len()
        invariant
            k <= elems@.len(),
            gs == ints_of(elems@),
            int_of(acc) == prod(gs.take(k as int)),
        decreases elems@.len() - k,
    {
        acc = int_mul(&acc, &elems[k]);
        proof {
            lemma_prod_take_succ(gs, k as int);
        }
        k = k + 1;
    }
    proof {
        assert(gs.take(elems@.len() as int) =~= gs);
    }
    acc
}

/// The transcript binding the claim that `u` raised to `x` is `w`.
fn poe_transcript<G: UnknownOrderGroup>(u: &G, x: &rug::Integer, w: &G) -> (r: Vec<u8>)
    ensures
        r@ == transcript_bytes(u.value(), int_of(*x), w.value()),
{
    let eu = G::encode(u);
    let ex = encode_int(x);
    let ew = G::encode(w);
    let out = append_framed(Vec::new(), &eu);
    let out = append_framed(out, &ex);
    let out = append_framed(out, &ew);
    proof {
        assert(out@ =~= transcript_bytes(u.value(), int_of(*x), w.value()));
    }
    out
}

impl<G: UnknownOrderGroup> Accumulator<G> {
    /// The residue committed to by this accumulator.
    pub closed spec fn state(&self) -> int {
        self.value.value()
    }

    /// The state is a well-formed group element.
    pub closed spec fn wf(&self) -> bool {
        elem_wf(&self.value)
    }

    /// A fresh, empty accumulator: its state is the group's generator.
    pub fn new() -> (r: Self)
        ensures
            r.wf(),
            r.state() == G::generator_value(),
    {
        Accumulator { value: G::generator() }
    }

    /// A copy of this accumulator value; accumulators are persistent and a
    /// prior value stays valid alongside its copies.
    pub fn duplicate(&self) -> (r: Self)
        ensures
            r.state() == self.state(),
            self.wf() ==> r.wf(),
    {
        Accumulator { value: G::dup(&self.value) }
    }

    /// Whether two accumulator values commit to the same state.
    pub fn equals(&self, other: &Self) -> (r: bool)
        ensures
            r == (self.state() == other.state()),
    {
        G::eq_elem(&self.value, &other.value)
    }

    /// Fold a batch of primes into the accumulator: one exponentiation by
    /// the batch product, together with a membership proof for the batch
    /// against the new state. The proof verifies whenever its challenge
    /// transcript admits a hash-to-prime image, which fails only in the
    /// purely theoretical case that the bounded search finds no prime.
    ///
    /// On that theoretical failure this function still returns the exact
    /// updated accumulator, with a proof that carries no completeness
    /// promise (verifiers then reject it), rather than changing the
    /// operation's result shape to an error: the state update itself never
    /// fails.
    pub fn add(&self, elems: &[rug::Integer]) -> (r: (Self, MembershipProof<G>))
        requires
            self.wf(),
            all_positive(ints_of(elems@)),
        ensures
            r.0.wf(),
            r.1.wf(),
            r.0.state() == powm(self.state(), prod(ints_of(elems@)), G::modulus()),
            r.1.witness_value() == self.state(),
            hash_found(transcript_bytes(self.state(), prod(ints_of(elems@)), r.0.state()))
                ==> membership_checks::<G>(r.0.state(), ints_of(elems@), r.1),
    {
        proof {
            G::lemma_parameters();
            lemma_prod_all_ge_one(ints_of(elems@));
        }
        let x = prod_integers(elems);
        let new_value = G::exp(&self.value, &x);
        let tb = poe_transcript::<G>(&self.value, &x, &new_value);
        let witness = G::dup(&self.value);
        match hash_to_prime(tb.as_slice()) {
            Some(l) => {
                let (q, _rem) = int_div_rem_euc(&x, &l);
                proof {
                    lemma_div_pos_is_pos(int_of(x), int_of(l));
                }
                let quotient = G::exp(&self.value, &q);
                proof {
                    lemma_poe_complete(G::modulus(), self.state(), int_of(x), int_of(l));
                }
                (Accumulator { value: new_value }, MembershipProof { witness, quotient })
            },
            None => {
                // No challenge prime exists for this transcript: a purely
                // theoretical case, in which the returned proof makes no
                // completeness promise.
                let quotient = G::identity();
                (Accumulator { value: new_value }, MembershipProof { witness, quotient })
            },
        }
    }

    /// Check a membership proof for a claimed batch against this state: the
    /// challenge is recomputed from the transcript and the verification
    /// equation is checked with small-exponent work only. Returns false on
    /// any proof that does not satisfy the equation; never fails.
    pub fn verify_membership(&self, elems: &[rug::Integer], proof: &MembershipProof<G>) -> (r:
        bool)
        requires
            self.wf(),
            proof.wf(),
        ensures
            r == membership_checks::<G>(self.state(), ints_of(elems@), *proof),
    {
        proof {
            G::lemma_parameters();
        }
        let x = prod_integers(elems);
        let tb = poe_transcript::<G>(&proof.witness, &x, &self.value);
        match hash_to_prime(tb.as_slice()) {
            Some(l) => {
                let (_q, rem) = int_div_rem_euc(&x, &l);
                let left = G::exp(&proof.quotient, &l);
                proof {
                    lemma_mod_bound(int_of(x), int_of(l));
                }
                let right = G::exp(&proof.witness, &rem);
                let combined = G::op(&left, &right);
                G::eq_elem(&combined, &self.value)
            },
            None => false,
        }
    }

    /// Validate each (element, witness) pair against the current state and
    /// combine the witnesses through Bezout relations into one element whose
    /// power by the product of all elements is the current state. Fails with
    /// `BadWitness` when some witness does not reconstruct the state, and
    /// with `InputsNotCoprime` when the elements cannot be folded (some
    /// element shares a factor with the ones before it).
    fn combine_witnesses(&self, elem_witnesses: &[(rug::Integer, Accumulator<G>)]) -> (r: Result<
        (G, rug::Integer),
        AccError,
    >)
        requires
            self.wf(),
            all_positive(ints_of(elem_witnesses@.map_values(|p: (rug::Integer, Accumulator<G>)| p.0))),
            forall|k: int| 0 <= k < elem_witnesses@.len() ==> (#[trigger] elem_witnesses@[k].1).wf(),
        ensures
            match r {
                Ok((root, x)) => {
                    &&& witnesses_consistent::<G>(self.state(), elem_witnesses@)
                    &&& elems_foldable(ints_of(elem_witnesses@.map_values(|p: (rug::Integer, Accumulator<G>)| p.0)))
                    &&& elem_wf(&root)
                    &&& int_of(x) == prod(ints_of(elem_witnesses@.map_values(|p: (rug::Integer, Accumulator<G>)| p.0)))
                    &&& int_of(x) >= 1
                    &&& pow(root.value(), int_of(x) as nat) % G::modulus() == self.state()
                    &&& elem_witnesses@.len() == 1 ==> root.value()
                        == elem_witnesses@[0].1.state()
                },
                Err(e) => match e {
                    AccError::BadWitness => !witnesses_consistent::<G>(self.state(), elem_witnesses@),
                    AccError::InputsNotCoprime => witnesses_consistent::<G>(self.state(), elem_witnesses@)
                        && !elems_foldable(ints_of(elem_witnesses@.map_values(|p: (rug::Integer, Accumulator<G>)| p.0))),
                },
            },
    {
        proof {
            G::lemma_parameters();
        }
        let ghost gelems = ints_of(elem_witnesses@.map_values(|p: (rug::Integer, Accumulator<G>)| p.0));
        let mut k: usize = 0;
        while k < elem_witnesses.len()
            invariant
                self.wf(),
                k <= elem_witnesses@.len(),
                forall|k2: int| 0 <= k2 < elem_witnesses@.len() ==> (#[trigger] elem_witnesses@[k2].1).wf(),
                all_positive(gelems),
                gelems == ints_of(elem_witnesses@.map_values(|p: (rug::Integer, Accumulator<G>)| p.0)),
                forall|j: int|
                    0 <= j < k ==> pow(#[trigger] elem_witnesses@[j].1.state(), int_of(
                        elem_witnesses@[j].0,
                    ) as nat) % G::modulus() == self.state(),
            decreases elem_witnesses@.len() - k,
        {
            proof {
                assert(elem_witnesses@.map_values(|p: (rug::Integer, Accumulator<G>)| p.0)[k as int]
                    == elem_witnesses@[k as int].0);
                assert(gelems[k as int] == int_of(elem_witnesses@[k as int].0));
            }
            let raised = G::exp(&elem_witnesses[k].1.value, &elem_witnesses[k].0);
            proof {
                assert(raised.value() == pow(
                    elem_witnesses@[k as int].1.state(),
                    int_of(elem_witnesses@[k as int].0) as nat,
                ) % G::modulus());
            }
            if !G::eq_elem(&raised, &self.value) {
                proof {
                    assert(!witnesses_consistent::<G>(self.state(), elem_witnesses@));
                }
                return Err(AccError::BadWitness);
            }
            k = k + 1;
        }
        let mut x = int_from_u64(1);
        let mut root = G::dup(&self.value);
        let one = int_from_u64(1);
        proof {
            assert(gelems.take(0) =~= Seq::<int>::empty());
            lemma_pow1(self.state());
            lemma_small_mod(self.state() as nat, G::modulus() as nat);
        }
        let mut k: usize = 0;
        while k < elem_witnesses.len()
            invariant
                self.wf(),
                k <= elem_witnesses@.len(),
                forall|k2: int| 0 <= k2 < elem_witnesses@.len() ==> (#[trigger] elem_witnesses@[k2].1).wf(),
                all_positive(gelems),
                gelems == ints_of(elem_witnesses@.map_values(|p: (rug::Integer, Accumulator<G>)| p.0)),
                int_of(one) == 1,
                witnesses_consistent::<G>(self.state(), elem_witnesses@),
                int_of(x) == prod(gelems.take(k as int)),
                int_of(x) >= 1,
                elem_wf(&root),
                pow(root.value(), int_of(x) as nat) % G::modulus() == self.state(),
                k == 0 ==> root.value() == self.state(),
                elem_witnesses@.len() == 1 && k == 1 ==> root.value()
                    == elem_witnesses@[0].1.state(),
                forall|j: int| 0 <= j < k ==> #[trigger] coprime(prod(gelems.take(j)), gelems[j]),
            decreases elem_witnesses@.len() - k,
        {
            proof {
                assert(elem_witnesses@.map_values(|p: (rug::Integer, Accumulator<G>)| p.0)[k as int]
                    == elem_witnesses@[k as int].0);
                assert(gelems[k as int] == int_of(elem_witnesses@[k as int].0));
            }
            let (g, s, t) = int_xgcd(&x, &elem_witnesses[k].0);
            proof {
                lemma_gcd_one_iff_coprime(
                    int_of(x),
                    int_of(elem_witnesses@[k as int].0),
                    int_of(g),
                    int_of(s),
                    int_of(t),
                );
            }
            if !int_eq(&g, &one) {
                return Err(AccError::InputsNotCoprime);
            }
            let r1 = G::exp(&root, &t);
            let r2 = G::exp(&elem_witnesses[k].1.value, &s);
            let combined = G::op(&r1, &r2);
            proof {
                G::lemma_parameters();
                let m = G::modulus();
                let xx = int_of(x);
                let pp = gelems[k as int];
                assert(pow(elem_witnesses@[k as int].1.state(), pp as nat) % m == self.state());
                assert(int_of(s) * xx + int_of(t) * pp == 1) by (nonlinear_arith)
                    requires
                        xx * int_of(s) + pp * int_of(t) == 1,
                ;
                lemma_root_combine(
                    m,
                    self.state(),
                    root.value(),
                    elem_witnesses@[k as int].1.state(),
                    xx,
                    pp,
                    int_of(s),
                    int_of(t),
                );
                lemma_prod_take_succ(gelems, k as int);
                assert(xx * pp >= 1) by (nonlinear_arith)
                    requires
                        xx >= 1,
                        pp >= 1,
                ;
                if k == 0 {
                    assert(int_of(s) * 1 + int_of(t) * pp == 1);
                    lemma_root_combine_unit(
                        m,
                        self.state(),
                        elem_witnesses@[0].1.state(),
                        pp,
                        int_of(s),
                        int_of(t),
                    );
                }
            }
            root = combined;
            x = int_mul(&x, &elem_witnesses[k].0);
            k = k + 1;
        }
        proof {
            assert(gelems.take(elem_witnesses@.len() as int) =~= gelems);
        }
        Ok((root, x))
    }

    /// Remove the listed elements: each pair supplies an element and the
    /// accumulator state that results from removing exactly that element.
    /// On success the returned accumulator, raised to the product of the
    /// removed elements, reproduces the current state. Fails with
    /// `BadWitness` if some witness is inconsistent with the current state,
    /// and with `InputsNotCoprime` if the elements cannot be folded.
    pub fn delete(&self, elem_witnesses: &[(rug::Integer, Accumulator<G>)]) -> (r: Result<
        Self,
        AccError,
    >)
        requires
            self.wf(),
            all_positive(ints_of(elem_witnesses@.map_values(|p: (rug::Integer, Accumulator<G>)| p.0))),
            forall|k: int| 0 <= k < elem_witnesses@.len() ==> (#[trigger] elem_witnesses@[k].1).wf(),
        ensures
            match r {
                Ok(a) => {
                    &&& witnesses_consistent::<G>(self.state(), elem_witnesses@)
                    &&& elems_foldable(ints_of(elem_witnesses@.map_values(|p: (rug::Integer, Accumulator<G>)| p.0)))
                    &&& a.wf()
                    &&& pow(a.state(), prod(ints_of(elem_witnesses@.map_values(|p: (rug::Integer, Accumulator<G>)| p.0))) as nat)
                        % G::modulus() == self.state()
                    &&& elem_witnesses@.len() == 1 ==> a.state() == elem_witnesses@[0].1.state()
                },
                Err(e) => match e {
                    AccError::BadWitness => !witnesses_consistent::<G>(self.state(), elem_witnesses@),
                    AccError::InputsNotCoprime => witnesses_consistent::<G>(self.state(), elem_witnesses@)
                        && !elems_foldable(ints_of(elem_witnesses@.map_values(|p: (rug::Integer, Accumulator<G>)| p.0))),
                },
            },
    {
        match self.combine_witnesses(elem_witnesses) {
            Ok((root, _x)) => Ok(Accumulator { value: root }),
            Err(e) => Err(e),
        }
    }

    /// Build a membership proof for the given elements against the current
    /// state: combine the witnesses into one root and attach a
    /// proof-of-exponentiation for raising it back. Fails exactly as
    /// `delete` does; the proof verifies whenever its challenge transcript
    /// admits a hash-to-prime image.
    pub fn prove_membership(&self, elem_witnesses: &[(rug::Integer, Accumulator<G>)]) -> (r:
        Result<MembershipProof<G>, AccError>)
        requires
            self.wf(),
            all_positive(ints_of(elem_witnesses@.map_values(|p: (rug::Integer, Accumulator<G>)| p.0))),
            forall|k: int| 0 <= k < elem_witnesses@.len() ==> (#[trigger] elem_witnesses@[k].1).wf(),
        ensures
            match r {
                Ok(p) => {
                    &&& witnesses_consistent::<G>(self.state(), elem_witnesses@)
                    &&& elems_foldable(ints_of(elem_witnesses@.map_values(|p: (rug::Integer, Accumulator<G>)| p.0)))
                    &&& p.wf()
                    &&& hash_found(
                        transcript_bytes(
                            p.witness_value(),
                            prod(ints_of(elem_witnesses@.map_values(|p2: (rug::Integer, Accumulator<G>)| p2.0))),
                            self.state(),
                        ),
                    ) ==> membership_checks::<G>(
                        self.state(),
                        ints_of(elem_witnesses@.map_values(|p2: (rug::Integer, Accumulator<G>)| p2.0)),
                        p,
                    )
                },
                Err(e) => match e {
                    AccError::BadWitness => !witnesses_consistent::<G>(self.state(), elem_witnesses@),
                    AccError::InputsNotCoprime => witnesses_consistent::<G>(self.state(), elem_witnesses@)
                        && !elems_foldable(ints_of(elem_witnesses@.map_values(|p: (rug::Integer, Accumulator<G>)| p.0))),
                },
            },
    {
        proof {
            G::lemma_parameters();
        }
        match self.combine_witnesses(elem_witnesses) {
            Ok((root, x)) => {
                let tb = poe_transcript::<G>(&root, &x, &self.value);
                match hash_to_prime(tb.as_slice()) {
                    Some(l) => {
                        let (q, _rem) = int_div_rem_euc(&x, &l);
                        proof {
                            lemma_div_pos_is_pos(int_of(x), int_of(l));
                        }
                        let quotient = G::exp(&root, &q);
                        proof {
                            lemma_poe_complete(G::modulus(), root.value(), int_of(x), int_of(l));
                        }
                        Ok(MembershipProof { witness: root, quotient })
                    },
                    None => {
                        let quotient = G::identity();
                        Ok(MembershipProof { witness: root, quotient })
                    },
                }
            },
            Err(e) => Err(e),
        }
    }

    /// Build a non-membership certificate for `elems` against the product of
    /// all accumulated primes `acc_set`: an extended-Euclidean relation
    /// between the two products. Succeeds exactly when the products are
    /// coprime, i.e. when no claimed-absent element was accumulated; when
    /// this accumulator really is the generator raised to the product of
    /// `acc_set`, the certificate verifies.
    pub fn prove_nonmembership(&self, acc_set: &[rug::Integer], elems: &[rug::Integer]) -> (r:
        Result<NonmembershipProof<G>, AccError>)
        requires
            self.wf(),
            all_positive(ints_of(acc_set@)),
            all_positive(ints_of(elems@)),
        ensures
            match r {
                Ok(p) => {
                    &&& coprime(prod(ints_of(acc_set@)), prod(ints_of(elems@)))
                    &&& p.wf()
                    &&& (self.state() == powm(G::generator_value(), prod(ints_of(acc_set@)), G::modulus())
                        ==> nonmembership_checks::<G>(self.state(), ints_of(elems@), p))
                },
                Err(e) => e matches AccError::InputsNotCoprime && !coprime(
                    prod(ints_of(acc_set@)),
                    prod(ints_of(elems@)),
                ),
            },
    {
        proof {
            G::lemma_parameters();
            lemma_prod_all_ge_one(ints_of(acc_set@));
            lemma_prod_all_ge_one(ints_of(elems@));
        }
        let s = prod_integers(acc_set);
        let y = prod_integers(elems);
        let (g, a, b) = int_xgcd(&y, &s);
        let one = int_from_u64(1);
        proof {
            lemma_gcd_one_iff_coprime(int_of(y), int_of(s), int_of(g), int_of(a), int_of(b));
            if int_of(g) == 1 {
                lemma_coprime_sym(int_of(y), int_of(s));
            } else {
                if coprime(int_of(s), int_of(y)) {
                    lemma_coprime_sym(int_of(s), int_of(y));
                }
            }
        }
        if !int_eq(&g, &one) {
            return Err(AccError::InputsNotCoprime);
        }
        let gen = G::generator();
        let d = G::exp(&gen, &a);
        proof {
            let m = G::modulus();
            let g0 = G::generator_value();
            let ss = prod(ints_of(acc_set@));
            let yy = prod(ints_of(elems@));
            let aa = int_of(a);
            let bb = int_of(b);
            if self.state() == powm(g0, ss, m) {
                lemma_powm_props(g0, ss, m);
                lemma_powm_mul_exp(g0, m, aa, yy);
                lemma_powm_mul_exp(g0, m, ss, bb);
                lemma_powm_add(g0, m, aa * yy, ss * bb);
                assert(aa * yy + ss * bb == 1) by (nonlinear_arith)
                    requires
                        yy * aa + ss * bb == 1,
                ;
                lemma_pow1(g0);
                lemma_small_mod(g0 as nat, m as nat);
            }
        }
        Ok(NonmembershipProof { d, b })
    }

    /// Check a non-membership certificate for a claimed-absent batch against
    /// this state. Returns false on any certificate that does not satisfy
    /// the verification equation; never fails.
    pub fn verify_nonmembership(&self, elems: &[rug::Integer], proof: &NonmembershipProof<G>) -> (r:
        bool)
        requires
            self.wf(),
            proof.wf(),
        ensures
            r == nonmembership_checks::<G>(self.state(), ints_of(elems@), *proof),
    {
        proof {
            G::lemma_parameters();
        }
        let y = prod_integers(elems);
        let left = G::exp(&proof.d, &y);
        let right = G::exp(&self.value, &proof.b);
        let combined = G::op(&left, &right);
        let gen = G::generator();
        G::eq_elem(&combined, &gen)
    }
}

/// Delete undoes add: from the empty accumulator, adding `p1` and `p2`
/// reaches the generator raised to `p1 * p2`, of which the accumulator
/// holding `p2` alone is a valid `p1`-witness; a one-element `delete` of
/// `p1` with that witness returns exactly that accumulator's state (its
/// contract pins the result to the witness), the same state `add` of `p2`
/// alone reaches from empty.
pub proof fn lemma_delete_undoes_add<G: UnknownOrderGroup>(p1: int, p2: int)
    requires
        p1 >= 1,
        p2 >= 1,
    ensures
        pow(powm(G::generator_value(), p2, G::modulus()), p1 as nat) % G::modulus() == powm(
            G::generator_value(),
            p1 * p2,
            G::modulus(),
        ),
        prod(seq![p1, p2]) == p1 * p2,
        prod(seq![p2]) == p2,
{
    G::lemma_parameters();
    let m = G::modulus();
    let g = G::generator_value();
    lemma_powm_props(g, p2, m);
    lemma_powm_mul_exp(g, m, p2, p1);
    assert(p2 * p1 == p1 * p2) by (nonlinear_arith);
    assert(seq![p1, p2].drop_last() =~= seq![p1]);
    assert(seq![p1].drop_last() =~= Seq::<int>::empty());
    assert(seq![p2].drop_last() =~= Seq::<int>::empty());
    assert(prod(Seq::<int>::empty()) == 1);
    assert(prod(seq![p1]) == prod(seq![p1].drop_last()) * p1);
    assert(prod(seq![p2]) == prod(seq![p2].drop_last()) * p2);
    assert(prod(seq![p1, p2]) == prod(seq![p1, p2].drop_last()) * p2);
}

/// Commutative batching: `add` sends a state `s` to `s` raised to the
/// batch's product modulo the group modulus, so folding a batch with
/// product `x` and then one with product `y` reaches the same state as
/// folding them in the other order.
pub proof fn lemma_batch_add_commutes(s: int, x: int, y: int, m: int)
    requires
        m >= 2,
        x >= 0,
        y >= 0,
    ensures
        powm(powm(s, x, m), y, m) == powm(powm(s, y, m), x, m),
{
    lemma_pow_mod_noop(pow(s, x as nat), y as nat, m);
    lemma_pow_multiplies(s, x as nat, y as nat);
    lemma_pow_mod_noop(pow(s, y as nat), x as nat, m);
    lemma_pow_multiplies(s, y as nat, x as nat);
    assert((x as nat) * (y as nat) == (y as nat) * (x as nat)) by (nonlinear_arith);
}

} // verus!
