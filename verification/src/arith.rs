//! Trusted boundary to the `rug` arbitrary-precision integer library.
//!
//! Every arbitrary-precision value in this crate is a `rug::Integer`; its
//! mathematical value is named by the uninterpreted spec function `int_of`.
//! Each wrapper below makes exactly one `rug` call and states, over `int_of`,
//! what that call's documentation promises.

use vstd::prelude::*;
use vstd::arithmetic::power::pow;
use crate::modular::{coprime, divides};
use crate::encoding::{be_bytes_of, be_val};

verus! {

#[verifier::external_type_specification]
#[verifier::external_body]
pub struct ExInteger(rug::Integer);

/// The mathematical integer held by a `rug::Integer`.
pub uninterp spec fn int_of(x: rug::Integer) -> int;

/// The verdict of GMP's primality test (trial division, a Baillie-PSW
/// probable-prime test, and Miller-Rabin rounds drawn from a freshly
/// default-seeded generator), which is a pure function of the candidate and
/// the repetition count for the GMP build the crate links against.
pub uninterp spec fn prime_test(n: int, reps: int) -> bool;

pub open spec fn ints_of(s: Seq<rug::Integer>) -> Seq<int> {
    s.map_values(|x: rug::Integer| int_of(x))
}

/// Relies on `rug::Integer::from` converting a `u64` exactly.
#[verifier::external_body]
pub(crate) fn int_from_u64(v: u64) -> (r: rug::Integer)
    ensures
        int_of(r) == v as int,
{
    rug::Integer::from(v)
}

/// Relies on `rug::Integer::clone` copying the value.
#[verifier::external_body]
pub(crate) fn int_dup(a: &rug::Integer) -> (r: rug::Integer)
    ensures
        int_of(r) == int_of(*a),
{
    a.clone()
}

/// Relies on `PartialEq` for `rug::Integer` comparing numeric values.
#[verifier::external_body]
pub(crate) fn int_eq(a: &rug::Integer, b: &rug::Integer) -> (r: bool)
    ensures
        r == (int_of(*a) == int_of(*b)),
{
    a == b
}

/// Relies on addition of `rug::Integer` values being exact.
#[verifier::external_body]
pub(crate) fn int_add(a: &rug::Integer, b: &rug::Integer) -> (r: rug::Integer)
    ensures
        int_of(r) == int_of(*a) + int_of(*b),
{
    rug::Integer::from(a + b)
}

/// Relies on multiplication of `rug::Integer` values being exact.
#[verifier::external_body]
pub(crate) fn int_mul(a: &rug::Integer, b: &rug::Integer) -> (r: rug::Integer)
    ensures
        int_of(r) == int_of(*a) * int_of(*b),
{
    rug::Integer::from(a * b)
}

/// Relies on `rug::Integer::div_rem_euc`: Euclidean division, so for a
/// positive divisor the remainder lies in `[0, divisor)`.
#[verifier::external_body]
pub(crate) fn int_div_rem_euc(a: &rug::Integer, d: &rug::Integer) -> (r: (rug::Integer, rug::Integer))
    requires
        int_of(*d) >= 1,
    ensures
        int_of(r.0) == int_of(*a) / int_of(*d),
        int_of(r.1) == int_of(*a) % int_of(*d),
{
    a.clone().div_rem_euc(d.clone())
}

/// Relies on `rug::Integer::pow_mod` (GMP `mpz_powm`): for a nonnegative
/// exponent it returns the least nonnegative residue of the power; for a
/// negative exponent it returns the corresponding power of the modular
/// inverse of the base when that inverse exists, and fails otherwise
/// (the base has an inverse modulo `m` exactly when it is coprime to `m`).
#[verifier::external_body]
pub(crate) fn int_pow_mod(base: &rug::Integer, e: &rug::Integer, m: &rug::Integer) -> (r: Option<
    rug::Integer,
>)
    requires
        int_of(*m) >= 2,
    ensures
        match r {
            Some(v) => {
                &&& 0 <= int_of(v) < int_of(*m)
                &&& int_of(*e) >= 0 ==> int_of(v) == pow(int_of(*base), int_of(*e) as nat) % int_of(
                    *m,
                )
                &&& int_of(*e) < 0 ==> (int_of(v) * pow(int_of(*base), (-int_of(*e)) as nat))
                    % int_of(*m) == 1int % int_of(*m)
            },
            None => int_of(*e) < 0 && !coprime(int_of(*base), int_of(*m)),
        },
{
    match base.clone().pow_mod(e, m) {
        Ok(v) => Some(v),
        Err(_) => None,
    }
}

/// Relies on `rug::Integer::cmp0` comparing the value against zero.
#[verifier::external_body]
pub(crate) fn int_is_nonneg(a: &rug::Integer) -> (r: bool)
    ensures
        r == (int_of(*a) >= 0),
{
    a.cmp0() != core::cmp::Ordering::Less
}

/// Relies on `rug::Integer::cmp0` comparing the value against zero.
#[verifier::external_body]
pub(crate) fn int_is_positive(a: &rug::Integer) -> (r: bool)
    ensures
        r == (int_of(*a) >= 1),
{
    a.cmp0() == core::cmp::Ordering::Greater
}

/// Relies on `rug::Integer::secure_pow_mod` (GMP `mpz_powm_sec`): the least
/// nonnegative residue of the power, computed so as to take the same time
/// and cache access patterns for same-sized arguments; its panicking inputs
/// (an exponent below one, an even modulus) are excluded by the requires.
#[verifier::external_body]
pub(crate) fn int_secure_pow_mod(base: &rug::Integer, e: &rug::Integer, m: &rug::Integer) -> (r:
    rug::Integer)
    requires
        int_of(*e) >= 1,
        int_of(*m) >= 2,
        int_of(*m) % 2 == 1,
    ensures
        0 <= int_of(r) < int_of(*m),
        int_of(r) == pow(int_of(*base), int_of(*e) as nat) % int_of(*m),
{
    base.clone().secure_pow_mod(e, m)
}

/// Relies on `rug::Integer::extended_gcd`: it returns the (nonnegative)
/// greatest common divisor `g` of `a` and `b` together with cofactors `s`,
/// `t` such that `a*s + b*t == g`; being the greatest common divisor, `g`
/// divides both inputs.
#[verifier::external_body]
pub(crate) fn int_xgcd(a: &rug::Integer, b: &rug::Integer) -> (r: (
    rug::Integer,
    rug::Integer,
    rug::Integer,
))
    ensures
        int_of(r.0) == int_of(*a) * int_of(r.1) + int_of(*b) * int_of(r.2),
        int_of(r.0) >= 0,
        divides(int_of(r.0), int_of(*a)),
        divides(int_of(r.0), int_of(*b)),
{
    a.clone().extended_gcd(b.clone(), rug::Integer::new())
}

/// Relies on `rug::Integer::is_probably_prime`, a pure function of the
/// candidate and the repetition count (see `prime_test`); for a nonnegative
/// candidate a passing verdict is only ever given for integers greater than
/// one. The requires exclude negative candidates (GMP tests the absolute
/// value, so a negated prime would also pass) and repetition counts that do
/// not fit the C `int` rug casts to.
#[verifier::external_body]
pub(crate) fn int_is_probably_prime(a: &rug::Integer, reps: u32) -> (r: bool)
    requires
        int_of(*a) >= 0,
        reps <= 0x7fffffff,
    ensures
        r == prime_test(int_of(*a), reps as int),
        r ==> int_of(*a) >= 2,
{
    !matches!(a.is_probably_prime(reps), rug::integer::IsPrime::No)
}

/// Relies on `rug::Integer::to_digits` with most-significant-first order:
/// it yields the base-256 digits of the absolute value, with no leading
/// zero digit and no digits at all for zero.
#[verifier::external_body]
pub(crate) fn int_to_bytes(a: &rug::Integer) -> (r: Vec<u8>)
    ensures
        r@ == be_bytes_of(
            if int_of(*a) >= 0 {
                int_of(*a)
            } else {
                -int_of(*a)
            },
        ),
{
    a.to_digits::<u8>(rug::integer::Order::Msf)
}

/// Relies on `rug::Integer::from_digits` with most-significant-first order:
/// it reads the slice as base-256 digits of a nonnegative integer.
#[verifier::external_body]
pub(crate) fn int_from_bytes(digits: &[u8]) -> (r: rug::Integer)
    ensures
        int_of(r) == be_val(digits@),
{
    rug::Integer::from_digits(digits, rug::integer::Order::Msf)
}

} // verus!
