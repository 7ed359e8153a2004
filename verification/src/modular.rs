//! Number theory for the accumulator: divisibility, Bezout coprimality,
//! products of element sequences, and modular exponentiation with signed
//! exponents (a negative exponent meaning a power of the modular inverse).

use vstd::prelude::*;
use vstd::arithmetic::power::{
    pow, lemma_pow0, lemma_pow1, lemma_pow_adds, lemma_pow_multiplies, lemma_pow_distributes,
    lemma_pow_mod_noop,
};
use vstd::arithmetic::div_mod::{
    lemma_fundamental_div_mod, lemma_mul_mod_noop_general, lemma_mod_multiples_vanish,
    lemma_small_mod, lemma_mod_bound,
};

verus! {

pub open spec fn divides(d: int, n: int) -> bool {
    exists|k: int| n == #[trigger] (d * k)
}

/// Two integers are coprime exactly when some integer combination of them
/// is one.
pub open spec fn coprime(a: int, b: int) -> bool {
    exists|u: int, v: int| #[trigger] (u * a) + #[trigger] (v * b) == 1
}

/// `v` is the canonical representative of the inverse of `x` modulo `m`.
pub open spec fn inverse_of(v: int, x: int, m: int) -> bool {
    &&& 0 <= v < m
    &&& (v * x) % m == 1int % m
}

/// Modular exponentiation with a signed exponent: for a negative exponent,
/// the corresponding power of the modular inverse of the base.
pub open spec fn powm(b: int, e: int, m: int) -> int {
    if e >= 0 {
        pow(b, e as nat) % m
    } else {
        choose|v: int| #[trigger] inverse_of(v, pow(b, (-e) as nat), m)
    }
}

pub proof fn lemma_coprime_one(m: int)
    ensures
        coprime(1, m),
{
    assert(1 * 1 + 0 * m == 1);
}

pub proof fn lemma_coprime_mul(a: int, b: int, m: int)
    requires
        coprime(a, m),
        coprime(b, m),
    ensures
        coprime(a * b, m),
{
    let (u1, v1) = choose|u: int, v: int| #[trigger] (u * a) + #[trigger] (v * m) == 1;
    let (u2, v2) = choose|u: int, v: int| #[trigger] (u * b) + #[trigger] (v * m) == 1;
    let uu = u1 * u2;
    let vv = v1 + v2 - v1 * v2 * m;
    assert((u1 * a) * (u2 * b) == (u1 * u2) * (a * b)) by (nonlinear_arith);
    assert((u1 * a) * (u2 * b) == (1 - v1 * m) * (1 - v2 * m));
    assert((1 - v1 * m) * (1 - v2 * m) == 1 - (v1 + v2 - v1 * v2 * m) * m) by (nonlinear_arith);
    assert(uu * (a * b) + vv * m == 1);
}

pub proof fn lemma_coprime_mod(a: int, m: int)
    requires
        m >= 1,
        coprime(a, m),
    ensures
        coprime(a % m, m),
{
    let (u, v) = choose|u: int, v: int| #[trigger] (u * a) + #[trigger] (v * m) == 1;
    lemma_fundamental_div_mod(a, m);
    let q = a / m;
    let r = a % m;
    assert(u * r + (v + u * q) * m == 1) by (nonlinear_arith)
        requires
            u * a + v * m == 1,
            a == q * m + r,
    ;
}

pub proof fn lemma_coprime_pow(b: int, k: nat, m: int)
    requires
        coprime(b, m),
    ensures
        coprime(pow(b, k), m),
    decreases k,
{
    reveal(pow);
    if k == 0 {
        lemma_coprime_one(m);
    } else {
        lemma_coprime_pow(b, (k - 1) as nat, m);
        lemma_coprime_mul(b, pow(b, (k - 1) as nat), m);
    }
}

pub proof fn lemma_inverse_exists(x: int, m: int)
    requires
        m >= 2,
        coprime(x, m),
    ensures
        exists|v: int| #[trigger] inverse_of(v, x, m),
{
    let (u, v) = choose|u: int, v: int| #[trigger] (u * x) + #[trigger] (v * m) == 1;
    lemma_fundamental_div_mod(u, m);
    let w = u % m;
    lemma_mod_bound(u, m);
    lemma_small_mod(1nat, m as nat);
    let c = -v - (u / m) * x;
    assert(w * x == 1 + m * c) by (nonlinear_arith)
        requires
            u * x + v * m == 1,
            w == u - m * (u / m),
            c == -v - (u / m) * x,
    ;
    lemma_mod_multiples_vanish(c, 1, m);
    assert(inverse_of(w, x, m));
}

pub proof fn lemma_inverse_unique(x: int, m: int, v1: int, v2: int)
    requires
        m >= 2,
        inverse_of(v1, x, m),
        inverse_of(v2, x, m),
    ensures
        v1 == v2,
{
    lemma_small_mod(1nat, m as nat);
    lemma_small_mod(v1 as nat, m as nat);
    lemma_small_mod(v2 as nat, m as nat);
    lemma_mul_mod_noop_general(v1, v2 * x, m);
    lemma_mul_mod_noop_general(v2, v1 * x, m);
    assert(v1 * (v2 * x) == v2 * (v1 * x)) by (nonlinear_arith);
    assert((v1 * ((v2 * x) % m)) % m == (v1 * (v2 * x)) % m);
    assert((v2 * ((v1 * x) % m)) % m == (v2 * (v1 * x)) % m);
    assert((v1 * 1) % m == v1);
    assert((v2 * 1) % m == v2);
}

/// The basic facts about `powm`: range, coprimality with the modulus, and
/// its characterization for either sign of the exponent.
pub proof fn lemma_powm_props(b: int, e: int, m: int)
    requires
        m >= 2,
        coprime(b, m),
    ensures
        0 <= powm(b, e, m) < m,
        coprime(powm(b, e, m), m),
        e >= 0 ==> powm(b, e, m) == pow(b, e as nat) % m,
        e < 0 ==> inverse_of(powm(b, e, m), pow(b, (-e) as nat), m),
{
    if e >= 0 {
        lemma_coprime_pow(b, e as nat, m);
        lemma_coprime_mod(pow(b, e as nat), m);
        lemma_mod_bound(pow(b, e as nat), m);
    } else {
        let p = pow(b, (-e) as nat);
        lemma_coprime_pow(b, (-e) as nat, m);
        lemma_inverse_exists(p, m);
        let v = powm(b, e, m);
        assert(inverse_of(v, p, m));
        lemma_fundamental_div_mod(v * p, m);
        let q = (v * p) / m;
        lemma_small_mod(1nat, m as nat);
        assert(p * v + (-q) * m == 1) by (nonlinear_arith)
            requires
                v * p == q * m + 1,
        ;
    }
}

pub proof fn lemma_powm_of_inverse(b: int, e: int, m: int, v: int)
    requires
        m >= 2,
        coprime(b, m),
        e < 0,
        inverse_of(v, pow(b, (-e) as nat), m),
    ensures
        v == powm(b, e, m),
{
    lemma_powm_props(b, e, m);
    lemma_inverse_unique(pow(b, (-e) as nat), m, v, powm(b, e, m));
}

/// Product of a sequence of integers; one for the empty sequence.
pub open spec fn prod(s: Seq<int>) -> int
    decreases s.len(),
{
    if s.len() == 0 {
        1
    } else {
        prod(s.drop_last()) * s.last()
    }
}

pub proof fn lemma_coprime_sym(a: int, b: int)
    requires
        coprime(a, b),
    ensures
        coprime(b, a),
{
    let (u, v) = choose|u: int, v: int| #[trigger] (u * a) + #[trigger] (v * b) == 1;
    assert(v * b + u * a == 1);
}

pub proof fn lemma_divides_one(d: int)
    requires
        d >= 0,
        divides(d, 1),
    ensures
        d == 1,
{
    let k = choose|k: int| 1 == #[trigger] (d * k);
    if d == 0 {
        assert(d * k == 0) by (nonlinear_arith)
            requires
                d == 0,
        ;
        assert(false);
    } else if d >= 2 {
        assert(d * k != 1) by (nonlinear_arith)
            requires
                d >= 2,
        ;
    }
}

/// A nonnegative common divisor of `a` and `b` that is an integer
/// combination of them is one exactly when `a` and `b` are coprime.
pub proof fn lemma_gcd_one_iff_coprime(a: int, b: int, g: int, s: int, t: int)
    requires
        g == a * s + b * t,
        g >= 0,
        divides(g, a),
        divides(g, b),
    ensures
        (g == 1) <==> coprime(a, b),
{
    if g == 1 {
        assert(s * a + t * b == 1) by (nonlinear_arith)
            requires
                a * s + b * t == 1,
        ;
    }
    if coprime(a, b) {
        let (u, v) = choose|u: int, v: int| #[trigger] (u * a) + #[trigger] (v * b) == 1;
        let ka = choose|k: int| a == #[trigger] (g * k);
        let kb = choose|k: int| b == #[trigger] (g * k);
        assert(1 == g * (u * ka + v * kb)) by (nonlinear_arith)
            requires
                a == g * ka,
                b == g * kb,
                u * a + v * b == 1,
        ;
        lemma_divides_one(g);
    }
}

/// A common divisor of two that is at least two rules Bezout combinations
/// out: the two cannot be coprime.
pub proof fn lemma_common_divisor_not_coprime(a: int, b: int, d: int)
    requires
        d >= 2,
        divides(d, a),
        divides(d, b),
    ensures
        !coprime(a, b),
{
    if coprime(a, b) {
        let (u, v) = choose|u: int, v: int| #[trigger] (u * a) + #[trigger] (v * b) == 1;
        let ka = choose|k: int| a == #[trigger] (d * k);
        let kb = choose|k: int| b == #[trigger] (d * k);
        assert(1 == d * (u * ka + v * kb)) by (nonlinear_arith)
            requires
                a == d * ka,
                b == d * kb,
                u * a + v * b == 1,
        ;
        lemma_divides_one(d);
    }
}

pub proof fn lemma_pow_one_base(e: nat)
    ensures
        pow(1, e) == 1,
    decreases e,
{
    reveal(pow);
    if e > 0 {
        lemma_pow_one_base((e - 1) as nat);
    }
}

/// Powers with signed exponents multiply by adding exponents.
pub proof fn lemma_powm_add(b: int, m: int, e1: int, e2: int)
    requires
        m >= 2,
        coprime(b, m),
    ensures
        (powm(b, e1, m) * powm(b, e2, m)) % m == powm(b, e1 + e2, m),
    decreases (if e1 < 0 && e2 >= 0 {
        1int
    } else {
        0int
    }),
{
    lemma_powm_props(b, e1, m);
    lemma_powm_props(b, e2, m);
    let w1 = powm(b, e1, m);
    let w2 = powm(b, e2, m);
    lemma_small_mod(1nat, m as nat);
    assert(1int % m == 1);
    if e1 >= 0 && e2 >= 0 {
        lemma_pow_adds(b, e1 as nat, e2 as nat);
        lemma_mul_mod_noop_general(pow(b, e1 as nat), pow(b, e2 as nat), m);
    } else if e1 < 0 && e2 < 0 {
        let p1 = pow(b, (-e1) as nat);
        let p2 = pow(b, (-e2) as nat);
        lemma_pow_adds(b, (-e1) as nat, (-e2) as nat);
        assert(pow(b, (-(e1 + e2)) as nat) == p1 * p2);
        lemma_mul_mod_noop_general(w1 * w2, p1 * p2, m);
        assert((w1 * w2) * (p1 * p2) == (w1 * p1) * (w2 * p2)) by (nonlinear_arith);
        lemma_mul_mod_noop_general(w1 * p1, w2 * p2, m);
        assert((w1 * p1) % m == 1);
        assert((w2 * p2) % m == 1);
        assert(((w1 * p1) * (w2 * p2)) % m == (1int * 1) % m);
        assert(((w1 * w2) % m) * (p1 * p2) % m == 1int % m);
        lemma_mod_bound(w1 * w2, m);
        lemma_powm_props(b, e1 + e2, m);
        lemma_inverse_unique(p1 * p2, m, (w1 * w2) % m, powm(b, e1 + e2, m));
    } else if e1 >= 0 && e2 < 0 {
        let d = e1 + e2;
        let p2 = pow(b, (-e2) as nat);
        if d >= 0 {
            let pe1 = pow(b, e1 as nat);
            let pd = pow(b, d as nat);
            lemma_pow_adds(b, d as nat, (-e2) as nat);
            assert(pe1 == pd * p2);
            lemma_mul_mod_noop_general(pe1, w2, m);
            assert((w1 * w2) % m == (pe1 * w2) % m);
            assert(pe1 * w2 == pd * (p2 * w2)) by (nonlinear_arith)
                requires
                    pe1 == pd * p2,
            ;
            lemma_mul_mod_noop_general(pd, p2 * w2, m);
            assert(p2 * w2 == w2 * p2) by (nonlinear_arith);
            assert((p2 * w2) % m == 1);
            assert((pd * (p2 * w2)) % m == (pd * ((p2 * w2) % m)) % m);
            assert(pd * 1 == pd);
            assert((w1 * w2) % m == pd % m);
        } else {
            let pd = pow(b, (-d) as nat);
            lemma_pow_adds(b, e1 as nat, (-d) as nat);
            assert(pow(b, e1 as nat) * pd == pow(b, (-e2) as nat));
            lemma_mul_mod_noop_general(w1 * w2, pd, m);
            assert(((w1 * w2) % m) * pd % m == ((w1 * w2) * pd) % m);
            lemma_mul_mod_noop_general(pow(b, e1 as nat), w2 * pd, m);
            assert((w1 * w2) * pd == w1 * (w2 * pd)) by (nonlinear_arith);
            assert(w1 == pow(b, e1 as nat) % m);
            assert((w1 * (w2 * pd)) % m == (pow(b, e1 as nat) * (w2 * pd)) % m);
            assert(pow(b, e1 as nat) * (w2 * pd) == w2 * (pow(b, e1 as nat) * pd)) by (nonlinear_arith);
            assert(w2 * (pow(b, e1 as nat) * pd) == w2 * p2);
            assert(((w1 * w2) % m) * pd % m == (w2 * p2) % m);
            lemma_mod_bound(w1 * w2, m);
            assert(inverse_of((w1 * w2) % m, pd, m));
            lemma_powm_props(b, d, m);
            lemma_inverse_unique(pd, m, (w1 * w2) % m, powm(b, d, m));
        }
    } else {
        lemma_powm_add(b, m, e2, e1);
        assert(w1 * w2 == w2 * w1) by (nonlinear_arith);
    }
}

/// Iterated signed exponentiation multiplies the exponents.
pub proof fn lemma_powm_mul_exp(b: int, m: int, e1: int, e2: int)
    requires
        m >= 2,
        coprime(b, m),
    ensures
        powm(powm(b, e1, m), e2, m) == powm(b, e1 * e2, m),
{
    lemma_powm_props(b, e1, m);
    let b1 = powm(b, e1, m);
    lemma_powm_props(b1, e2, m);
    lemma_powm_props(b, e1 * e2, m);
    lemma_small_mod(1nat, m as nat);
    assert(1int % m == 1);
    lemma_pow0(b);
    lemma_pow0(b1);
    if e2 == 0 {
        assert(e1 * e2 == 0) by (nonlinear_arith)
            requires
                e2 == 0,
        ;
    } else if e2 > 0 {
        if e1 >= 0 {
            lemma_pow_mod_noop(pow(b, e1 as nat), e2 as nat, m);
            lemma_pow_multiplies(b, e1 as nat, e2 as nat);
            assert(e1 * e2 >= 0) by (nonlinear_arith)
                requires
                    e1 >= 0,
                    e2 > 0,
            ;
            assert((e1 * e2) as nat == (e1 as nat) * (e2 as nat)) by (nonlinear_arith)
                requires
                    e1 >= 0,
                    e2 > 0,
            ;
        } else {
            let p1 = pow(b, (-e1) as nat);
            assert(e1 * e2 < 0) by (nonlinear_arith)
                requires
                    e1 < 0,
                    e2 > 0,
            ;
            assert((-(e1 * e2)) as nat == ((-e1) as nat) * (e2 as nat)) by (nonlinear_arith)
                requires
                    e1 < 0,
                    e2 > 0,
            ;
            lemma_pow_multiplies(b, (-e1) as nat, e2 as nat);
            assert(pow(b, (-(e1 * e2)) as nat) == pow(p1, e2 as nat));
            lemma_mul_mod_noop_general(pow(b1, e2 as nat), pow(p1, e2 as nat), m);
            lemma_pow_distributes(b1, p1, e2 as nat);
            lemma_pow_mod_noop(b1 * p1, e2 as nat, m);
            assert((b1 * p1) % m == 1);
            lemma_pow_one_base(e2 as nat);
            assert((pow(b1, e2 as nat) % m) * pow(p1, e2 as nat) % m == 1int % m);
            lemma_mod_bound(pow(b1, e2 as nat), m);
            assert(inverse_of(pow(b1, e2 as nat) % m, pow(b, (-(e1 * e2)) as nat), m));
            lemma_inverse_unique(
                pow(b, (-(e1 * e2)) as nat),
                m,
                pow(b1, e2 as nat) % m,
                powm(b, e1 * e2, m),
            );
        }
    } else {
        // e2 < 0: the left side is the inverse of pow(b1, -e2).
        let k = (-e2) as nat;
        let lhs = powm(b1, e2, m);
        if e1 == 0 {
            assert(b1 == 1int % m);
            assert(b1 == 1);
            lemma_pow_one_base(k);
            assert(pow(b1, k) == 1);
            assert(e1 * e2 == 0) by (nonlinear_arith)
                requires
                    e1 == 0,
            ;
            assert((lhs * 1) % m == 1int % m);
            lemma_small_mod(lhs as nat, m as nat);
            assert(lhs == 1);
        } else if e1 > 0 {
            assert(e1 * e2 < 0) by (nonlinear_arith)
                requires
                    e1 > 0,
                    e2 < 0,
            ;
            assert((-(e1 * e2)) as nat == (e1 as nat) * k) by (nonlinear_arith)
                requires
                    e1 > 0,
                    e2 < 0,
                    k == -e2,
            ;
            lemma_pow_multiplies(b, e1 as nat, k);
            lemma_pow_mod_noop(pow(b, e1 as nat), k, m);
            assert(pow(b1, k) % m == pow(b, (-(e1 * e2)) as nat) % m);
            lemma_mul_mod_noop_general(lhs, pow(b1, k), m);
            lemma_mul_mod_noop_general(lhs, pow(b, (-(e1 * e2)) as nat), m);
            assert((lhs * pow(b, (-(e1 * e2)) as nat)) % m == (lhs * pow(b1, k)) % m);
            assert(inverse_of(lhs, pow(b, (-(e1 * e2)) as nat), m));
            lemma_inverse_unique(pow(b, (-(e1 * e2)) as nat), m, lhs, powm(b, e1 * e2, m));
        } else {
            let p1 = pow(b, (-e1) as nat);
            assert(e1 * e2 > 0) by (nonlinear_arith)
                requires
                    e1 < 0,
                    e2 < 0,
            ;
            assert((e1 * e2) as nat == ((-e1) as nat) * k) by (nonlinear_arith)
                requires
                    e1 < 0,
                    e2 < 0,
                    k == -e2,
            ;
            let rhs = powm(b, e1 * e2, m);
            lemma_pow_multiplies(b, (-e1) as nat, k);
            assert(pow(b, (e1 * e2) as nat) == pow(p1, k));
            lemma_mul_mod_noop_general(pow(b, (e1 * e2) as nat), pow(b1, k), m);
            assert(rhs == pow(b, (e1 * e2) as nat) % m);
            assert((rhs * pow(b1, k)) % m == (pow(p1, k) * pow(b1, k)) % m);
            lemma_pow_distributes(p1, b1, k);
            lemma_pow_mod_noop(p1 * b1, k, m);
            assert((p1 * b1) % m == (b1 * p1) % m) by (nonlinear_arith);
            assert((p1 * b1) % m == 1);
            lemma_pow_one_base(k);
            assert((pow(p1, k) * pow(b1, k)) % m == 1int % m);
            assert(inverse_of(rhs, pow(b1, k), m));
            lemma_inverse_unique(pow(b1, k), m, lhs, rhs);
        }
    }
}

/// A power of a product modulo `m` splits into the product of powers.
pub proof fn lemma_pow_product_mod(x: int, y: int, k: nat, m: int)
    requires
        m >= 2,
    ensures
        pow((x * y) % m, k) % m == ((pow(x, k) % m) * (pow(y, k) % m)) % m,
{
    lemma_pow_mod_noop(x * y, k, m);
    lemma_pow_distributes(x, y, k);
    lemma_mul_mod_noop_general(pow(x, k), pow(y, k), m);
}

/// Combining an `x`-th root and a `p`-th root of `s` through a Bezout
/// relation for `x` and `p` yields an `x*p`-th root of `s`.
pub proof fn lemma_root_combine(m: int, s: int, r1: int, w1: int, x: int, p: int, u: int, v: int)
    requires
        m >= 2,
        coprime(r1, m),
        coprime(w1, m),
        x >= 1,
        p >= 1,
        u * x + v * p == 1,
        pow(r1, x as nat) % m == s,
        pow(w1, p as nat) % m == s,
    ensures
        pow((powm(r1, v, m) * powm(w1, u, m)) % m, (x * p) as nat) % m == s,
        coprime((powm(r1, v, m) * powm(w1, u, m)) % m, m),
{
    lemma_powm_props(r1, v, m);
    lemma_powm_props(w1, u, m);
    let aa = powm(r1, v, m);
    let bb = powm(w1, u, m);
    lemma_coprime_mul(aa, bb, m);
    lemma_coprime_mod(aa * bb, m);
    assert(x * p >= 1) by (nonlinear_arith)
        requires
            x >= 1,
            p >= 1,
    ;
    let k = (x * p) as nat;
    lemma_pow_product_mod(aa, bb, k, m);
    assert(pow(aa, k) % m == powm(aa, x * p, m));
    lemma_powm_mul_exp(r1, m, v, x * p);
    assert(v * (x * p) == x * (v * p)) by (nonlinear_arith);
    lemma_powm_mul_exp(r1, m, x, v * p);
    assert(powm(r1, x, m) == s);
    assert(powm(aa, x * p, m) == powm(s, v * p, m)) by {
        lemma_powm_mul_exp(r1, m, v, x * p);
    };
    assert(pow(bb, k) % m == powm(bb, x * p, m));
    lemma_powm_mul_exp(w1, m, u, x * p);
    assert(u * (x * p) == p * (u * x)) by (nonlinear_arith);
    lemma_powm_mul_exp(w1, m, p, u * x);
    assert(powm(w1, p, m) == s);
    lemma_coprime_pow(r1, x as nat, m);
    lemma_coprime_mod(pow(r1, x as nat), m);
    lemma_powm_add(s, m, v * p, u * x);
    assert(v * p + u * x == 1);
    lemma_pow1(s);
    assert(powm(s, 1, m) == s % m);
    lemma_mod_bound(pow(r1, x as nat), m);
    lemma_small_mod(s as nat, m as nat);
    assert(s % m == s);
}

/// Combining through a Bezout relation for one and `p` returns the `p`-th
/// root itself, whichever coefficients the relation uses: the one-element
/// witness combination is exact.
pub proof fn lemma_root_combine_unit(m: int, s0: int, w1: int, p: int, u: int, v: int)
    requires
        m >= 2,
        coprime(s0, m),
        coprime(w1, m),
        0 <= w1 < m,
        p >= 1,
        u * 1 + v * p == 1,
        pow(w1, p as nat) % m == s0,
    ensures
        (powm(s0, v, m) * powm(w1, u, m)) % m == w1,
{
    lemma_powm_props(s0, v, m);
    lemma_powm_props(w1, u, m);
    lemma_powm_props(s0, -v, m);
    // powm(w1, u) splits as powm(w1, 1) * powm(w1, -(v*p)) modulo m.
    lemma_powm_add(w1, m, 1, -(v * p));
    assert(1 + (-(v * p)) == u);
    // powm(w1, -(v*p)) is powm(s0, -v), since w1 to the p is s0.
    lemma_powm_mul_exp(w1, m, p, -v);
    assert(p * (-v) == -(v * p)) by (nonlinear_arith);
    assert(powm(w1, p, m) == pow(w1, p as nat) % m);
    lemma_small_mod(s0 as nat, m as nat);
    lemma_mod_bound(pow(w1, p as nat), m);
    assert(powm(w1, -(v * p), m) == powm(s0, -v, m));
    // assemble: powm(s0,v) * ((powm(w1,1) * powm(s0,-v)) % m) collapses.
    let a = powm(s0, v, m);
    let b = powm(w1, 1, m);
    let c = powm(s0, -v, m);
    assert((b * c) % m == powm(w1, u, m));
    lemma_mul_mod_noop_general(a, b * c, m);
    assert((a * ((b * c) % m)) % m == (a * (b * c)) % m);
    assert(a * (b * c) == (a * c) * b) by (nonlinear_arith);
    lemma_mul_mod_noop_general(a * c, b, m);
    lemma_powm_add(s0, m, v, -v);
    assert(v + (-v) == 0);
    lemma_pow0(s0);
    lemma_small_mod(1nat, m as nat);
    assert(powm(s0, 0, m) == 1);
    assert(((a * c) % m) * b % m == (1int * b) % m);
    lemma_pow1(w1);
    lemma_small_mod(w1 as nat, m as nat);
    assert(b == w1);
    assert((a * powm(w1, u, m)) % m == w1);
}

pub proof fn lemma_prod_all_ge_one(s: Seq<int>)
    requires
        forall|k: int| 0 <= k < s.len() ==> s[k] >= 1,
    ensures
        prod(s) >= 1,
    decreases s.len(),
{
    if s.len() > 0 {
        lemma_prod_all_ge_one(s.drop_last());
        assert(prod(s.drop_last()) * s.last() >= 1) by (nonlinear_arith)
            requires
                prod(s.drop_last()) >= 1,
                s.last() >= 1,
        ;
    }
}

pub proof fn lemma_prod_take_succ(s: Seq<int>, k: int)
    requires
        0 <= k < s.len(),
    ensures
        prod(s.take(k + 1)) == prod(s.take(k)) * s[k],
{
    assert(s.take(k + 1).drop_last() =~= s.take(k));
    assert(s.take(k + 1).last() == s[k]);
}

/// Every entry of a sequence divides the sequence's product.
pub proof fn lemma_divides_prod(s: Seq<int>, k: int)
    requires
        0 <= k < s.len(),
    ensures
        divides(s[k], prod(s)),
    decreases s.len(),
{
    if k == s.len() - 1 {
        assert(prod(s) == s[k] * prod(s.drop_last())) by (nonlinear_arith)
            requires
                prod(s) == prod(s.drop_last()) * s.last(),
                s.last() == s[k],
        ;
    } else {
        lemma_divides_prod(s.drop_last(), k);
        let j = choose|j: int| prod(s.drop_last()) == #[trigger] (s.drop_last()[k] * j);
        assert(s.drop_last()[k] == s[k]);
        assert(prod(s) == s[k] * (j * s.last())) by (nonlinear_arith)
            requires
                prod(s) == prod(s.drop_last()) * s.last(),
                prod(s.drop_last()) == s[k] * j,
        ;
    }
}

/// A batch that shares an entry of at least two with another batch has a
/// product that is not coprime to the other's: the shared entry divides
/// both products.
pub proof fn lemma_shared_entry_not_coprime(a: Seq<int>, b: Seq<int>, i: int, j: int)
    requires
        0 <= i < a.len(),
        0 <= j < b.len(),
        a[i] == b[j],
        a[i] >= 2,
    ensures
        !coprime(prod(a), prod(b)),
{
    lemma_divides_prod(a, i);
    lemma_divides_prod(b, j);
    lemma_common_divisor_not_coprime(prod(a), prod(b), a[i]);
}

} // verus!
