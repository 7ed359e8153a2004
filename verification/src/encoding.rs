//! Byte encodings: big-endian digit strings for integers, and the framed
//! transcripts that bind a proof-of-exponentiation challenge to its
//! instance.
//!
//! The layout is a stable contract: a transcript is three fields, each an
//! eight-byte big-endian length followed by a sign byte (0 for nonnegative,
//! 1 for negative) and the minimal big-endian base-256 digits of the
//! absolute value.

use vstd::prelude::*;
use crate::arith::{int_of, int_to_bytes, int_is_nonneg};

verus! {

/// Value of a big-endian base-256 digit string.
pub open spec fn be_val(s: Seq<u8>) -> int
    decreases s.len(),
{
    if s.len() == 0 {
        0
    } else {
        be_val(s.drop_last()) * 256 + s.last()
    }
}

pub proof fn lemma_be_val_nonneg(s: Seq<u8>)
    ensures
        be_val(s) >= 0,
    decreases s.len(),
{
    if s.len() > 0 {
        lemma_be_val_nonneg(s.drop_last());
        assert(be_val(s.drop_last()) * 256 >= 0) by (nonlinear_arith)
            requires
                be_val(s.drop_last()) >= 0,
        ;
    }
}

/// Minimal big-endian base-256 digits of a nonnegative integer; empty for
/// zero and for negative arguments.
pub open spec fn be_bytes_of(n: int) -> Seq<u8>
    decreases n,
{
    if n <= 0 {
        Seq::empty()
    } else {
        be_bytes_of(n / 256).push((n % 256) as u8)
    }
}

/// Sign byte followed by the digits of the absolute value.
pub open spec fn int_bytes(v: int) -> Seq<u8> {
    seq![
        if v >= 0 {
            0u8
        } else {
            1u8
        },
    ] + be_bytes_of(
        if v >= 0 {
            v
        } else {
            -v
        },
    )
}

/// Eight-byte big-endian rendering of the low 64 bits of an integer.
pub open spec fn be8(n: int) -> Seq<u8> {
    seq![
        ((n / 0x100000000000000) % 256) as u8,
        ((n / 0x1000000000000) % 256) as u8,
        ((n / 0x10000000000) % 256) as u8,
        ((n / 0x100000000) % 256) as u8,
        ((n / 0x1000000) % 256) as u8,
        ((n / 0x10000) % 256) as u8,
        ((n / 0x100) % 256) as u8,
        (n % 256) as u8,
    ]
}

/// A length-prefixed transcript field.
pub open spec fn framed(s: Seq<u8>) -> Seq<u8> {
    be8(s.len() as int) + s
}

/// The byte string whose hash fixes the proof-of-exponentiation challenge
/// for the claim that `u` raised to `x` equals `w`.
pub open spec fn transcript_bytes(u: int, x: int, w: int) -> Seq<u8> {
    framed(int_bytes(u)) + framed(int_bytes(x)) + framed(int_bytes(w))
}

pub(crate) fn u64_be(x: u64) -> (r: Vec<u8>)
    ensures
        r@ == be8(x as int),
{
    let mut out: Vec<u8> = Vec::new();
    out.push(((x / 0x100000000000000) % 256) as u8);
    out.push(((x / 0x1000000000000) % 256) as u8);
    out.push(((x / 0x10000000000) % 256) as u8);
    out.push(((x / 0x100000000) % 256) as u8);
    out.push(((x / 0x1000000) % 256) as u8);
    out.push(((x / 0x10000) % 256) as u8);
    out.push(((x / 0x100) % 256) as u8);
    out.push((x % 256) as u8);
    proof {
        assert(out@ =~= be8(x as int));
    }
    out
}

pub(crate) fn append_slice(acc: Vec<u8>, s: &[u8]) -> (r: Vec<u8>)
    ensures
        r@ == acc@ + s@,
{
    let mut out = acc;
    let ghost base = out@;
    let mut i: usize = 0;
    while i < s.len()
        invariant
            i <= s@.len(),
            out@ == base + s@.take(i as int),
        decreases s@.len() - i,
    {
        let b = s[i];
        out.push(b);
        proof {
            assert(base + s@.take(i as int + 1) =~= (base + s@.take(i as int)).push(s@[i as int]));
        }
        i = i + 1;
    }
    proof {
        assert(s@.take(s@.len() as int) =~= s@);
    }
    out
}

/// Encode one integer as a sign byte and big-endian digits.
pub(crate) fn encode_int(a: &rug::Integer) -> (r: Vec<u8>)
    ensures
        r@ == int_bytes(int_of(*a)),
{
    let mut out: Vec<u8> = Vec::new();
    if int_is_nonneg(a) {
        out.push(0u8);
    } else {
        out.push(1u8);
    }
    let digits = int_to_bytes(a);
    let out = append_slice(out, digits.as_slice());
    proof {
        assert(out@ =~= int_bytes(int_of(*a)));
    }
    out
}

/// Append one length-prefixed field to a transcript under construction.
pub(crate) fn append_framed(acc: Vec<u8>, field: &Vec<u8>) -> (r: Vec<u8>)
    ensures
        r@ == acc@ + framed(field@),
{
    let len64: u64 = field.len() as u64;
    let prefix = u64_be(len64);
    let out = append_slice(acc, prefix.as_slice());
    let out = append_slice(out, field.as_slice());
    proof {
        assert(out@ =~= acc@ + framed(field@));
    }
    out
}

/// The transcript that binds the proof-of-exponentiation challenge for the
/// claim that `u` raised to `x` equals `w`.
pub(crate) fn transcript(u: &rug::Integer, x: &rug::Integer, w: &rug::Integer) -> (r: Vec<u8>)
    ensures
        r@ == transcript_bytes(int_of(*u), int_of(*x), int_of(*w)),
{
    let eu = encode_int(u);
    let ex = encode_int(x);
    let ew = encode_int(w);
    let out: Vec<u8> = Vec::new();
    let out = append_framed(out, &eu);
    let out = append_framed(out, &ex);
    let out = append_framed(out, &ew);
    proof {
        assert(out@ =~= transcript_bytes(int_of(*u), int_of(*x), int_of(*w)));
    }
    out
}

} // verus!
