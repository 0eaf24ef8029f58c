//! The scalar field of the issuer's pairing-friendly curve.
//!
//! A scalar is carried as its canonical 32-byte little-endian encoding, the
//! same bytes the wire format uses, and its mathematical meaning is the
//! little-endian value, always below the group order.  Field arithmetic is
//! done by the curve library behind exact contracts stated over those values.

use ark_ff::Field;
use ark_ff::UniformRand;
use ark_serialize::CanonicalDeserialize;
use ark_serialize::CanonicalSerialize;
use vstd::prelude::*;

verus! {

use crate::codec::le_val;
use vstd::arithmetic::div_mod::lemma_mul_mod_noop_left;
use vstd::arithmetic::div_mod::lemma_mul_mod_noop_right;
use vstd::arithmetic::div_mod::lemma_small_mod;
use vstd::arithmetic::mul::lemma_mul_is_associative;
use vstd::arithmetic::mul::lemma_mul_is_commutative;

/// Order of the scalar field: the prime r of the BLS12-381 curve.
pub open spec fn fr_order() -> int {
    0x73eda753299d7d483339d80809a1d80553bda402fffe5bfeffffffff00000001int
}

/// A scalar field element in canonical little-endian encoding.
pub struct Scalar {
    pub b: Vec<u8>,
}

impl Scalar {
    /// Canonical form: exactly 32 bytes, value below the field order.
    pub open spec fn wf(&self) -> bool {
        self.b@.len() == 32 && le_val(self.b@) < fr_order()
    }

    /// The field element this encoding denotes.
    pub open spec fn val(&self) -> int {
        le_val(self.b@)
    }

    /// A copy with the same encoding.
    pub fn duplicate(&self) -> (r: Scalar)
        ensures
            r.b@ == self.b@,
    {
        Scalar { b: crate::codec::copy_bytes(&self.b) }
    }
}

/// The multiplicative inverse of `a` modulo `m`, where one exists.
pub open spec fn inv_mod(a: int, m: int) -> int {
    choose|x: int| 0 <= x < m && #[trigger] ((x * a) % m) == 1
}

/// An element has at most one inverse modulo any m > 1; only associativity
/// and commutativity of modular multiplication are needed.
pub proof fn lemma_mod_inverse_unique(a: int, x: int, y: int, m: int)
    requires
        m > 1,
        0 <= x < m,
        0 <= y < m,
        (x * a) % m == 1,
        (y * a) % m == 1,
    ensures
        x == y,
{
    assert(((x * a) * y) % m == y) by {
        lemma_mul_mod_noop_left(x * a, y, m);
        lemma_small_mod(y as nat, m as nat);
    }
    assert((x * (a * y)) % m == x) by {
        lemma_mul_mod_noop_right(x, a * y, m);
        lemma_mul_is_commutative(a, y);
        lemma_small_mod(x as nat, m as nat);
    }
    assert((x * a) * y == x * (a * y)) by {
        lemma_mul_is_associative(x, a, y);
    }
}

/// Whoever holds a witness may name the inverse: `inv_mod` equals it.
pub proof fn lemma_inv_mod_of_witness(a: int, x: int, m: int)
    requires
        m > 1,
        0 <= x < m,
        (x * a) % m == 1,
    ensures
        inv_mod(a, m) == x,
{
    assert(0 <= x < m && (x * a) % m == 1);
    let w = inv_mod(a, m);
    assert(0 <= w < m && (w * a) % m == 1);
    lemma_mod_inverse_unique(a, w, x, m);
}

/// Relies on the curve library's field sampling over the operating system's
/// random number generator; nothing is assumed of the value beyond
/// canonicity.
#[verifier::external_body]
pub(crate) fn fr_random() -> (r: Scalar)
    ensures
        r.wf(),
{
    let x = <ark_bls12_381::Fr as UniformRand>::rand(&mut ark_std::rand::rngs::OsRng);
    let mut out: Vec<u8> = Vec::new();
    x.serialize_compressed(&mut out).unwrap();
    Scalar { b: out }
}

/// Relies on the curve library's embedding of machine integers into the
/// field; a 64-bit value is far below the order, so it is kept exactly.
#[verifier::external_body]
pub(crate) fn fr_from_u64(n: u64) -> (r: Scalar)
    ensures
        r.wf(),
        r.val() == n,
{
    let x = ark_bls12_381::Fr::from(n);
    let mut out: Vec<u8> = Vec::new();
    x.serialize_compressed(&mut out).unwrap();
    Scalar { b: out }
}

/// Relies on the curve library's field addition: exact addition modulo the
/// order, re-encoded canonically.
#[verifier::external_body]
pub(crate) fn fr_add(a: &Scalar, b: &Scalar) -> (r: Scalar)
    requires
        a.wf(),
        b.wf(),
    ensures
        r.wf(),
        r.val() == (a.val() + b.val()) % fr_order(),
{
    let x = ark_bls12_381::Fr::deserialize_compressed(&a.b[..]).unwrap();
    let y = ark_bls12_381::Fr::deserialize_compressed(&b.b[..]).unwrap();
    let mut out: Vec<u8> = Vec::new();
    (x + y).serialize_compressed(&mut out).unwrap();
    Scalar { b: out }
}

/// Relies on the curve library's field subtraction: exact subtraction
/// modulo the order, re-encoded canonically.
#[verifier::external_body]
pub(crate) fn fr_sub(a: &Scalar, b: &Scalar) -> (r: Scalar)
    requires
        a.wf(),
        b.wf(),
    ensures
        r.wf(),
        r.val() == (a.val() - b.val()) % fr_order(),
{
    let x = ark_bls12_381::Fr::deserialize_compressed(&a.b[..]).unwrap();
    let y = ark_bls12_381::Fr::deserialize_compressed(&b.b[..]).unwrap();
    let mut out: Vec<u8> = Vec::new();
    (x - y).serialize_compressed(&mut out).unwrap();
    Scalar { b: out }
}

/// Relies on the curve library's field multiplication: exact multiplication
/// modulo the order, re-encoded canonically.
#[verifier::external_body]
pub(crate) fn fr_mul(a: &Scalar, b: &Scalar) -> (r: Scalar)
    requires
        a.wf(),
        b.wf(),
    ensures
        r.wf(),
        r.val() == (a.val() * b.val()) % fr_order(),
{
    let x = ark_bls12_381::Fr::deserialize_compressed(&a.b[..]).unwrap();
    let y = ark_bls12_381::Fr::deserialize_compressed(&b.b[..]).unwrap();
    let mut out: Vec<u8> = Vec::new();
    (x * y).serialize_compressed(&mut out).unwrap();
    Scalar { b: out }
}

/// Relies on the curve library's field inversion: defined exactly on the
/// non-zero elements, and the product with the argument is one.
#[verifier::external_body]
pub(crate) fn fr_inverse(a: &Scalar) -> (r: Option<Scalar>)
    requires
        a.wf(),
    ensures
        (r is Some) <==> a.val() != 0,
        r matches Some(s) ==> s.wf() && (s.val() * a.val()) % fr_order() == 1,
{
    let x = ark_bls12_381::Fr::deserialize_compressed(&a.b[..]).unwrap();
    match x.inverse() {
        None => None,
        Some(y) => {
            let mut out: Vec<u8> = Vec::new();
            y.serialize_compressed(&mut out).unwrap();
            Some(Scalar { b: out })
        },
    }
}

/// Relies on the curve library's canonical deserialization: a 32-byte
/// little-endian string is accepted exactly when its value is below the
/// order, and the canonical re-encoding returns the same bytes.
#[verifier::external_body]
pub(crate) fn fr_decode(bytes: &Vec<u8>) -> (r: Option<Scalar>)
    requires
        bytes@.len() == 32,
    ensures
        (r is Some) <==> le_val(bytes@) < fr_order(),
        r matches Some(s) ==> s.b@ == bytes@,
{
    match ark_bls12_381::Fr::deserialize_compressed(&bytes[..]) {
        Ok(_) => Some(Scalar { b: bytes.clone() }),
        Err(_) => None,
    }
}

/// Whether a scalar is the field's zero.
pub(crate) fn fr_is_zero(a: &Scalar) -> (r: bool)
    requires
        a.wf(),
    ensures
        r == (a.val() == 0),
{
    let mut i: usize = 0;
    let mut all_zero = true;
    while i < a.b.len()
        invariant
            0 <= i <= a.b@.len(),
            all_zero == (forall|j: int| 0 <= j < i ==> a.b@[j] == 0),
        decreases a.b@.len() - i,
    {
        if a.b[i] != 0 {
            all_zero = false;
        }
        i = i + 1;
    }
    proof {
        crate::codec::lemma_le_val_zero(a.b@);
    }
    all_zero
}

} // verus!
