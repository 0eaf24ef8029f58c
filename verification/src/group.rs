//! Group elements of the issuer's pairing-friendly curve, as canonical
//! compressed encodings.
//!
//! Only two group operations reach this library's logic: deriving a
//! generator from a domain-separation tag, and multiplying a point by a
//! scalar.  Both are deterministic functions of their byte inputs, so their
//! results are carried by uninterpreted names that the contracts share.

use ark_ec::CurveGroup;
use ark_serialize::CanonicalDeserialize;
use ark_serialize::CanonicalSerialize;
use vstd::prelude::*;

verus! {

use crate::scalar::Scalar;

/// The compressed encoding of the G1 generator that hash-to-curve derives
/// from a tag.
pub uninterp spec fn g1_tag_gen(tag: Seq<u8>) -> Seq<u8>;

/// The compressed encoding of the G2 generator that hash-to-curve derives
/// from a tag.
pub uninterp spec fn g2_tag_gen(tag: Seq<u8>) -> Seq<u8>;

/// The compressed encoding of a G1 point raised to a scalar.
pub uninterp spec fn g1_mul_of(p: Seq<u8>, k: int) -> Seq<u8>;

/// The compressed encoding of a G2 point raised to a scalar.
pub uninterp spec fn g2_mul_of(p: Seq<u8>, k: int) -> Seq<u8>;

/// Whether a 48-byte string is a valid compressed G1 encoding.
pub uninterp spec fn g1_ok(p: Seq<u8>) -> bool;

/// Whether a 96-byte string is a valid compressed G2 encoding.
pub uninterp spec fn g2_ok(p: Seq<u8>) -> bool;

/// A G1 point in canonical compressed encoding.
pub struct G1Elem {
    pub b: Vec<u8>,
}

/// A G2 point in canonical compressed encoding.
pub struct G2Elem {
    pub b: Vec<u8>,
}

impl G1Elem {
    pub open spec fn wf(&self) -> bool {
        self.b@.len() == 48 && g1_ok(self.b@)
    }

    /// A copy with the same encoding.
    pub fn duplicate(&self) -> (r: G1Elem)
        ensures
            r.b@ == self.b@,
    {
        G1Elem { b: crate::codec::copy_bytes(&self.b) }
    }
}

impl G2Elem {
    pub open spec fn wf(&self) -> bool {
        self.b@.len() == 96 && g2_ok(self.b@)
    }

    /// A copy with the same encoding.
    pub fn duplicate(&self) -> (r: G2Elem)
        ensures
            r.b@ == self.b@,
    {
        G2Elem { b: crate::codec::copy_bytes(&self.b) }
    }
}

/// Relies on `dock_crypto_utils::hashing_utils::affine_group_elem_from_try_and_incr`
/// over Blake2b-512: a deterministic function of the tag bytes alone.  The
/// try-and-increment loop terminates for every input met in practice.
#[verifier::external_body]
pub(crate) fn g1_from_tag(tag: &[u8]) -> (r: G1Elem)
    ensures
        r.wf(),
        r.b@ == g1_tag_gen(tag@),
{
    let p = dock_crypto_utils::hashing_utils::affine_group_elem_from_try_and_incr::<
        ark_bls12_381::G1Affine,
        blake2::Blake2b512,
    >(tag);
    let mut out: Vec<u8> = Vec::new();
    p.serialize_compressed(&mut out).unwrap();
    G1Elem { b: out }
}

/// Relies on `dock_crypto_utils::hashing_utils::affine_group_elem_from_try_and_incr`
/// over Blake2b-512, in G2; deterministic in the tag bytes alone.
#[verifier::external_body]
pub(crate) fn g2_from_tag(tag: &[u8]) -> (r: G2Elem)
    ensures
        r.wf(),
        g2_ok(r.b@),
        r.b@ == g2_tag_gen(tag@),
{
    let p = dock_crypto_utils::hashing_utils::affine_group_elem_from_try_and_incr::<
        ark_bls12_381::G2Affine,
        blake2::Blake2b512,
    >(tag);
    let mut out: Vec<u8> = Vec::new();
    p.serialize_compressed(&mut out).unwrap();
    G2Elem { b: out }
}

/// Relies on the curve library's scalar multiplication in G1 and canonical
/// compressed serialization: a deterministic function of the point bytes and
/// the scalar value.
#[verifier::external_body]
pub(crate) fn g1_mul(p: &G1Elem, s: &Scalar) -> (r: G1Elem)
    requires
        p.wf(),
        s.wf(),
    ensures
        r.wf(),
        r.b@ == g1_mul_of(p.b@, s.val()),
{
    let base = ark_bls12_381::G1Affine::deserialize_compressed(&p.b[..]).unwrap();
    let k = ark_bls12_381::Fr::deserialize_compressed(&s.b[..]).unwrap();
    let prod = (ark_bls12_381::G1Projective::from(base) * k).into_affine();
    let mut out: Vec<u8> = Vec::new();
    prod.serialize_compressed(&mut out).unwrap();
    G1Elem { b: out }
}

/// Relies on the curve library's scalar multiplication in G2 and canonical
/// compressed serialization; deterministic in the point bytes and the
/// scalar value.
#[verifier::external_body]
pub(crate) fn g2_mul(p: &G2Elem, s: &Scalar) -> (r: G2Elem)
    requires
        p.wf(),
        s.wf(),
    ensures
        r.wf(),
        r.b@ == g2_mul_of(p.b@, s.val()),
{
    let base = ark_bls12_381::G2Affine::deserialize_compressed(&p.b[..]).unwrap();
    let k = ark_bls12_381::Fr::deserialize_compressed(&s.b[..]).unwrap();
    let prod = (ark_bls12_381::G2Projective::from(base) * k).into_affine();
    let mut out: Vec<u8> = Vec::new();
    prod.serialize_compressed(&mut out).unwrap();
    G2Elem { b: out }
}

/// Relies on the curve library's canonical deserialization with full
/// validation: 48 bytes are accepted exactly when they encode a G1 point of
/// the right subgroup.
#[verifier::external_body]
pub(crate) fn g1_decode(bytes: &Vec<u8>) -> (r: Option<G1Elem>)
    requires
        bytes@.len() == 48,
    ensures
        (r is Some) == g1_ok(bytes@),
        r matches Some(p) ==> p.b@ == bytes@ && p.wf(),
{
    match ark_bls12_381::G1Affine::deserialize_compressed(&bytes[..]) {
        Ok(_) => Some(G1Elem { b: bytes.clone() }),
        Err(_) => None,
    }
}

} // verus!
