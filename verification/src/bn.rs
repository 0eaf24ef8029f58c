//! Field elements and group encodings of the proof system's curve, and the
//! pairing check itself.
//!
//! The verifying key, the public inputs and the proof all reduce to plain
//! byte encodings and integer values; the curve library's deterministic
//! operations behind them are carried by uninterpreted names.

use ark_bn254::{Bn254, Fq, Fq2, Fr, G1Affine, G1Projective, G2Affine, G2Projective};
use ark_ec::CurveGroup;
use ark_ff::PrimeField;
use ark_groth16::{prepare_verifying_key, Groth16, Proof, VerifyingKey};
use ark_serialize::CanonicalDeserialize;
use ark_serialize::CanonicalSerialize;
use vstd::prelude::*;

verus! {

use crate::codec::be_val;
use crate::codec::le_val;

/// Order of the proof curve's scalar field.
pub open spec fn fr254_order() -> int {
    0x30644e72e131a029b85045b68181585d2833e84879b9709143e1f593f0000001int
}

/// Order of the proof curve's base field.
pub open spec fn fq254_order() -> int {
    0x30644e72e131a029b85045b68181585d97816a916871ca8d3c208c16d87cfd47int
}

/// A scalar of the proof curve, in canonical 32-byte little-endian form.
pub struct FrBn {
    pub b: Vec<u8>,
}

impl FrBn {
    pub open spec fn wf(&self) -> bool {
        self.b@.len() == 32 && le_val(self.b@) < fr254_order()
    }

    pub open spec fn val(&self) -> int {
        le_val(self.b@)
    }

    pub fn duplicate(&self) -> (r: FrBn)
        ensures
            r.b@ == self.b@,
    {
        FrBn { b: crate::codec::copy_bytes(&self.b) }
    }
}

/// A base-field element of the proof curve, canonical 32-byte little-endian.
pub struct FqBn {
    pub b: Vec<u8>,
}

impl FqBn {
    pub open spec fn wf(&self) -> bool {
        self.b@.len() == 32 && le_val(self.b@) < fq254_order()
    }

    pub open spec fn val(&self) -> int {
        le_val(self.b@)
    }
}

/// Whether a 32-byte string is a valid compressed G1 encoding of the proof
/// curve.
pub uninterp spec fn g1bn_ok(p: Seq<u8>) -> bool;

/// Whether a 64-byte string is a valid compressed G2 encoding of the proof
/// curve.
pub uninterp spec fn g2bn_ok(p: Seq<u8>) -> bool;

/// Whether projective coordinates normalize to a point of the curve's prime
/// subgroup (the checks the curve library's checked constructor performs).
pub uninterp spec fn g1bn_proj_valid(x: int, y: int, z: int) -> bool;

/// The compressed encoding of the affine form of a projective G1 point.
pub uninterp spec fn g1bn_affine_of(x: int, y: int, z: int) -> Seq<u8>;

/// As `g1bn_proj_valid`, for G2, whose coordinates are pairs.
pub uninterp spec fn g2bn_proj_valid(
    x0: int,
    x1: int,
    y0: int,
    y1: int,
    z0: int,
    z1: int,
) -> bool;

/// The compressed encoding of the affine form of a projective G2 point.
pub uninterp spec fn g2bn_affine_of(
    x0: int,
    x1: int,
    y0: int,
    y1: int,
    z0: int,
    z1: int,
) -> Seq<u8>;

/// A G1 point of the proof curve, compressed.
pub struct BnG1 {
    pub b: Vec<u8>,
}

impl BnG1 {
    pub open spec fn wf(&self) -> bool {
        self.b@.len() == 32 && g1bn_ok(self.b@)
    }

    pub fn duplicate(&self) -> (r: BnG1)
        ensures
            r.b@ == self.b@,
    {
        BnG1 { b: crate::codec::copy_bytes(&self.b) }
    }
}

/// A G2 point of the proof curve, compressed.
pub struct BnG2 {
    pub b: Vec<u8>,
}

impl BnG2 {
    pub open spec fn wf(&self) -> bool {
        self.b@.len() == 64 && g2bn_ok(self.b@)
    }

    pub fn duplicate(&self) -> (r: BnG2)
        ensures
            r.b@ == self.b@,
    {
        BnG2 { b: crate::codec::copy_bytes(&self.b) }
    }
}

/// Relies on the curve library's `Fr::from_le_bytes_mod_order`: the
/// little-endian value reduced modulo the scalar field order.
#[verifier::external_body]
pub(crate) fn fr254_reduce_le(bytes: &Vec<u8>) -> (r: FrBn)
    ensures
        r.wf(),
        r.val() == le_val(bytes@) % fr254_order(),
{
    let x = Fr::from_le_bytes_mod_order(&bytes[..]);
    let mut out: Vec<u8> = Vec::new();
    x.serialize_compressed(&mut out).unwrap();
    FrBn { b: out }
}

/// Relies on the curve library's `Fr::from_be_bytes_mod_order`: the
/// big-endian value reduced modulo the scalar field order.
#[verifier::external_body]
pub(crate) fn fr254_reduce_be(bytes: &Vec<u8>) -> (r: FrBn)
    ensures
        r.wf(),
        r.val() == be_val(bytes@) % fr254_order(),
{
    let x = Fr::from_be_bytes_mod_order(&bytes[..]);
    let mut out: Vec<u8> = Vec::new();
    x.serialize_compressed(&mut out).unwrap();
    FrBn { b: out }
}

/// Relies on the curve library's `Fq::from_be_bytes_mod_order`: the
/// big-endian value reduced modulo the base field order.
#[verifier::external_body]
pub(crate) fn fq254_reduce_be(bytes: &Vec<u8>) -> (r: FqBn)
    ensures
        r.wf(),
        r.val() == be_val(bytes@) % fq254_order(),
{
    let x = Fq::from_be_bytes_mod_order(&bytes[..]);
    let mut out: Vec<u8> = Vec::new();
    x.serialize_compressed(&mut out).unwrap();
    FqBn { b: out }
}

/// Relies on `BigInteger256::try_from` and `Fq::from_bigint`: a big-endian
/// integer is accepted exactly when it is a canonical base-field
/// representative, and is kept exactly.
#[verifier::external_body]
pub(crate) fn fq254_canonical_be(bytes: &Vec<u8>) -> (r: Option<FqBn>)
    ensures
        (r is Some) <==> be_val(bytes@) < fq254_order(),
        r matches Some(q) ==> q.wf() && q.val() == be_val(bytes@),
{
    let n = num_bigint::BigUint::from_bytes_be(&bytes[..]);
    let x = Fq::from_bigint(ark_ff::BigInteger256::try_from(n).ok()?)?;
    let mut out: Vec<u8> = Vec::new();
    x.serialize_compressed(&mut out).unwrap();
    Some(FqBn { b: out })
}

/// Relies on the curve library's projective-to-affine normalization and the
/// on-curve and subgroup checks of its checked constructor; the result is a
/// function of the coordinate values alone.
#[verifier::external_body]
pub(crate) fn g1bn_from_proj(x: &FqBn, y: &FqBn, z: &FqBn) -> (r: Option<BnG1>)
    requires
        x.wf(),
        y.wf(),
        z.wf(),
    ensures
        (r is Some) == g1bn_proj_valid(x.val(), y.val(), z.val()),
        r matches Some(p) ==> p.wf() && g1bn_ok(p.b@) && p.b@ == g1bn_affine_of(
            x.val(),
            y.val(),
            z.val(),
        ),
{
    let xf = Fq::deserialize_compressed(&x.b[..]).unwrap();
    let yf = Fq::deserialize_compressed(&y.b[..]).unwrap();
    let zf = Fq::deserialize_compressed(&z.b[..]).unwrap();
    let p = G1Projective::new_unchecked(xf, yf, zf).into_affine();
    if !(p.is_on_curve() && p.is_in_correct_subgroup_assuming_on_curve()) {
        return None;
    }
    let mut out: Vec<u8> = Vec::new();
    p.serialize_compressed(&mut out).unwrap();
    Some(BnG1 { b: out })
}

/// As `g1bn_from_proj`, in G2.
#[verifier::external_body]
pub(crate) fn g2bn_from_proj(
    x0: &FqBn,
    x1: &FqBn,
    y0: &FqBn,
    y1: &FqBn,
    z0: &FqBn,
    z1: &FqBn,
) -> (r: Option<BnG2>)
    requires
        x0.wf(),
        x1.wf(),
        y0.wf(),
        y1.wf(),
        z0.wf(),
        z1.wf(),
    ensures
        (r is Some) == g2bn_proj_valid(x0.val(), x1.val(), y0.val(), y1.val(), z0.val(), z1.val()),
        r matches Some(p) ==> p.wf() && g2bn_ok(p.b@) && p.b@ == g2bn_affine_of(
            x0.val(),
            x1.val(),
            y0.val(),
            y1.val(),
            z0.val(),
            z1.val(),
        ),
{
    let fq2 = |a: &FqBn, b: &FqBn| {
        Fq2::new(
            Fq::deserialize_compressed(&a.b[..]).unwrap(),
            Fq::deserialize_compressed(&b.b[..]).unwrap(),
        )
    };
    let p = G2Projective::new_unchecked(fq2(x0, x1), fq2(y0, y1), fq2(z0, z1))
        .into_affine();
    if !(p.is_on_curve() && p.is_in_correct_subgroup_assuming_on_curve()) {
        return None;
    }
    let mut out: Vec<u8> = Vec::new();
    p.serialize_compressed(&mut out).unwrap();
    Some(BnG2 { b: out })
}

/// Whether a 128-byte string is a valid compressed proof encoding.
pub uninterp spec fn proof_comp_valid(s: Seq<u8>) -> bool;

/// The three compressed proof elements a valid compressed encoding carries.
pub uninterp spec fn proof_comp_points(s: Seq<u8>) -> (Seq<u8>, Seq<u8>, Seq<u8>);

/// Whether a 256-byte string is a valid uncompressed proof encoding.
pub uninterp spec fn proof_uncomp_valid(s: Seq<u8>) -> bool;

/// The three compressed proof elements a valid uncompressed encoding
/// carries.
pub uninterp spec fn proof_uncomp_points(s: Seq<u8>) -> (Seq<u8>, Seq<u8>, Seq<u8>);

/// The three proof elements: A and C in G1, B in G2.
pub struct ProofPoints {
    pub a: BnG1,
    pub b: BnG2,
    pub c: BnG1,
}

impl ProofPoints {
    pub open spec fn wf(&self) -> bool {
        self.a.wf() && self.b.wf() && self.c.wf()
    }
}

/// Relies on the proof system's `Proof::deserialize_compressed` with full
/// validation, then re-encodes each element canonically.
#[verifier::external_body]
pub(crate) fn proof_from_compressed(bytes: &Vec<u8>) -> (r: Option<ProofPoints>)
    requires
        bytes@.len() == 128,
    ensures
        (r is Some) == proof_comp_valid(bytes@),
        r matches Some(p) ==> p.wf() && (p.a.b@, p.b.b@, p.c.b@) == proof_comp_points(bytes@),
{
    let pr = match Proof::<Bn254>::deserialize_compressed(&bytes[..]) {
        Ok(pr) => pr,
        Err(_) => {
            return None;
        },
    };
    let mut a: Vec<u8> = Vec::new();
    pr.a.serialize_compressed(&mut a).unwrap();
    let mut b: Vec<u8> = Vec::new();
    pr.b.serialize_compressed(&mut b).unwrap();
    let mut c: Vec<u8> = Vec::new();
    pr.c.serialize_compressed(&mut c).unwrap();
    Some(ProofPoints { a: BnG1 { b: a }, b: BnG2 { b: b }, c: BnG1 { b: c } })
}

/// Relies on the proof system's `Proof::deserialize_uncompressed` with full
/// validation, then re-encodes each element canonically.
#[verifier::external_body]
pub(crate) fn proof_from_uncompressed(bytes: &Vec<u8>) -> (r: Option<ProofPoints>)
    requires
        bytes@.len() == 256,
    ensures
        (r is Some) == proof_uncomp_valid(bytes@),
        r matches Some(p) ==> p.wf() && (p.a.b@, p.b.b@, p.c.b@) == proof_uncomp_points(bytes@),
{
    let pr = match Proof::<Bn254>::deserialize_uncompressed(&bytes[..]) {
        Ok(pr) => pr,
        Err(_) => {
            return None;
        },
    };
    let mut a: Vec<u8> = Vec::new();
    pr.a.serialize_compressed(&mut a).unwrap();
    let mut b: Vec<u8> = Vec::new();
    pr.b.serialize_compressed(&mut b).unwrap();
    let mut c: Vec<u8> = Vec::new();
    pr.c.serialize_compressed(&mut c).unwrap();
    Some(ProofPoints { a: BnG1 { b: a }, b: BnG2 { b: b }, c: BnG1 { b: c } })
}

/// The 256-byte uncompressed encoding of a proof given by its compressed
/// elements.
pub uninterp spec fn proof_uncompressed_of(a: Seq<u8>, b: Seq<u8>, c: Seq<u8>) -> Seq<u8>;

/// Relies on the proof system's `Proof::serialize_uncompressed`; a function
/// of the three elements alone.  Serialization of valid elements inverts
/// under the validated uncompressed deserializer, element for element, so
/// the result is a valid encoding carrying exactly the three inputs.
#[verifier::external_body]
pub(crate) fn proof_to_uncompressed_bytes(p: &ProofPoints) -> (r: Vec<u8>)
    requires
        p.wf(),
    ensures
        r@ == proof_uncompressed_of(p.a.b@, p.b.b@, p.c.b@),
        r@.len() == 256,
        proof_uncomp_valid(r@),
        proof_uncomp_points(r@) == (p.a.b@, p.b.b@, p.c.b@),
{
    let d1 = |q: &BnG1| G1Affine::deserialize_compressed(&q.b[..]).unwrap();
    let pr = Proof::<Bn254> { a: d1(&p.a), b: G2Affine::deserialize_compressed(&p.b.b[..]).unwrap(), c: d1(&p.c) };
    let mut out: Vec<u8> = Vec::new();
    pr.serialize_uncompressed(&mut out).unwrap();
    out
}

/// The encodings of a list of G1 points.
pub open spec fn bn_g1_bytes(s: Seq<BnG1>) -> Seq<Seq<u8>> {
    s.map_values(|p: BnG1| p.b@)
}

/// The values of a list of scalars.
pub open spec fn frbn_vals(s: Seq<FrBn>) -> Seq<int> {
    s.map_values(|x: FrBn| x.val())
}

/// The proof system's verdict for a verifying key, public input vector and
/// proof: a deterministic function of those values alone.
pub uninterp spec fn groth16_accepts(
    alpha: Seq<u8>,
    beta: Seq<u8>,
    gamma: Seq<u8>,
    delta: Seq<u8>,
    ic: Seq<Seq<u8>>,
    inputs: Seq<int>,
    proof_a: Seq<u8>,
    proof_b: Seq<u8>,
    proof_c: Seq<u8>,
) -> bool;

/// Relies on `Groth16::verify_proof` over the prepared verifying key: it
/// errors exactly when the input count does not fit the key's coefficient
/// list, and otherwise returns the pairing equation's verdict.
#[verifier::external_body]
pub(crate) fn groth16_verify(
    alpha: &BnG1,
    beta: &BnG2,
    gamma: &BnG2,
    delta: &BnG2,
    ic: &Vec<BnG1>,
    inputs: &Vec<FrBn>,
    proof: &ProofPoints,
) -> (r: Option<bool>)
    requires
        alpha.wf(),
        beta.wf(),
        gamma.wf(),
        delta.wf(),
        forall|i: int| 0 <= i < ic@.len() ==> (#[trigger] ic@[i]).wf(),
        forall|i: int| 0 <= i < inputs@.len() ==> (#[trigger] inputs@[i]).wf(),
        proof.wf(),
    ensures
        (r is Some) == (inputs@.len() + 1 == ic@.len()),
        r matches Some(verdict) ==> verdict == groth16_accepts(
            alpha.b@,
            beta.b@,
            gamma.b@,
            delta.b@,
            bn_g1_bytes(ic@),
            frbn_vals(inputs@),
            proof.a.b@,
            proof.b.b@,
            proof.c.b@,
        ),
{
    let f = |p: &BnG1| G1Affine::deserialize_compressed(&*p.b).unwrap();
    let g = |p: &BnG2| G2Affine::deserialize_compressed(&*p.b).unwrap();
    let vk = VerifyingKey { alpha_g1: f(alpha), beta_g2: g(beta), gamma_g2: g(gamma), delta_g2: g(delta), gamma_abc_g1: ic.iter().map(&f).collect() };
    let xs: Vec<Fr> = inputs.iter().map(|x| Fr::deserialize_compressed(&*x.b).unwrap()).collect();
    Groth16::<Bn254>::verify_proof(&prepare_verifying_key(&vk), &Proof { a: f(&proof.a), b: g(&proof.b), c: f(&proof.c) }, &xs).ok()
}

} // verus!
