//! The proof verifier: verifying-key parsing, signing-key selection,
//! public-input assembly, and the verdict.
//!
//! The public-input vector has a fixed contract: the subject scalar first,
//! then the modulus limbs least significant first, then the subject scalar
//! again.  This ordering is part of the circuit and is pinned by the
//! contracts here; permuting it would verify proofs against the wrong
//! statement.

use vstd::prelude::*;

verus! {

use crate::bn::bn_g1_bytes;
use crate::bn::fq254_order;
use crate::bn::fr254_order;
use crate::bn::frbn_vals;
use crate::bn::g1bn_affine_of;
use crate::bn::g1bn_proj_valid;
use crate::bn::g2bn_affine_of;
use crate::bn::g2bn_proj_valid;
use crate::bn::groth16_accepts;
use crate::bn::BnG1;
use crate::bn::BnG2;
use crate::bn::FqBn;
use crate::bn::FrBn;
use crate::codec::b64url_bytes;
use crate::codec::b64url_decodable;
use crate::codec::be_val;
use crate::codec::dec_val;
use crate::codec::dec_valid;
use crate::codec::digits_val;
use crate::codec::le_val;
use crate::modulus::limb_bits;
use crate::modulus::limbs_ints;
use crate::proofenc::proof_wire_decodes;
use crate::proofenc::proof_wire_points;
use crate::proofenc::ProofDecodeError;
use vstd::arithmetic::power::pow;
use vstd::arithmetic::power2::pow2;

/// One signing key of the identity provider: the key identifier and the
/// base64url-encoded big-endian RSA modulus.
pub struct Jwk {
    pub kid: Vec<u8>,
    pub n: String,
}

impl Jwk {
    pub fn duplicate(&self) -> (r: Jwk)
        ensures
            r.kid@ == self.kid@,
            r.n@ == self.n@,
    {
        Jwk {
            kid: crate::codec::copy_bytes(&self.kid),
            n: copy_string(&self.n),
        }
    }
}

/// Copy a string.
pub(crate) fn copy_string(s: &String) -> (r: String)
    ensures
        r@ == s@,
{
    <String as vstd::string::StringExecFns>::from_str(s.as_str())
}

/// The first key whose identifier matches, as the provider's directory is
/// searched in order.
pub open spec fn find_key(keys: Seq<Jwk>, kid: Seq<u8>) -> Option<Jwk>
    decreases keys.len(),
{
    if keys.len() == 0 {
        Option::None
    } else if keys[0].kid@ == kid {
        Option::Some(keys[0])
    } else {
        find_key(keys.skip(1), kid)
    }
}

/// Whether two byte strings are equal.
pub(crate) fn bytes_eq(a: &[u8], b: &[u8]) -> (r: bool)
    ensures
        r == (a@ == b@),
{
    if a.len() != b.len() {
        proof {
            assert(a@ != b@);
        }
        return false;
    }
    let mut i: usize = 0;
    while i < a.len()
        invariant
            a@.len() == b@.len(),
            0 <= i <= a@.len(),
            forall|k: int| 0 <= k < i ==> a@[k] == b@[k],
        decreases a@.len() - i,
    {
        if a[i] != b[i] {
            return false;
        }
        i = i + 1;
    }
    proof {
        assert(a@ =~= b@);
    }
    true
}

/// Select the signing key the request names.
pub fn select_signing_key(keys: &Vec<Jwk>, kid: &[u8]) -> (r: Option<Jwk>)
    ensures
        r matches Some(k) ==> (find_key(keys@, kid@) matches Some(f) && k.kid@ == f.kid@ && k.n@
            == f.n@),
        (r is Some) == (find_key(keys@, kid@) is Some),
{
    let mut i: usize = 0;
    proof {
        assert(keys@.skip(0) =~= keys@);
    }
    while i < keys.len()
        invariant
            0 <= i <= keys@.len(),
            find_key(keys@, kid@) == find_key(keys@.skip(i as int), kid@),
            forall|k: int| 0 <= k < i ==> (#[trigger] keys@[k]).kid@ != kid@,
        decreases keys@.len() - i,
    {
        proof {
            assert(keys@.skip(i as int)[0] == keys@[i as int]);
            assert(keys@.skip(i as int).skip(1) =~= keys@.skip(i + 1));
        }
        if bytes_eq(keys[i].kid.as_slice(), kid) {
            return Some(keys[i].duplicate());
        }
        i = i + 1;
    }
    proof {
        assert(keys@.skip(keys@.len() as int) =~= Seq::<Jwk>::empty());
    }
    None
}

// ------------------------------------------------------------------
// Verifying-key parsing.
// ------------------------------------------------------------------

/// Errors while parsing the embedded verifying-key document; all are fatal
/// at startup.
#[derive(Debug)]
pub enum VkParseError {
    MalformedDocument,
    MalformedCoordinate,
    InvalidPoint,
}

/// The byte strings a list of byte vectors holds.
pub open spec fn rows_view(s: Seq<Vec<u8>>) -> Seq<Seq<u8>> {
    s.map_values(|v: Vec<u8>| v@)
}

/// The byte strings a grid of byte vectors holds, row by row.
pub open spec fn grid_view(s: Seq<Vec<Vec<u8>>>) -> Seq<Seq<Seq<u8>>> {
    s.map_values(|v: Vec<Vec<u8>>| rows_view(v@))
}

/// What the document's named field holds when it is an array of strings:
/// a deterministic function of the document bytes and the key.
pub uninterp spec fn vk_doc_list(doc: Seq<u8>, key: Seq<char>) -> Option<Seq<Seq<u8>>>;

/// What the document's named field holds when it is an array of string
/// arrays; deterministic in the document bytes and the key.
pub uninterp spec fn vk_doc_rows(doc: Seq<u8>, key: Seq<char>) -> Option<Seq<Seq<Seq<u8>>>>;

/// Relies on `serde_json::from_slice` and the value accessors: pulls one
/// named array of strings out of the document, converting only; the parse
/// is a function of the document bytes and the key alone.
#[verifier::external_body]
fn json_coord_list(bytes: &[u8], key: &str) -> (r: Option<Vec<Vec<u8>>>)
    ensures
        (r is Some) == (vk_doc_list(bytes@, key@) is Some),
        r matches Some(v) ==> rows_view(v@) == vk_doc_list(bytes@, key@).unwrap(),
{
    let v: serde_json::Value = serde_json::from_slice(bytes).ok()?;
    v.get(key)?.as_array()?.iter().map(|x| Some(x.as_str()?.as_bytes().to_vec())).collect()
}

/// Relies on `serde_json::from_slice` and the value accessors: pulls one
/// named array of arrays of strings out of the document, converting only;
/// deterministic in the document bytes and the key alone.
#[verifier::external_body]
fn json_coord_rows(bytes: &[u8], key: &str) -> (r: Option<Vec<Vec<Vec<u8>>>>)
    ensures
        (r is Some) == (vk_doc_rows(bytes@, key@) is Some),
        r matches Some(v) ==> grid_view(v@) == vk_doc_rows(bytes@, key@).unwrap(),
{
    let v: serde_json::Value = serde_json::from_slice(bytes).ok()?;
    v.get(key)?.as_array()?.iter().map(
        |r| r.as_array()?.iter().map(|x| Some(x.as_str()?.as_bytes().to_vec())).collect(),
    ).collect()
}

/// Parse a decimal coordinate that must already be a canonical base-field
/// representative; reduction is not applied here.
pub fn fq_from_dec(s: &[u8]) -> (r: Result<FqBn, VkParseError>)
    ensures
        (r is Ok) == (dec_valid(s@) && dec_val(s@) < fq254_order()),
        r matches Ok(q) ==> q.wf() && q.val() == dec_val(s@),
        r matches Err(e) ==> e is MalformedCoordinate,
{
    let digits = crate::proofenc::slice_suffix(s, 0);
    proof {
        assert(s@.skip(0) =~= s@);
    }
    if !crate::proofenc::all_dec_digits(&digits) {
        return Err(VkParseError::MalformedCoordinate);
    }
    let be = crate::codec::dec_to_be_bytes(digits.as_slice());
    match crate::bn::fq254_canonical_be(&be) {
        Some(q) => Ok(q),
        None => Err(VkParseError::MalformedCoordinate),
    }
}

/// Whether three decimal strings are canonical coordinates of a valid G1
/// point.
pub open spec fn vk_g1_ok(c: Seq<Seq<u8>>) -> bool {
    &&& c.len() == 3
    &&& forall|i: int| 0 <= i < 3 ==> dec_valid(#[trigger] c[i]) && dec_val(c[i]) < fq254_order()
    &&& g1bn_proj_valid(dec_val(c[0]), dec_val(c[1]), dec_val(c[2]))
}

/// The point three such strings denote.
pub open spec fn vk_g1_point(c: Seq<Seq<u8>>) -> Seq<u8> {
    g1bn_affine_of(dec_val(c[0]), dec_val(c[1]), dec_val(c[2]))
}

/// Build a G1 point from a coordinate triple of the document.
pub fn json_to_g1(c: &Vec<Vec<u8>>) -> (r: Result<BnG1, VkParseError>)
    ensures
        (r is Ok) == vk_g1_ok(rows_view(c@)),
        r matches Ok(p) ==> p.wf() && p.b@ == vk_g1_point(rows_view(c@)),
{
    proof {
        assert(forall|i: int| 0 <= i < c@.len() ==> rows_view(c@)[i] == (#[trigger] c@[i])@);
    }
    if c.len() != 3 {
        return Err(VkParseError::MalformedDocument);
    }
    let x = fq_from_dec(c[0].as_slice())?;
    let y = fq_from_dec(c[1].as_slice())?;
    let z = fq_from_dec(c[2].as_slice())?;
    match crate::bn::g1bn_from_proj(&x, &y, &z) {
        Some(p) => Ok(p),
        None => Err(VkParseError::InvalidPoint),
    }
}

/// Whether three pairs of decimal strings are canonical coordinates of a
/// valid G2 point.
pub open spec fn vk_g2_ok(c: Seq<Seq<Seq<u8>>>) -> bool {
    &&& c.len() == 3
    &&& forall|i: int| 0 <= i < 3 ==> (#[trigger] c[i]).len() == 2
    &&& forall|i: int, j: int|
        0 <= i < 3 && 0 <= j < 2 ==> dec_valid(#[trigger] c[i][j]) && dec_val(c[i][j])
            < fq254_order()
    &&& g2bn_proj_valid(
        dec_val(c[0][0]),
        dec_val(c[0][1]),
        dec_val(c[1][0]),
        dec_val(c[1][1]),
        dec_val(c[2][0]),
        dec_val(c[2][1]),
    )
}

/// The point three such pairs denote.
pub open spec fn vk_g2_point(c: Seq<Seq<Seq<u8>>>) -> Seq<u8> {
    g2bn_affine_of(
        dec_val(c[0][0]),
        dec_val(c[0][1]),
        dec_val(c[1][0]),
        dec_val(c[1][1]),
        dec_val(c[2][0]),
        dec_val(c[2][1]),
    )
}

/// Build a G2 point from a coordinate-pair triple of the document.
pub fn json_to_g2(c: &Vec<Vec<Vec<u8>>>) -> (r: Result<BnG2, VkParseError>)
    ensures
        (r is Ok) == vk_g2_ok(grid_view(c@)),
        r matches Ok(p) ==> p.wf() && p.b@ == vk_g2_point(grid_view(c@)),
{
    proof {
        assert(forall|i: int|
            0 <= i < c@.len() ==> grid_view(c@)[i] == rows_view((#[trigger] c@[i])@));
        assert(forall|i: int, j: int|
            0 <= i < c@.len() && 0 <= j < c@[i]@.len() ==> rows_view(c@[i]@)[j] == (#[trigger] c@[
            i]@[j])@);
    }
    if c.len() != 3 {
        return Err(VkParseError::MalformedDocument);
    }
    if !(c[0].len() == 2 && c[1].len() == 2 && c[2].len() == 2) {
        return Err(VkParseError::MalformedDocument);
    }
    let x0 = fq_from_dec(c[0][0].as_slice())?;
    let x1 = fq_from_dec(c[0][1].as_slice())?;
    let y0 = fq_from_dec(c[1][0].as_slice())?;
    let y1 = fq_from_dec(c[1][1].as_slice())?;
    let z0 = fq_from_dec(c[2][0].as_slice())?;
    let z1 = fq_from_dec(c[2][1].as_slice())?;
    match crate::bn::g2bn_from_proj(&x0, &x1, &y0, &y1, &z0, &z1) {
        Some(p) => Ok(p),
        None => Err(VkParseError::InvalidPoint),
    }
}

/// Build every coefficient point of the document's list.
pub fn json_to_g1_vec(list: &Vec<Vec<Vec<u8>>>) -> (r: Result<Vec<BnG1>, VkParseError>)
    ensures
        (r is Ok) == (forall|i: int|
            0 <= i < list@.len() ==> vk_g1_ok(#[trigger] grid_view(list@)[i])),
        r matches Ok(v) ==> v@.len() == list@.len() && (forall|i: int|
            0 <= i < list@.len() ==> (#[trigger] v@[i]).wf() && v@[i].b@ == vk_g1_point(
                grid_view(list@)[i],
            )),
{
    proof {
        assert(forall|i: int|
            0 <= i < list@.len() ==> grid_view(list@)[i] == rows_view((#[trigger] list@[i])@));
    }
    let mut out: Vec<BnG1> = Vec::new();
    let mut i: usize = 0;
    while i < list.len()
        invariant
            0 <= i <= list@.len(),
            out@.len() == i,
            forall|k: int| 0 <= k < i ==> vk_g1_ok(#[trigger] grid_view(list@)[k]),
            forall|k: int|
                0 <= k < i ==> (#[trigger] out@[k]).wf() && out@[k].b@ == vk_g1_point(
                    grid_view(list@)[k],
                ),
        decreases list@.len() - i,
    {
        proof {
            assert(grid_view(list@)[i as int] == rows_view(list@[i as int]@));
        }
        let p = json_to_g1(&list[i])?;
        out.push(p);
        i = i + 1;
    }
    Ok(out)
}

/// The parsed verifying key: four fixed group elements and the coefficient
/// list sized to the circuit's public-input count.
pub struct VerifierKey {
    pub alpha_g1: BnG1,
    pub beta_g2: BnG2,
    pub gamma_g2: BnG2,
    pub delta_g2: BnG2,
    pub gamma_abc_g1: Vec<BnG1>,
}

impl VerifierKey {
    pub open spec fn wf(&self) -> bool {
        &&& self.alpha_g1.wf()
        &&& self.beta_g2.wf()
        &&& self.gamma_g2.wf()
        &&& self.delta_g2.wf()
        &&& forall|i: int|
            0 <= i < self.gamma_abc_g1@.len() ==> (#[trigger] self.gamma_abc_g1@[i]).wf()
    }
}

/// The verifier: the verifying key, parsed once at startup and read-only
/// thereafter.
pub struct Verifier {
    pub vk: VerifierKey,
}

/// Whether a verifying-key document is well-formed: each of its five named
/// fields is present with the right shape, every coordinate is a canonical
/// decimal representative, and every element lies on the curve.
pub open spec fn vk_doc_ok(doc: Seq<u8>) -> bool {
    &&& vk_doc_list(doc, "vk_alpha_1"@) is Some
    &&& vk_doc_rows(doc, "vk_beta_2"@) is Some
    &&& vk_doc_rows(doc, "vk_gamma_2"@) is Some
    &&& vk_doc_rows(doc, "vk_delta_2"@) is Some
    &&& vk_doc_rows(doc, "IC"@) is Some
    &&& vk_g1_ok(vk_doc_list(doc, "vk_alpha_1"@).unwrap())
    &&& vk_g2_ok(vk_doc_rows(doc, "vk_beta_2"@).unwrap())
    &&& vk_g2_ok(vk_doc_rows(doc, "vk_gamma_2"@).unwrap())
    &&& vk_g2_ok(vk_doc_rows(doc, "vk_delta_2"@).unwrap())
    &&& forall|i: int|
        0 <= i < vk_doc_rows(doc, "IC"@).unwrap().len() ==> vk_g1_ok(
            #[trigger] vk_doc_rows(doc, "IC"@).unwrap()[i],
        )
}

/// The parsed key equals the document: each stored element is the point the
/// corresponding field denotes, and the coefficient list keeps the order
/// and length of the document's list.
pub open spec fn vk_matches_doc(vk: VerifierKey, doc: Seq<u8>) -> bool {
    &&& vk.alpha_g1.b@ == vk_g1_point(vk_doc_list(doc, "vk_alpha_1"@).unwrap())
    &&& vk.beta_g2.b@ == vk_g2_point(vk_doc_rows(doc, "vk_beta_2"@).unwrap())
    &&& vk.gamma_g2.b@ == vk_g2_point(vk_doc_rows(doc, "vk_gamma_2"@).unwrap())
    &&& vk.delta_g2.b@ == vk_g2_point(vk_doc_rows(doc, "vk_delta_2"@).unwrap())
    &&& vk.gamma_abc_g1@.len() == vk_doc_rows(doc, "IC"@).unwrap().len()
    &&& forall|i: int|
        0 <= i < vk.gamma_abc_g1@.len() ==> (#[trigger] vk.gamma_abc_g1@[i]).b@ == vk_g1_point(
            vk_doc_rows(doc, "IC"@).unwrap()[i],
        )
}

impl Verifier {
    pub open spec fn wf(&self) -> bool {
        self.vk.wf()
    }

    /// Parse the verifying-key document.  Success is owed exactly on
    /// well-formed documents, and the stored key then equals the parsed
    /// document, field by field and coefficient by coefficient; the key is
    /// never mutated afterwards.  Failure is fatal at startup.
    pub fn new(vk_json: &[u8]) -> (r: Result<Verifier, VkParseError>)
        ensures
            (r is Ok) == vk_doc_ok(vk_json@),
            r matches Ok(v) ==> v.wf() && vk_matches_doc(v.vk, vk_json@),
    {
        let alpha = match json_coord_list(vk_json, "vk_alpha_1") {
            Some(a) => a,
            None => {
                return Err(VkParseError::MalformedDocument);
            },
        };
        let beta = match json_coord_rows(vk_json, "vk_beta_2") {
            Some(a) => a,
            None => {
                return Err(VkParseError::MalformedDocument);
            },
        };
        let gamma = match json_coord_rows(vk_json, "vk_gamma_2") {
            Some(a) => a,
            None => {
                return Err(VkParseError::MalformedDocument);
            },
        };
        let delta = match json_coord_rows(vk_json, "vk_delta_2") {
            Some(a) => a,
            None => {
                return Err(VkParseError::MalformedDocument);
            },
        };
        let ic = match json_coord_rows(vk_json, "IC") {
            Some(a) => a,
            None => {
                return Err(VkParseError::MalformedDocument);
            },
        };
        let alpha_g1 = json_to_g1(&alpha)?;
        let beta_g2 = json_to_g2(&beta)?;
        let gamma_g2 = json_to_g2(&gamma)?;
        let delta_g2 = json_to_g2(&delta)?;
        let gamma_abc_g1 = json_to_g1_vec(&ic)?;
        Ok(Verifier { vk: VerifierKey { alpha_g1, beta_g2, gamma_g2, delta_g2, gamma_abc_g1 } })
    }
}

// ------------------------------------------------------------------
// Public inputs and the verdict.
// ------------------------------------------------------------------

/// The fixed public-input order: the subject scalar, the limbs least
/// significant first, then the subject scalar again.
pub open spec fn public_inputs_of(sub_scalar: int, limbs: Seq<int>) -> Seq<int> {
    seq![sub_scalar] + limbs + seq![sub_scalar]
}

/// Two requests with different subject scalars never share a public-input
/// vector, whatever the modulus: the vector binds the subject.
pub proof fn lemma_inputs_bind_subject(s1: int, s2: int, limbs1: Seq<int>, limbs2: Seq<int>)
    requires
        s1 != s2,
    ensures
        public_inputs_of(s1, limbs1) != public_inputs_of(s2, limbs2),
{
    assert(public_inputs_of(s1, limbs1)[0] == s1);
    assert(public_inputs_of(s2, limbs2)[0] == s2);
}

/// A limb sequence in canonical base-2^121 form denoting the modulus.
pub open spec fn limbs_good(limbs: Seq<int>, modulus: Seq<u8>) -> bool {
    &&& forall|i: int| 0 <= i < limbs.len() ==> 0 <= #[trigger] limbs[i] < pow2(limb_bits())
    &&& limbs.len() > 0 ==> limbs.last() != 0
    &&& digits_val(limbs, pow2(limb_bits()) as int) == be_val(modulus)
}

/// The verdict owed for a request, given the limbs of the selected key's
/// modulus: every decode step passes and the pairing check accepts.
pub open spec fn accepts_with_limbs(
    vk: VerifierKey,
    sub: Seq<u8>,
    proof_b64: Seq<char>,
    limbs: Seq<int>,
) -> bool {
    &&& dec_valid(sub)
    &&& proof_wire_decodes(proof_b64)
    &&& limbs.len() + 3 == vk.gamma_abc_g1@.len()
    &&& groth16_accepts(
        vk.alpha_g1.b@,
        vk.beta_g2.b@,
        vk.gamma_g2.b@,
        vk.delta_g2.b@,
        bn_g1_bytes(vk.gamma_abc_g1@),
        public_inputs_of(dec_val(sub) % fr254_order(), limbs),
        proof_wire_points(proof_b64).0,
        proof_wire_points(proof_b64).1,
        proof_wire_points(proof_b64).2,
    )
}

/// Whether a request must be accepted: the named key exists, its modulus
/// decodes, and the proof verifies against the subject and that modulus.
/// The limb decomposition is unique, so the existential pins one vector.
pub open spec fn request_accepted(
    vk: VerifierKey,
    keys: Seq<Jwk>,
    sub: Seq<u8>,
    kid: Seq<u8>,
    proof_b64: Seq<char>,
) -> bool {
    &&& find_key(keys, kid) is Some
    &&& b64url_decodable(find_key(keys, kid).unwrap().n@)
    &&& exists|limbs: Seq<int>|
        #[trigger] limbs_good(limbs, b64url_bytes(find_key(keys, kid).unwrap().n@))
            && accepts_with_limbs(vk, sub, proof_b64, limbs)
}

/// The named key exists and its modulus field is a canonical base64url
/// string.
pub open spec fn modulus_decodes(keys: Seq<Jwk>, kid: Seq<u8>) -> bool {
    &&& find_key(keys, kid) is Some
    &&& b64url_decodable(find_key(keys, kid).unwrap().n@)
}

/// The selected modulus further splits into exactly as many limbs as the
/// key's coefficient list expects.
pub open spec fn limb_count_fits(vk: VerifierKey, keys: Seq<Jwk>, kid: Seq<u8>) -> bool {
    &&& modulus_decodes(keys, kid)
    &&& exists|limbs: Seq<int>|
        #[trigger] limbs_good(limbs, b64url_bytes(find_key(keys, kid).unwrap().n@)) && limbs.len()
            + 3 == vk.gamma_abc_g1@.len()
}

/// Whether every decode step of a request passes: the named key exists,
/// its modulus decodes and splits into as many limbs as the key's
/// coefficient list expects, the subject is decimal, and the proof
/// decodes.  A call returns a verdict exactly on these requests; on all
/// others it returns the step's error.
pub open spec fn request_decodes(
    vk: VerifierKey,
    keys: Seq<Jwk>,
    sub: Seq<u8>,
    kid: Seq<u8>,
    proof_b64: Seq<char>,
) -> bool {
    &&& limb_count_fits(vk, keys, kid)
    &&& dec_valid(sub)
    &&& proof_wire_decodes(proof_b64)
}

/// The distinct failure classes of a verification call.
#[derive(Debug)]
pub enum VerifyError {
    KeyNotFound,
    MalformedModulus,
    LimbCountMismatch,
    MalformedSubject,
    MalformedProof(ProofDecodeError),
    Arithmetic,
}

/// Turn one limb into a scalar of the proof field; a limb is far below the
/// field order, so the value is kept exactly.
fn limb_to_fr(x: u128) -> (r: FrBn)
    requires
        x < pow2(limb_bits()),
    ensures
        r.wf(),
        r.val() == x,
{
    let mut bytes: Vec<u8> = Vec::new();
    let mut rest: u128 = x;
    let mut j: usize = 0;
    proof {
        vstd::arithmetic::power::lemma_pow0(256);
        crate::modulus::lemma_pow256_is_pow2(16);
        crate::modulus::lemma_pow2_big();
        vstd::arithmetic::power2::lemma_pow2_strictly_increases(121, 128);
    }
    while j < 16
        invariant
            0 <= j <= 16,
            bytes@.len() == j,
            le_val(bytes@) + rest * pow(256, j as nat) == x,
            x < pow(256, 16),
            rest >= 0,
        decreases 16 - j,
    {
        let b: u8 = (rest % 256) as u8;
        let ghost old_bytes = bytes@;
        let ghost old_rest = rest as int;
        bytes.push(b);
        rest = rest / 256;
        j = j + 1;
        proof {
            crate::codec::lemma_le_val_snoc(old_bytes, b);
            vstd::arithmetic::div_mod::lemma_fundamental_div_mod(old_rest, 256);
            assert(old_rest == 256 * (old_rest / 256) + old_rest % 256);
            let pj = pow(256, (j - 1) as nat);
            assert(pow(256, j as nat) == 256 * pj) by {
                vstd::arithmetic::power::lemma_pow1(256);
                vstd::arithmetic::power::lemma_pow_adds(256, 1, (j - 1) as nat);
            }
            assert((256 * (old_rest / 256) + old_rest % 256) * pj == (256 * (old_rest / 256))
                * pj + (old_rest % 256) * pj) by {
                vstd::arithmetic::mul::lemma_mul_is_distributive_add_other_way(
                    pj,
                    256 * (old_rest / 256),
                    old_rest % 256,
                );
            }
            assert((256 * (old_rest / 256)) * pj == (old_rest / 256) * (256 * pj)) by {
                vstd::arithmetic::mul::lemma_mul_is_associative(256, old_rest / 256, pj);
                vstd::arithmetic::mul::lemma_mul_is_associative(old_rest / 256, 256, pj);
                vstd::arithmetic::mul::lemma_mul_is_commutative(256, old_rest / 256);
            }
        }
    }
    proof {
        crate::codec::lemma_le_val_bound(bytes@);
        if rest > 0 {
            assert(rest * pow(256, 16) >= pow(256, 16)) by {
                vstd::arithmetic::mul::lemma_mul_inequality(1, rest as int, pow(256, 16));
            }
            assert(false);
        }
        assert(le_val(bytes@) == x);
    }
    let r = crate::bn::fr254_reduce_le(&bytes);
    proof {
        crate::modulus::lemma_pow2_big();
        vstd::arithmetic::div_mod::lemma_small_mod(x as nat, fr254_order() as nat);
    }
    r
}

/// Assemble the public-input vector in its fixed order.
pub fn assemble_public_inputs(sub_fr: &FrBn, limbs: &Vec<u128>) -> (r: Vec<FrBn>)
    requires
        sub_fr.wf(),
        forall|i: int| 0 <= i < limbs@.len() ==> (#[trigger] limbs@[i]) < pow2(limb_bits()),
    ensures
        forall|i: int| 0 <= i < r@.len() ==> (#[trigger] r@[i]).wf(),
        frbn_vals(r@) == public_inputs_of(sub_fr.val(), limbs_ints(limbs@)),
{
    let mut out: Vec<FrBn> = Vec::new();
    out.push(sub_fr.duplicate());
    let mut i: usize = 0;
    while i < limbs.len()
        invariant
            0 <= i <= limbs@.len(),
            forall|k: int| 0 <= k < limbs@.len() ==> (#[trigger] limbs@[k]) < pow2(limb_bits()),
            out@.len() == i + 1,
            forall|k: int| 0 <= k < out@.len() ==> (#[trigger] out@[k]).wf(),
            out@[0].val() == sub_fr.val(),
            forall|k: int| 1 <= k < out@.len() ==> (#[trigger] out@[k]).val() == limbs@[k - 1],
        decreases limbs@.len() - i,
    {
        out.push(limb_to_fr(limbs[i]));
        i = i + 1;
    }
    out.push(sub_fr.duplicate());
    proof {
        assert(frbn_vals(out@) =~= public_inputs_of(sub_fr.val(), limbs_ints(limbs@)));
    }
    out
}

impl Verifier {
    /// Verify a request: select the signing key, decompose its modulus,
    /// assemble the public inputs around the subject, decode the proof and
    /// run the pairing check.  `Ok(true)` comes exactly on the requests
    /// `request_accepted` describes; every decode failure is an error, and
    /// a decoded proof that fails the pairing check is `Ok(false)`.
    pub fn verify(&self, keys: &Vec<Jwk>, sub: &[u8], kid: &[u8], proof_b64: &str) -> (r: Result<
        bool,
        VerifyError,
    >)
        requires
            self.wf(),
        ensures
            (r matches Ok(verdict) && verdict == true) <==> request_accepted(
                self.vk,
                keys@,
                sub@,
                kid@,
                proof_b64@,
            ),
            (find_key(keys@, kid@) is None) <==> (r matches Err(e) && e is KeyNotFound),
            (r is Ok) <==> request_decodes(self.vk, keys@, sub@, kid@, proof_b64@),
            (r matches Err(e) && e is MalformedModulus) <==> (find_key(keys@, kid@) is Some
                && !modulus_decodes(keys@, kid@)),
            (r matches Err(e) && e is LimbCountMismatch) <==> (modulus_decodes(keys@, kid@)
                && !limb_count_fits(self.vk, keys@, kid@)),
            (r matches Err(e) && e is MalformedSubject) <==> (limb_count_fits(self.vk, keys@, kid@)
                && !dec_valid(sub@)),
            (r matches Err(e) && e is MalformedProof) <==> (limb_count_fits(self.vk, keys@, kid@)
                && dec_valid(sub@) && !proof_wire_decodes(proof_b64@)),
    {
        let jwk = match select_signing_key(keys, kid) {
            Some(k) => k,
            None => {
                return Err(VerifyError::KeyNotFound);
            },
        };
        let modulus = match crate::codec::b64url_decode(jwk.n.as_str()) {
            Some(m) => m,
            None => {
                proof {
                    assert(find_key(keys@, kid@).unwrap().n@ == jwk.n@);
                }
                return Err(VerifyError::MalformedModulus);
            },
        };
        proof {
            assert(find_key(keys@, kid@).unwrap().n@ == jwk.n@);
            assert(b64url_bytes(find_key(keys@, kid@).unwrap().n@) == modulus@);
        }
        let limbs = crate::modulus::chunk_modulus_bytes(&modulus);
        if self.vk.gamma_abc_g1.len() < 3 || limbs.len() != self.vk.gamma_abc_g1.len() - 3 {
            proof {
                lemma_no_other_limbs(limbs_ints(limbs@), modulus@, self.vk, sub@, proof_b64@);
                lemma_no_other_limb_count(limbs_ints(limbs@), modulus@, self.vk);
            }
            return Err(VerifyError::LimbCountMismatch);
        }
        proof {
            let w = limbs_ints(limbs@);
            let k = find_key(keys@, kid@).unwrap();
            assert(b64url_bytes(k.n@) == modulus@);
            assert(limbs_good(w, b64url_bytes(k.n@)) && w.len() + 3 == self.vk.gamma_abc_g1@.len());
        }
        if !crate::proofenc::all_dec_digits_slice(sub) {
            return Err(VerifyError::MalformedSubject);
        }
        let sub_be = crate::codec::dec_to_be_bytes(sub);
        let sub_fr = crate::bn::fr254_reduce_be(&sub_be);
        let proof_points = match crate::proofenc::base64_to_proof(proof_b64) {
            Ok(p) => p,
            Err(e) => {
                return Err(VerifyError::MalformedProof(e));
            },
        };
        let inputs = assemble_public_inputs(&sub_fr, &limbs);
        proof {
            assert(frbn_vals(inputs@).len() == inputs@.len());
            assert(frbn_vals(inputs@).len() == limbs_ints(limbs@).len() + 2);
            assert(inputs@.len() == limbs@.len() + 2);
        }
        let verdict = match crate::bn::groth16_verify(
            &self.vk.alpha_g1,
            &self.vk.beta_g2,
            &self.vk.gamma_g2,
            &self.vk.delta_g2,
            &self.vk.gamma_abc_g1,
            &inputs,
            &proof_points,
        ) {
            Some(v) => v,
            None => {
                return Err(VerifyError::Arithmetic);
            },
        };
        proof {
            let w = limbs_ints(limbs@);
            let k = find_key(keys@, kid@).unwrap();
            assert(k.n@ == jwk.n@);
            assert(b64url_bytes(k.n@) == modulus@);
            assert(limbs_good(w, modulus@));
            assert(limbs_good(w, b64url_bytes(k.n@)) && w.len() + 3 == self.vk.gamma_abc_g1@.len());
            if verdict {
                assert(accepts_with_limbs(self.vk, sub@, proof_b64@, w));
                assert(limbs_good(w, b64url_bytes(k.n@)) && accepts_with_limbs(
                    self.vk,
                    sub@,
                    proof_b64@,
                    w,
                ));
            }
            crate::modulus::lemma_pow2_big();
            if request_accepted(self.vk, keys@, sub@, kid@, proof_b64@) {
                let other = choose|limbs2: Seq<int>|
                    #[trigger] limbs_good(limbs2, b64url_bytes(k.n@)) && accepts_with_limbs(
                        self.vk,
                        sub@,
                        proof_b64@,
                        limbs2,
                    );
                assert(limbs_good(other, modulus@));
                crate::modulus::lemma_digits_unique(
                    other,
                    w,
                    pow2(crate::modulus::limb_bits()) as int,
                );
                assert(other == w);
                assert(accepts_with_limbs(self.vk, sub@, proof_b64@, w));
            }
        }
        Ok(verdict)
    }
}

/// As `lemma_no_other_limbs`, for the bare count condition.
proof fn lemma_no_other_limb_count(canonical: Seq<int>, modulus: Seq<u8>, vk: VerifierKey)
    requires
        limbs_good(canonical, modulus),
        canonical.len() + 3 != vk.gamma_abc_g1@.len(),
    ensures
        !(exists|limbs: Seq<int>|
            #[trigger] limbs_good(limbs, modulus) && limbs.len() + 3 == vk.gamma_abc_g1@.len()),
{
    crate::modulus::lemma_pow2_big();
    if exists|limbs: Seq<int>|
        #[trigger] limbs_good(limbs, modulus) && limbs.len() + 3 == vk.gamma_abc_g1@.len() {
        let other = choose|limbs: Seq<int>|
            #[trigger] limbs_good(limbs, modulus) && limbs.len() + 3 == vk.gamma_abc_g1@.len();
        crate::modulus::lemma_digits_unique(
            other,
            canonical,
            pow2(crate::modulus::limb_bits()) as int,
        );
    }
}

/// No limb sequence other than the canonical decomposition fits a modulus:
/// with the count check failed, no sequence at all can satisfy the
/// acceptance condition.
proof fn lemma_no_other_limbs(
    canonical: Seq<int>,
    modulus: Seq<u8>,
    vk: VerifierKey,
    sub: Seq<u8>,
    proof_b64: Seq<char>,
)
    requires
        limbs_good(canonical, modulus),
        canonical.len() + 3 != vk.gamma_abc_g1@.len(),
    ensures
        !(exists|limbs: Seq<int>|
            #[trigger] limbs_good(limbs, modulus) && accepts_with_limbs(
                vk,
                sub,
                proof_b64,
                limbs,
            )),
{
    crate::modulus::lemma_pow2_big();
    if exists|limbs: Seq<int>|
        #[trigger] limbs_good(limbs, modulus) && accepts_with_limbs(vk, sub, proof_b64, limbs) {
        let other = choose|limbs: Seq<int>|
            #[trigger] limbs_good(limbs, modulus) && accepts_with_limbs(vk, sub, proof_b64, limbs);
        crate::modulus::lemma_digits_unique(
            other,
            canonical,
            pow2(crate::modulus::limb_bits()) as int,
        );
    }
}

} // verus!
