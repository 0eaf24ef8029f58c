//! Wire decoding of identity proofs.
//!
//! A proof arrives as one base64 string carrying either a structured
//! description with decimal or hexadecimal coordinates, or a fixed-length
//! binary blob; the two legal blob lengths distinguish the compressed from
//! the uncompressed encoding.  The branch is picked by inspecting the
//! leading byte of the decoded payload, and every accepted input is pinned
//! to the three proof elements it denotes.

use vstd::prelude::*;

verus! {

use crate::bn::fq254_order;
use crate::bn::g1bn_affine_of;
use crate::bn::g1bn_proj_valid;
use crate::bn::g2bn_affine_of;
use crate::bn::g2bn_proj_valid;
use crate::bn::proof_comp_points;
use crate::bn::proof_comp_valid;
use crate::bn::proof_uncomp_points;
use crate::bn::proof_uncomp_valid;
use crate::bn::proof_uncompressed_of;
use crate::bn::FqBn;
use crate::bn::ProofPoints;
use crate::codec::b64std_bytes;
use crate::codec::b64std_decodable;
use crate::codec::b64std_enc;
use crate::codec::dec_val;
use crate::codec::dec_valid;
use crate::codec::hexstr_val;
use crate::codec::hexstr_valid;

/// The two legal byte lengths of a binary proof blob.
pub const PROOF_LEN_COMPRESSED: usize = 128;

pub const PROOF_LEN_UNCOMPRESSED: usize = 256;

/// Errors while turning a wire string into proof elements.
#[derive(Debug)]
pub enum ProofDecodeError {
    MalformedBase64,
    MalformedJson,
    InvalidPoint,
    UnsupportedLength,
}

// ------------------------------------------------------------------
// Coordinate strings: decimal, or hexadecimal behind a 0x prefix.
// ------------------------------------------------------------------

/// Whether a coordinate string parses: hexadecimal digits after a 0x or 0X
/// prefix, decimal digits otherwise.
pub open spec fn fq_str_valid(s: Seq<u8>) -> bool {
    if s.len() >= 2 && s[0] == 48 && (s[1] == 120 || s[1] == 88) {
        hexstr_valid(s.skip(2))
    } else {
        dec_valid(s)
    }
}

/// The base-field value a coordinate string denotes, reduced modulo the
/// base field order.
pub open spec fn fq_str_val(s: Seq<u8>) -> int {
    if s.len() >= 2 && s[0] == 48 && (s[1] == 120 || s[1] == 88) {
        hexstr_val(s.skip(2)) % fq254_order()
    } else {
        dec_val(s) % fq254_order()
    }
}

/// Parse a coordinate: accept decimal, or hexadecimal behind 0x, and reduce
/// into the base field as the curve library does.
pub fn str_to_fq(s: &[u8]) -> (r: Result<FqBn, ProofDecodeError>)
    ensures
        (r is Ok) == fq_str_valid(s@),
        r matches Ok(q) ==> q.wf() && q.val() == fq_str_val(s@),
        r matches Err(e) ==> e is MalformedJson,
{
    proof {
        assert(s@.skip(0) =~= s@);
    }
    let hex_prefixed = s.len() >= 2 && s[0] == 48 && (s[1] == 120 || s[1] == 88);
    if hex_prefixed {
        let digits = slice_suffix(s, 2);
        if !all_hex_digits(&digits) {
            return Err(ProofDecodeError::MalformedJson);
        }
        let be = crate::codec::hex_to_be_bytes(digits.as_slice());
        Ok(crate::bn::fq254_reduce_be(&be))
    } else {
        let digits = slice_suffix(s, 0);
        if !all_dec_digits(&digits) {
            return Err(ProofDecodeError::MalformedJson);
        }
        let be = crate::codec::dec_to_be_bytes(digits.as_slice());
        Ok(crate::bn::fq254_reduce_be(&be))
    }
}

/// Copy the bytes of a slice from `from` on.
pub(crate) fn slice_suffix(s: &[u8], from: usize) -> (r: Vec<u8>)
    requires
        from <= s@.len(),
    ensures
        r@ == s@.skip(from as int),
{
    let mut out: Vec<u8> = Vec::new();
    let mut i: usize = from;
    while i < s.len()
        invariant
            from <= i <= s@.len(),
            out@.len() == i - from,
            forall|k: int| 0 <= k < out@.len() ==> out@[k] == s@[from + k],
        decreases s@.len() - i,
    {
        out.push(s[i]);
        i = i + 1;
    }
    proof {
        assert(out@ =~= s@.skip(from as int));
    }
    out
}

/// Whether every byte is a decimal digit and the string is non-empty.
pub(crate) fn all_dec_digits(s: &Vec<u8>) -> (r: bool)
    ensures
        r == dec_valid(s@),
{
    if s.len() == 0 {
        return false;
    }
    let mut i: usize = 0;
    while i < s.len()
        invariant
            0 <= i <= s@.len(),
            forall|k: int| 0 <= k < i ==> crate::codec::is_dec_digit(#[trigger] s@[k]),
        decreases s@.len() - i,
    {
        let b = s[i];
        if !(48 <= b && b <= 57) {
            return false;
        }
        i = i + 1;
    }
    true
}

/// Whether every byte of a slice is a decimal digit and it is non-empty.
pub(crate) fn all_dec_digits_slice(s: &[u8]) -> (r: bool)
    ensures
        r == dec_valid(s@),
{
    let v = slice_suffix(s, 0);
    proof {
        assert(s@.skip(0) =~= s@);
    }
    all_dec_digits(&v)
}

/// Whether every byte is a hexadecimal digit and the string is non-empty.
pub(crate) fn all_hex_digits(s: &Vec<u8>) -> (r: bool)
    ensures
        r == hexstr_valid(s@),
{
    if s.len() == 0 {
        return false;
    }
    let mut i: usize = 0;
    while i < s.len()
        invariant
            0 <= i <= s@.len(),
            forall|k: int| 0 <= k < i ==> crate::codec::is_hex_digit_byte(#[trigger] s@[k]),
        decreases s@.len() - i,
    {
        let b = s[i];
        if !((48 <= b && b <= 57) || (97 <= b && b <= 102) || (65 <= b && b <= 70)) {
            return false;
        }
        i = i + 1;
    }
    true
}

// ------------------------------------------------------------------
// The structured description.
// ------------------------------------------------------------------

/// The structured proof description: three coordinate strings for A, three
/// pairs for B, three for C.
pub struct ProofJson {
    pub pi_a: Vec<Vec<u8>>,
    pub pi_b: Vec<Vec<Vec<u8>>>,
    pub pi_c: Vec<Vec<u8>>,
}

/// Whether the description parses as a JSON object with the three fields,
/// each an array of strings (respectively of pairs of strings).
pub uninterp spec fn proof_json_ok(s: Seq<u8>) -> bool;

/// The field contents of a parsed description.
pub uninterp spec fn proof_json_fields(s: Seq<u8>) -> (
    Seq<Seq<u8>>,
    Seq<Seq<Seq<u8>>>,
    Seq<Seq<u8>>,
);

/// Relies on `serde_json::from_slice` and the value accessors: pulls the
/// three named arrays of strings out of the document, converting only.
#[verifier::external_body]
fn proof_json_parse(bytes: &Vec<u8>) -> (r: Option<ProofJson>)
    ensures
        (r is Some) == proof_json_ok(bytes@),
        r matches Some(p) ==> {
            let (pa, pb, pc) = proof_json_fields(bytes@);
            &&& p.pi_a@.len() == pa.len()
            &&& forall|i: int| 0 <= i < pa.len() ==> (#[trigger] p.pi_a@[i])@ == pa[i]
            &&& p.pi_b@.len() == pb.len()
            &&& forall|i: int| 0 <= i < pb.len() ==> (#[trigger] p.pi_b@[i])@.len() == pb[i].len()
            &&& forall|i: int, j: int|
                0 <= i < pb.len() && 0 <= j < pb[i].len() ==> (#[trigger] p.pi_b@[i]@[j])@
                    == pb[i][j]
            &&& p.pi_c@.len() == pc.len()
            &&& forall|i: int| 0 <= i < pc.len() ==> (#[trigger] p.pi_c@[i])@ == pc[i]
        },
{
    let v: serde_json::Value = serde_json::from_slice(&bytes[..]).ok()?;
    let s1 = |x: &serde_json::Value| Some(x.as_str()?.as_bytes().to_vec());
    let a1 = |k: &str| -> Option<Vec<Vec<u8>>> { v.get(k)?.as_array()?.iter().map(&s1).collect() };
    let b = v.get("pi_b")?.as_array()?.iter().map(
        |r| r.as_array()?.iter().map(&s1).collect(),
    ).collect::<Option<Vec<Vec<Vec<u8>>>>>()?;
    Some(ProofJson { pi_a: a1("pi_a")?, pi_b: b, pi_c: a1("pi_c")? })
}

/// Whether parsed fields have the circuit's shape: three coordinates for A
/// and C, three rows of two for B.
pub open spec fn proof_fields_shaped(
    pa: Seq<Seq<u8>>,
    pb: Seq<Seq<Seq<u8>>>,
    pc: Seq<Seq<u8>>,
) -> bool {
    &&& pa.len() == 3
    &&& pb.len() == 3
    &&& pb[0].len() == 2
    &&& pb[1].len() == 2
    &&& pb[2].len() == 2
    &&& pc.len() == 3
}

/// Whether every coordinate string of shaped fields parses.
pub open spec fn proof_fields_coords_valid(
    pa: Seq<Seq<u8>>,
    pb: Seq<Seq<Seq<u8>>>,
    pc: Seq<Seq<u8>>,
) -> bool {
    &&& fq_str_valid(pa[0]) && fq_str_valid(pa[1]) && fq_str_valid(pa[2])
    &&& fq_str_valid(pb[0][0]) && fq_str_valid(pb[0][1])
    &&& fq_str_valid(pb[1][0]) && fq_str_valid(pb[1][1])
    &&& fq_str_valid(pb[2][0]) && fq_str_valid(pb[2][1])
    &&& fq_str_valid(pc[0]) && fq_str_valid(pc[1]) && fq_str_valid(pc[2])
}

/// Whether the parsed coordinates normalize to curve points.
pub open spec fn proof_fields_points_valid(
    pa: Seq<Seq<u8>>,
    pb: Seq<Seq<Seq<u8>>>,
    pc: Seq<Seq<u8>>,
) -> bool {
    &&& g1bn_proj_valid(fq_str_val(pa[0]), fq_str_val(pa[1]), fq_str_val(pa[2]))
    &&& g2bn_proj_valid(
        fq_str_val(pb[0][0]),
        fq_str_val(pb[0][1]),
        fq_str_val(pb[1][0]),
        fq_str_val(pb[1][1]),
        fq_str_val(pb[2][0]),
        fq_str_val(pb[2][1]),
    )
    &&& g1bn_proj_valid(fq_str_val(pc[0]), fq_str_val(pc[1]), fq_str_val(pc[2]))
}

/// Whether a structured description decodes to a proof.
pub open spec fn json_proof_decodes(s: Seq<u8>) -> bool {
    &&& proof_json_ok(s)
    &&& {
        let (pa, pb, pc) = proof_json_fields(s);
        proof_fields_shaped(pa, pb, pc) && proof_fields_coords_valid(pa, pb, pc)
            && proof_fields_points_valid(pa, pb, pc)
    }
}

/// The three compressed proof elements a structured description denotes.
pub open spec fn json_proof_points(s: Seq<u8>) -> (Seq<u8>, Seq<u8>, Seq<u8>) {
    let (pa, pb, pc) = proof_json_fields(s);
    (
        g1bn_affine_of(fq_str_val(pa[0]), fq_str_val(pa[1]), fq_str_val(pa[2])),
        g2bn_affine_of(
            fq_str_val(pb[0][0]),
            fq_str_val(pb[0][1]),
            fq_str_val(pb[1][0]),
            fq_str_val(pb[1][1]),
            fq_str_val(pb[2][0]),
            fq_str_val(pb[2][1]),
        ),
        g1bn_affine_of(fq_str_val(pc[0]), fq_str_val(pc[1]), fq_str_val(pc[2])),
    )
}

/// Decode the structured description: parse the document, parse each
/// coordinate, and normalize the three points.
#[verifier::rlimit(80)]
pub fn proof_from_snarkjs_json(json: &Vec<u8>) -> (r: Result<ProofPoints, ProofDecodeError>)
    ensures
        (r is Ok) == json_proof_decodes(json@),
        r matches Ok(p) ==> p.wf() && (p.a.b@, p.b.b@, p.c.b@) == json_proof_points(json@),
{
    let parsed = match proof_json_parse(json) {
        Some(p) => p,
        None => {
            return Err(ProofDecodeError::MalformedJson);
        },
    };
    if !(parsed.pi_a.len() == 3 && parsed.pi_b.len() == 3 && parsed.pi_c.len() == 3) {
        return Err(ProofDecodeError::MalformedJson);
    }
    if !(parsed.pi_b[0].len() == 2 && parsed.pi_b[1].len() == 2 && parsed.pi_b[2].len() == 2) {
        return Err(ProofDecodeError::MalformedJson);
    }
    let ax = str_to_fq(parsed.pi_a[0].as_slice())?;
    let ay = str_to_fq(parsed.pi_a[1].as_slice())?;
    let az = str_to_fq(parsed.pi_a[2].as_slice())?;
    let bx0 = str_to_fq(parsed.pi_b[0][0].as_slice())?;
    let bx1 = str_to_fq(parsed.pi_b[0][1].as_slice())?;
    let by0 = str_to_fq(parsed.pi_b[1][0].as_slice())?;
    let by1 = str_to_fq(parsed.pi_b[1][1].as_slice())?;
    let bz0 = str_to_fq(parsed.pi_b[2][0].as_slice())?;
    let bz1 = str_to_fq(parsed.pi_b[2][1].as_slice())?;
    let cx = str_to_fq(parsed.pi_c[0].as_slice())?;
    let cy = str_to_fq(parsed.pi_c[1].as_slice())?;
    let cz = str_to_fq(parsed.pi_c[2].as_slice())?;
    let a = match crate::bn::g1bn_from_proj(&ax, &ay, &az) {
        Some(p) => p,
        None => {
            return Err(ProofDecodeError::InvalidPoint);
        },
    };
    let b = match crate::bn::g2bn_from_proj(&bx0, &bx1, &by0, &by1, &bz0, &bz1) {
        Some(p) => p,
        None => {
            return Err(ProofDecodeError::InvalidPoint);
        },
    };
    let c = match crate::bn::g1bn_from_proj(&cx, &cy, &cz) {
        Some(p) => p,
        None => {
            return Err(ProofDecodeError::InvalidPoint);
        },
    };
    Ok(ProofPoints { a, b, c })
}

// ------------------------------------------------------------------
// The binary blob, and the unified entry point.
// ------------------------------------------------------------------

/// Whether a binary blob decodes: exactly the two legal lengths, each with
/// a valid encoding.
pub open spec fn ark_bytes_decode(s: Seq<u8>) -> bool {
    if s.len() == 256 {
        proof_uncomp_valid(s)
    } else if s.len() == 128 {
        proof_comp_valid(s)
    } else {
        false
    }
}

/// The three compressed proof elements a binary blob denotes.
pub open spec fn ark_bytes_points(s: Seq<u8>) -> (Seq<u8>, Seq<u8>, Seq<u8>) {
    if s.len() == 256 {
        proof_uncomp_points(s)
    } else {
        proof_comp_points(s)
    }
}

/// Decode a binary blob by its length.
pub fn proof_from_ark_bytes(raw: &Vec<u8>) -> (r: Result<ProofPoints, ProofDecodeError>)
    ensures
        (r is Ok) == ark_bytes_decode(raw@),
        r matches Ok(p) ==> p.wf() && (p.a.b@, p.b.b@, p.c.b@) == ark_bytes_points(raw@),
        raw@.len() != 128 && raw@.len() != 256 ==> (r matches Err(e) && e is UnsupportedLength),
{
    if raw.len() == PROOF_LEN_UNCOMPRESSED {
        match crate::bn::proof_from_uncompressed(raw) {
            Some(p) => Ok(p),
            None => Err(ProofDecodeError::InvalidPoint),
        }
    } else if raw.len() == PROOF_LEN_COMPRESSED {
        match crate::bn::proof_from_compressed(raw) {
            Some(p) => Ok(p),
            None => Err(ProofDecodeError::InvalidPoint),
        }
    } else {
        Err(ProofDecodeError::UnsupportedLength)
    }
}

/// The payload with its leading ASCII whitespace removed.
pub open spec fn skip_ascii_ws(s: Seq<u8>) -> Seq<u8>
    decreases s.len(),
{
    if s.len() > 0 && (s[0] == 32 || s[0] == 9 || s[0] == 10 || s[0] == 13) {
        skip_ascii_ws(s.skip(1))
    } else {
        s
    }
}

/// Whether a decoded payload looks like a structured description: its first
/// non-whitespace byte is an opening brace.
pub open spec fn sniff_json(s: Seq<u8>) -> bool {
    skip_ascii_ws(s).len() > 0 && skip_ascii_ws(s)[0] == 123
}

/// Whether the byte at an index is ASCII whitespace.
pub open spec fn is_ascii_ws(b: u8) -> bool {
    b == 32 || b == 9 || b == 10 || b == 13
}

/// Find the payload's first non-whitespace byte.
fn first_non_ws(bytes: &Vec<u8>) -> (r: usize)
    ensures
        skip_ascii_ws(bytes@) == bytes@.skip(r as int),
        r <= bytes@.len(),
{
    let mut i: usize = 0;
    proof {
        assert(bytes@.skip(0) =~= bytes@);
    }
    while i < bytes.len() && (bytes[i] == 32 || bytes[i] == 9 || bytes[i] == 10 || bytes[i] == 13)
        invariant
            0 <= i <= bytes@.len(),
            skip_ascii_ws(bytes@) == skip_ascii_ws(bytes@.skip(i as int)),
        decreases bytes@.len() - i,
    {
        proof {
            assert(bytes@.skip(i as int)[0] == bytes@[i as int]);
            assert(bytes@.skip(i as int).skip(1) =~= bytes@.skip(i + 1));
        }
        i = i + 1;
    }
    proof {
        if i < bytes@.len() {
            assert(bytes@.skip(i as int)[0] == bytes@[i as int]);
        } else {
            assert(bytes@.skip(i as int) =~= Seq::<u8>::empty());
        }
    }
    i
}

/// Whether a wire string decodes to a proof: a canonical base64 payload
/// whose content decodes on the branch its leading byte picks.
pub open spec fn proof_wire_decodes(s: Seq<char>) -> bool {
    &&& b64std_decodable(s)
    &&& {
        let bytes = b64std_bytes(s);
        if sniff_json(bytes) {
            json_proof_decodes(bytes)
        } else {
            ark_bytes_decode(bytes)
        }
    }
}

/// The three compressed proof elements a wire string denotes.
pub open spec fn proof_wire_points(s: Seq<char>) -> (Seq<u8>, Seq<u8>, Seq<u8>) {
    let bytes = b64std_bytes(s);
    if sniff_json(bytes) {
        json_proof_points(bytes)
    } else {
        ark_bytes_points(bytes)
    }
}

/// Unified entry point: base64-decode the wire string, pick the branch by
/// the payload's leading byte, and decode.
pub fn base64_to_proof(b64: &str) -> (r: Result<ProofPoints, ProofDecodeError>)
    ensures
        (r is Ok) == proof_wire_decodes(b64@),
        r matches Ok(p) ==> p.wf() && (p.a.b@, p.b.b@, p.c.b@) == proof_wire_points(b64@),
        !b64std_decodable(b64@) ==> (r matches Err(e) && e is MalformedBase64),
{
    let bytes = match crate::codec::b64std_decode(b64) {
        Some(v) => v,
        None => {
            return Err(ProofDecodeError::MalformedBase64);
        },
    };
    let start = first_non_ws(&bytes);
    if start < bytes.len() && bytes[start] == 123 {
        proof {
            assert(skip_ascii_ws(bytes@)[0] == bytes@[start as int]);
        }
        proof_from_snarkjs_json(&bytes)
    } else {
        proof {
            if start < bytes@.len() {
                assert(skip_ascii_ws(bytes@)[0] == bytes@[start as int]);
            }
        }
        proof_from_ark_bytes(&bytes)
    }
}

/// Encode a proof for the wire: the uncompressed binary form, in standard
/// base64.  Encoding then decoding returns the same three elements,
/// provided the 256-byte payload does not begin with an opening brace
/// after whitespace — such a payload would be sniffed as a structured
/// description, as the wire format's branching dictates.
pub fn proof_to_base64_uncompressed(p: &ProofPoints) -> (r: String)
    requires
        p.wf(),
    ensures
        r@ == b64std_enc(proof_uncompressed_of(p.a.b@, p.b.b@, p.c.b@)),
        !sniff_json(proof_uncompressed_of(p.a.b@, p.b.b@, p.c.b@)) ==> proof_wire_decodes(r@)
            && proof_wire_points(r@) == (p.a.b@, p.b.b@, p.c.b@),
{
    let bytes = crate::bn::proof_to_uncompressed_bytes(p);
    let encoded = crate::codec::b64std_encode(&bytes);
    proof {
        assert(b64std_bytes(encoded@) == bytes@);
        if !sniff_json(bytes@) {
            assert(ark_bytes_decode(bytes@));
            assert(ark_bytes_points(bytes@) == (p.a.b@, p.b.b@, p.c.b@));
        }
    }
    encoded
}

} // verus!
