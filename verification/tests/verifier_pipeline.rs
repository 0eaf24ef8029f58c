//! Verifier pipeline tests: modulus chunking, coordinate parsing, proof
//! decoding and the verdict, checked against the proof-system crates.

use ark_ec::AffineRepr;
use ark_ec::CurveGroup;
use ark_serialize::{CanonicalDeserialize, CanonicalSerialize};
use base64::Engine;
use num_bigint::BigUint;
use syra_core::jwt_verifier::{fq_from_dec, Jwk, Verifier, VerifyError};
use syra_core::modulus::chunk_modulus_bytes;
use syra_core::issuer::{generate_issuer_keys, IssuerState, KeyServiceError};
use syra_core::proofenc::{
    base64_to_proof, proof_to_base64_uncompressed, str_to_fq, ProofDecodeError,
};
use syra_core::service::generate_user_key;

fn sample_modulus() -> Vec<u8> {
    // A fixed 2048-bit modulus image: high bit set, varied bytes.
    let mut m = vec![0u8; 256];
    for (i, b) in m.iter_mut().enumerate() {
        *b = (i as u8).wrapping_mul(37).wrapping_add(11);
    }
    m[0] |= 0x80;
    m
}

#[test]
fn limb_decomposition_reconstructs_the_modulus() {
    let m = sample_modulus();
    let limbs = chunk_modulus_bytes(&m);
    // A 2048-bit modulus yields exactly 17 limbs of 121 bits.
    assert_eq!(limbs.len(), 17);
    let mut sum = BigUint::from(0u32);
    for (j, &limb) in limbs.iter().enumerate() {
        assert!(BigUint::from(limb) < (BigUint::from(1u32) << 121));
        sum += BigUint::from(limb) << (121 * j);
    }
    assert_eq!(sum, BigUint::from_bytes_be(&m));
    assert_ne!(*limbs.last().unwrap(), 0);
}

#[test]
fn limb_decomposition_of_zero_is_empty() {
    assert!(chunk_modulus_bytes(&vec![0u8; 8]).is_empty());
    assert!(chunk_modulus_bytes(&Vec::new()).is_empty());
}

#[test]
fn limb_decomposition_of_small_values_is_exact() {
    let limbs = chunk_modulus_bytes(&vec![0x01, 0x00]);
    assert_eq!(limbs, vec![256u128]);
    // Exactly 2^121 rolls into a second limb.
    let mut m = vec![0u8; 15];
    m.insert(0, 0x02);
    let limbs = chunk_modulus_bytes(&m);
    assert_eq!(limbs, vec![0u128, 1u128]);
}

#[test]
fn coordinate_strings_parse_in_both_radices() {
    let dec = str_to_fq(b"16").unwrap();
    let hex_lower = str_to_fq(b"0x10").unwrap();
    let hex_upper = str_to_fq(b"0X10").unwrap();
    assert_eq!(dec.b, hex_lower.b);
    assert_eq!(dec.b, hex_upper.b);
    assert_eq!(dec.b[0], 16);
    assert!(dec.b[1..].iter().all(|&x| x == 0));
    assert!(str_to_fq(b"12abc").is_err());
    assert!(str_to_fq(b"").is_err());
    assert!(str_to_fq(b"0x").is_err());
}

#[test]
fn canonical_coordinates_reject_the_modulus_and_above() {
    let five = fq_from_dec(b"5").unwrap();
    assert_eq!(five.b[0], 5);
    let q = BigUint::parse_bytes(
        b"21888242871839275222246405745257275088696311157297823662689037894645226208583",
        10,
    )
    .unwrap();
    let q_str = q.to_string();
    assert!(fq_from_dec(q_str.as_bytes()).is_err());
    let q_minus_1 = (&q - 1u32).to_string();
    assert!(fq_from_dec(q_minus_1.as_bytes()).is_ok());
    assert!(fq_from_dec(b"").is_err());
    assert!(fq_from_dec(b"0x10").is_err());
}

fn fq2_strings(x: ark_bn254::Fq2) -> (String, String) {
    (format!("{}", x.c0), format!("{}", x.c1))
}

fn sample_vk_json(ic_len: usize) -> String {
    let g2 = ark_bn254::G2Affine::generator();
    let (x0, x1) = fq2_strings(g2.x);
    let (y0, y1) = fq2_strings(g2.y);
    let g2_json = format!(
        "[[\"{}\",\"{}\"],[\"{}\",\"{}\"],[\"1\",\"0\"]]",
        x0, x1, y0, y1
    );
    let g1_json = "[\"1\",\"2\",\"1\"]";
    let ic: Vec<&str> = (0..ic_len).map(|_| g1_json).collect();
    format!(
        "{{\"vk_alpha_1\":{},\"vk_beta_2\":{},\"vk_gamma_2\":{},\"vk_delta_2\":{},\"IC\":[{}]}}",
        g1_json,
        g2_json,
        g2_json,
        g2_json,
        ic.join(",")
    )
}

fn sample_proof_b64() -> String {
    let proof = ark_groth16::Proof::<ark_bn254::Bn254> {
        a: ark_bn254::G1Affine::generator(),
        b: ark_bn254::G2Affine::generator(),
        c: ark_bn254::G1Affine::generator(),
    };
    let mut buf = Vec::new();
    proof.serialize_uncompressed(&mut buf).unwrap();
    base64::engine::general_purpose::STANDARD.encode(buf)
}

#[test]
fn verifying_key_parses_from_the_document() {
    let v = Verifier::new(sample_vk_json(20).as_bytes()).expect("well-formed document parses");
    assert_eq!(v.vk.gamma_abc_g1.len(), 20);
    let mut gen = Vec::new();
    ark_bn254::G1Affine::generator()
        .serialize_compressed(&mut gen)
        .unwrap();
    assert_eq!(v.vk.alpha_g1.b, gen);
    assert!(Verifier::new(b"not json").is_err());
    assert!(Verifier::new(b"{\"vk_alpha_1\":[\"1\",\"1\",\"1\"]}").is_err());
}

#[test]
fn coefficient_list_keeps_the_document_order() {
    // A document whose list alternates two distinct points; the parsed
    // list must carry them in order.
    let g = ark_bn254::G1Projective::from(ark_bn254::G1Affine::generator());
    let g2x = (g + g).into_affine();
    let gen_json = String::from("[\"1\",\"2\",\"1\"]");
    let dbl_json = format!("[\"{}\",\"{}\",\"1\"]", g2x.x, g2x.y);
    let g2gen = ark_bn254::G2Affine::generator();
    let (x0, x1) = fq2_strings(g2gen.x);
    let (y0, y1) = fq2_strings(g2gen.y);
    let g2_json = format!(
        "[[\"{}\",\"{}\"],[\"{}\",\"{}\"],[\"1\",\"0\"]]",
        x0, x1, y0, y1
    );
    let ic: Vec<String> = (0..6)
        .map(|i| if i % 2 == 0 { gen_json.clone() } else { dbl_json.clone() })
        .collect();
    let doc = format!(
        "{{\"vk_alpha_1\":{},\"vk_beta_2\":{},\"vk_gamma_2\":{},\"vk_delta_2\":{},\"IC\":[{}]}}",
        gen_json,
        g2_json,
        g2_json,
        g2_json,
        ic.join(",")
    );
    let v = Verifier::new(doc.as_bytes()).expect("well-formed document parses");
    let mut gen_c = Vec::new();
    ark_bn254::G1Affine::generator()
        .serialize_compressed(&mut gen_c)
        .unwrap();
    let mut dbl_c = Vec::new();
    g2x.serialize_compressed(&mut dbl_c).unwrap();
    assert_eq!(v.vk.gamma_abc_g1.len(), 6);
    for i in 0..6 {
        let expected = if i % 2 == 0 { &gen_c } else { &dbl_c };
        assert_eq!(&v.vk.gamma_abc_g1[i].b, expected);
    }
}

#[test]
fn structurally_valid_but_unrelated_proof_is_rejected() {
    let v = Verifier::new(sample_vk_json(20).as_bytes()).unwrap();
    let n = base64::engine::general_purpose::URL_SAFE_NO_PAD.encode(sample_modulus());
    let keys = vec![Jwk {
        kid: b"kid-1".to_vec(),
        n,
    }];
    // A proof made of generator points decodes but cannot verify for this
    // statement: the pairing check must answer false.
    let verdict = v
        .verify(&keys, b"12345", b"kid-1", &sample_proof_b64())
        .expect("the pipeline runs to the pairing check");
    assert!(!verdict);
}

#[test]
fn unknown_key_id_is_an_authorization_failure() {
    let v = Verifier::new(sample_vk_json(20).as_bytes()).unwrap();
    let n = base64::engine::general_purpose::URL_SAFE_NO_PAD.encode(sample_modulus());
    let keys = vec![Jwk {
        kid: b"kid-1".to_vec(),
        n,
    }];
    let r = v.verify(&keys, b"12345", b"kid-2", &sample_proof_b64());
    assert!(matches!(r, Err(VerifyError::KeyNotFound)));
}

#[test]
fn limb_count_must_match_the_key_layout() {
    let v = Verifier::new(sample_vk_json(20).as_bytes()).unwrap();
    // A 128-bit modulus gives two limbs, not seventeen.
    let n = base64::engine::general_purpose::URL_SAFE_NO_PAD.encode([0xFFu8; 16]);
    let keys = vec![Jwk {
        kid: b"kid-1".to_vec(),
        n,
    }];
    let r = v.verify(&keys, b"12345", b"kid-1", &sample_proof_b64());
    assert!(matches!(r, Err(VerifyError::LimbCountMismatch)));
}

#[test]
fn subject_must_be_decimal() {
    let v = Verifier::new(sample_vk_json(20).as_bytes()).unwrap();
    let n = base64::engine::general_purpose::URL_SAFE_NO_PAD.encode(sample_modulus());
    let keys = vec![Jwk {
        kid: b"kid-1".to_vec(),
        n,
    }];
    let r = v.verify(&keys, b"12x45", b"kid-1", &sample_proof_b64());
    assert!(matches!(r, Err(VerifyError::MalformedSubject)));
}

#[test]
fn malformed_modulus_is_rejected() {
    let v = Verifier::new(sample_vk_json(20).as_bytes()).unwrap();
    let keys = vec![Jwk {
        kid: b"kid-1".to_vec(),
        n: String::from("!!not-base64url!!"),
    }];
    let r = v.verify(&keys, b"12345", b"kid-1", &sample_proof_b64());
    assert!(matches!(r, Err(VerifyError::MalformedModulus)));
}

#[test]
fn binary_proof_round_trips_through_base64() {
    let decoded = base64_to_proof(&sample_proof_b64()).expect("uncompressed blob decodes");
    let mut gen1 = Vec::new();
    ark_bn254::G1Affine::generator()
        .serialize_compressed(&mut gen1)
        .unwrap();
    assert_eq!(decoded.a.b, gen1);
    assert_eq!(decoded.c.b, gen1);
    // Re-encode and decode again: the elements survive bit-for-bit.
    let again = base64_to_proof(&proof_to_base64_uncompressed(&decoded)).unwrap();
    assert_eq!(again.a.b, decoded.a.b);
    assert_eq!(again.b.b, decoded.b.b);
    assert_eq!(again.c.b, decoded.c.b);
}

#[test]
fn compressed_proof_blob_decodes() {
    let proof = ark_groth16::Proof::<ark_bn254::Bn254> {
        a: ark_bn254::G1Affine::generator(),
        b: ark_bn254::G2Affine::generator(),
        c: ark_bn254::G1Affine::generator(),
    };
    let mut buf = Vec::new();
    proof.serialize_compressed(&mut buf).unwrap();
    assert_eq!(buf.len(), 128);
    let b64 = base64::engine::general_purpose::STANDARD.encode(buf);
    let decoded = base64_to_proof(&b64).expect("compressed blob decodes");
    let mut gen1 = Vec::new();
    ark_bn254::G1Affine::generator()
        .serialize_compressed(&mut gen1)
        .unwrap();
    assert_eq!(decoded.a.b, gen1);
}

#[test]
fn malformed_structured_descriptions_are_rejected() {
    // Valid base64 of a non-JSON payload that starts with a brace.
    let b64 = base64::engine::general_purpose::STANDARD.encode(b"{ not json");
    assert!(matches!(
        base64_to_proof(&b64),
        Err(ProofDecodeError::MalformedJson)
    ));
    // A well-formed document with a coordinate that is not an integer.
    let bad = "{\"pi_a\":[\"1\",\"abc\",\"1\"],\"pi_b\":[[\"1\",\"0\"],[\"2\",\"0\"],[\"1\",\"0\"]],\"pi_c\":[\"1\",\"2\",\"1\"]}";
    let b64 = base64::engine::general_purpose::STANDARD.encode(bad.as_bytes());
    assert!(matches!(
        base64_to_proof(&b64),
        Err(ProofDecodeError::MalformedJson)
    ));
    // Wrong field shape: two coordinates for A.
    let bad = "{\"pi_a\":[\"1\",\"2\"],\"pi_b\":[[\"1\",\"0\"],[\"2\",\"0\"],[\"1\",\"0\"]],\"pi_c\":[\"1\",\"2\",\"1\"]}";
    let b64 = base64::engine::general_purpose::STANDARD.encode(bad.as_bytes());
    assert!(matches!(
        base64_to_proof(&b64),
        Err(ProofDecodeError::MalformedJson)
    ));
}

#[test]
fn malformed_proof_is_distinguished_at_the_verdict() {
    let v = Verifier::new(sample_vk_json(20).as_bytes()).unwrap();
    let n = base64::engine::general_purpose::URL_SAFE_NO_PAD.encode(sample_modulus());
    let keys = vec![Jwk {
        kid: b"kid-1".to_vec(),
        n,
    }];
    let r = v.verify(&keys, b"12345", b"kid-1", "!!!");
    assert!(matches!(
        r,
        Err(VerifyError::MalformedProof(ProofDecodeError::MalformedBase64))
    ));
}

#[test]
fn malformed_verifying_key_coordinates_are_fatal() {
    // A coordinate that is not a decimal integer.
    let doc = sample_vk_json(20).replace("\"2\"", "\"x2\"");
    assert!(matches!(
        Verifier::new(doc.as_bytes()),
        Err(syra_core::jwt_verifier::VkParseError::MalformedCoordinate)
    ));
    // Canonical integers that miss the curve.
    let doc = sample_vk_json(20).replace("[\"1\",\"2\",\"1\"]", "[\"1\",\"3\",\"1\"]");
    assert!(matches!(
        Verifier::new(doc.as_bytes()),
        Err(syra_core::jwt_verifier::VkParseError::InvalidPoint)
    ));
}

#[test]
fn unsupported_blob_length_is_rejected() {
    let b64 = base64::engine::general_purpose::STANDARD.encode([7u8; 100]);
    let r = base64_to_proof(&b64);
    assert!(matches!(r, Err(ProofDecodeError::UnsupportedLength)));
    assert!(matches!(
        base64_to_proof("!!!"),
        Err(ProofDecodeError::MalformedBase64)
    ));
}

#[test]
fn structured_proof_description_decodes() {
    let g2 = ark_bn254::G2Affine::generator();
    let (x0, x1) = fq2_strings(g2.x);
    let (y0, y1) = fq2_strings(g2.y);
    let json = format!(
        "{{\"pi_a\":[\"1\",\"2\",\"1\"],\"pi_b\":[[\"{}\",\"{}\"],[\"{}\",\"{}\"],[\"1\",\"0\"]],\"pi_c\":[\"1\",\"0x2\",\"1\"]}}",
        x0, x1, y0, y1
    );
    let b64 = base64::engine::general_purpose::STANDARD.encode(json.as_bytes());
    let decoded = base64_to_proof(&b64).expect("structured description decodes");
    let mut gen1 = Vec::new();
    ark_bn254::G1Affine::generator()
        .serialize_compressed(&mut gen1)
        .unwrap();
    let mut gen2 = Vec::new();
    ark_bn254::G2Affine::generator()
        .serialize_compressed(&mut gen2)
        .unwrap();
    assert_eq!(decoded.a.b, gen1);
    assert_eq!(decoded.b.b, gen2);
    assert_eq!(decoded.c.b, gen1);
    // A point off the curve is a decode failure.
    let bad = "{\"pi_a\":[\"1\",\"3\",\"1\"],\"pi_b\":[[\"1\",\"0\"],[\"2\",\"0\"],[\"1\",\"0\"]],\"pi_c\":[\"1\",\"2\",\"1\"]}";
    let b64 = base64::engine::general_purpose::STANDARD.encode(bad.as_bytes());
    assert!(base64_to_proof(&b64).is_err());
}

#[test]
fn gated_issuance_rejects_unverified_requests() {
    let v = Verifier::new(sample_vk_json(20).as_bytes()).unwrap();
    let n = base64::engine::general_purpose::URL_SAFE_NO_PAD.encode(sample_modulus());
    let keys = vec![Jwk {
        kid: b"kid-1".to_vec(),
        n,
    }];
    let empty = IssuerState::Empty;
    let r = generate_user_key(&empty, &v, &keys, b"12345", b"kid-1", &sample_proof_b64());
    assert!(matches!(r, Err(KeyServiceError::NotReady)));
    let mut state = IssuerState::Empty;
    generate_issuer_keys(&mut state).unwrap();
    let r = generate_user_key(&state, &v, &keys, b"12345", b"kid-1", &sample_proof_b64());
    assert!(matches!(r, Err(KeyServiceError::Unauthorized)));
    let r = generate_user_key(&state, &v, &keys, b"12345", b"kid-2", &sample_proof_b64());
    assert!(matches!(r, Err(KeyServiceError::Unauthorized)));
}
