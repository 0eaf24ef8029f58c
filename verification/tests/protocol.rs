//! End-to-end protocol tests: dealing, receiving, sealing and derivation,
//! checked against the curve library directly.

use ark_ec::pairing::Pairing;
use ark_ec::CurveGroup;
use ark_serialize::{CanonicalDeserialize, CanonicalSerialize};
use blake2::Blake2b512;
use dock_crypto_utils::hashing_utils::affine_group_elem_from_try_and_incr;
use syra_core::dealer::{deal, reconstruct_secret, sample_polynomial, share_message};
use syra_core::issuer::{
    derive_user_key, generate_issuer_keys, receive_share, s_from_sub, IssuerState, IvkBundle,
    KeyServiceError, KeygenError, ReceiveShareError,
};
use syra_core::scalar::Scalar;

fn fr_of(bytes: &[u8]) -> ark_bls12_381::Fr {
    ark_bls12_381::Fr::deserialize_compressed(bytes).unwrap()
}

fn compressed<T: CanonicalSerialize>(t: &T) -> Vec<u8> {
    let mut buf = Vec::new();
    t.serialize_compressed(&mut buf).unwrap();
    buf
}

#[test]
fn dealt_commitments_match_generator_powers() {
    let coeffs = sample_polynomial(3);
    let out = deal(&coeffs, 5);
    assert_eq!(out.shares.len(), 5);
    assert_eq!(out.commitments.len(), 5);
    let g = affine_group_elem_from_try_and_incr::<ark_bls12_381::G1Affine, Blake2b512>(
        b"syra-generator",
    );
    for i in 0..5 {
        let f_i = fr_of(&out.shares[i].b);
        let expected = (ark_bls12_381::G1Projective::from(g) * f_i).into_affine();
        assert_eq!(out.commitments[i].b, compressed(&expected));
    }
    let secret = fr_of(&coeffs[0].b);
    let a = (ark_bls12_381::G1Projective::from(g) * secret).into_affine();
    assert_eq!(out.group_public.b, compressed(&a));
}

#[test]
fn any_threshold_subset_recovers_the_secret() {
    let coeffs = sample_polynomial(3);
    let out = deal(&coeffs, 5);
    let subsets: [[u64; 3]; 3] = [[1, 2, 3], [2, 4, 5], [1, 3, 5]];
    for subset in subsets.iter() {
        let xs: Vec<u64> = subset.to_vec();
        let shares: Vec<Scalar> = subset
            .iter()
            .map(|&i| Scalar {
                b: out.shares[(i - 1) as usize].b.clone(),
            })
            .collect();
        let recovered = reconstruct_secret(&xs, &shares).expect("distinct indices");
        assert_eq!(recovered.b, coeffs[0].b);
    }
    // Four or five shares also recover it.
    let xs: Vec<u64> = vec![1, 2, 3, 4, 5];
    let shares: Vec<Scalar> = (0..5)
        .map(|i| Scalar {
            b: out.shares[i].b.clone(),
        })
        .collect();
    let recovered = reconstruct_secret(&xs, &shares).expect("distinct indices");
    assert_eq!(recovered.b, coeffs[0].b);
}

#[test]
fn two_shares_recover_a_threshold_two_secret() {
    let coeffs = sample_polynomial(2);
    let out = deal(&coeffs, 3);
    for pair in [[1u64, 2], [1, 3], [2, 3]] {
        let xs: Vec<u64> = pair.to_vec();
        let shares: Vec<Scalar> = pair
            .iter()
            .map(|&i| Scalar {
                b: out.shares[(i - 1) as usize].b.clone(),
            })
            .collect();
        let recovered = reconstruct_secret(&xs, &shares).expect("distinct indices");
        assert_eq!(recovered.b, coeffs[0].b);
    }
}

#[test]
fn reconstruct_rejects_duplicate_indices() {
    let coeffs = sample_polynomial(2);
    let out = deal(&coeffs, 3);
    let xs: Vec<u64> = vec![1, 1];
    let shares: Vec<Scalar> = vec![
        Scalar {
            b: out.shares[0].b.clone(),
        },
        Scalar {
            b: out.shares[0].b.clone(),
        },
    ];
    assert!(reconstruct_secret(&xs, &shares).is_none());
}

#[test]
fn received_share_recomputes_the_published_commitment() {
    let coeffs = sample_polynomial(3);
    let out = deal(&coeffs, 5);
    let msg = share_message(&out, "syra-session-001", 1);
    let mut state = IssuerState::Empty;
    receive_share(&mut state, &msg).expect("first receipt seals");
    match &state {
        IssuerState::SealedShare(rec) => {
            assert_eq!(rec.local_commitment.b, out.commitments[0].b);
            assert_eq!(rec.share.b, out.shares[0].b);
            assert_eq!(rec.group_public.b, out.group_public.b);
            assert_eq!(rec.commitments.len(), 5);
            for i in 0..5 {
                assert_eq!(rec.commitments[i].b, out.commitments[i].b);
            }
        }
        _ => panic!("state did not seal by receipt"),
    }
}

#[test]
fn receive_share_is_idempotent_and_keeps_the_first_message() {
    let coeffs = sample_polynomial(3);
    let out = deal(&coeffs, 5);
    let msg1 = share_message(&out, "syra-session-001", 1);
    let msg2 = share_message(&out, "syra-session-001", 2);
    let mut state = IssuerState::Empty;
    receive_share(&mut state, &msg1).expect("first receipt seals");
    let stored_share = match &state {
        IssuerState::SealedShare(rec) => rec.share.b.clone(),
        _ => panic!("state did not seal"),
    };
    // The identical message again: success, nothing changes.
    receive_share(&mut state, &msg1).expect("repeat receipt is a no-op");
    // A different message after sealing: also success, first data kept.
    receive_share(&mut state, &msg2).expect("later receipt is ignored");
    match &state {
        IssuerState::SealedShare(rec) => {
            assert_eq!(rec.share.b, stored_share);
            assert_eq!(rec.share.b, out.shares[0].b);
        }
        _ => panic!("state changed shape"),
    }
}

#[test]
fn malformed_share_message_is_rejected_without_sealing() {
    let coeffs = sample_polynomial(2);
    let out = deal(&coeffs, 3);
    let mut state = IssuerState::Empty;
    // A share that is not hex.
    let mut msg = share_message(&out, "syra-session-001", 1);
    msg.share_hex = String::from("zz");
    assert!(matches!(
        receive_share(&mut state, &msg),
        Err(ReceiveShareError::MalformedShare)
    ));
    assert!(matches!(state, IssuerState::Empty));
    // A group key of the wrong length.
    let mut msg = share_message(&out, "syra-session-001", 1);
    msg.group_public_hex = String::from("abcd");
    assert!(matches!(
        receive_share(&mut state, &msg),
        Err(ReceiveShareError::MalformedGroupKey)
    ));
    assert!(matches!(state, IssuerState::Empty));
    // A commitment of the wrong length.
    let mut msg = share_message(&out, "syra-session-001", 1);
    msg.commitments_hex[2] = String::from("abcd");
    assert!(matches!(
        receive_share(&mut state, &msg),
        Err(ReceiveShareError::MalformedCommitment)
    ));
    assert!(matches!(state, IssuerState::Empty));
}

#[test]
fn self_keygen_is_exactly_once() {
    let mut state = IssuerState::Empty;
    let bundle = generate_issuer_keys(&mut state).expect("first keygen succeeds");
    // The published bundle is the five compressed elements, hex-encoded.
    assert_eq!(bundle.to_bytes().len(), 48 + 96 + 96 + 48 + 96);
    assert_eq!(bundle.to_hex_string().len(), 2 * (48 + 96 + 96 + 48 + 96));
    let isk_before = match &state {
        IssuerState::SealedSelf(keys) => keys.isk.b.clone(),
        _ => panic!("state did not seal"),
    };
    let second = generate_issuer_keys(&mut state);
    assert!(matches!(second, Err(KeygenError::AlreadyGenerated)));
    match &state {
        IssuerState::SealedSelf(keys) => assert_eq!(keys.isk.b, isk_before),
        _ => panic!("state changed shape"),
    }
}

#[test]
fn bundle_serialization_order_is_fixed() {
    let mut state = IssuerState::Empty;
    let bundle: IvkBundle = generate_issuer_keys(&mut state).unwrap();
    let bytes = bundle.to_bytes();
    let mut expected = Vec::new();
    expected.extend_from_slice(&bundle.bp.g1.b);
    expected.extend_from_slice(&bundle.bp.g2.b);
    expected.extend_from_slice(&bundle.ivk_hat.b);
    expected.extend_from_slice(&bundle.W.b);
    expected.extend_from_slice(&bundle.W_hat.b);
    assert_eq!(bytes, expected);
    assert_eq!(bundle.to_hex_string(), hex::encode(&expected));
}

#[test]
fn derivation_is_deterministic() {
    let mut state = IssuerState::Empty;
    generate_issuer_keys(&mut state).unwrap();
    let r1 = derive_user_key(&state, b"user-17").expect("derivation succeeds");
    let r2 = derive_user_key(&state, b"user-17").expect("derivation succeeds");
    assert_eq!(r1.ivk, r2.ivk);
    assert_eq!(r1.usk, r2.usk);
    assert_eq!(r1.usk_hat, r2.usk_hat);
    let other = derive_user_key(&state, b"user-18").expect("derivation succeeds");
    assert_ne!(r1.usk, other.usk);
}

#[test]
fn derivation_satisfies_the_pairing_relation() {
    let mut state = IssuerState::Empty;
    generate_issuer_keys(&mut state).unwrap();
    let subject = b"pairing-subject";
    let resp = derive_user_key(&state, subject).expect("derivation succeeds");
    let (g1, g2, isk) = match &state {
        IssuerState::SealedSelf(keys) => (
            ark_bls12_381::G1Affine::deserialize_compressed(&keys.bp.g1.b[..]).unwrap(),
            ark_bls12_381::G2Affine::deserialize_compressed(&keys.bp.g2.b[..]).unwrap(),
            fr_of(&keys.isk.b),
        ),
        _ => panic!("state did not seal"),
    };
    let s = fr_of(&s_from_sub(subject).b);
    let usk = ark_bls12_381::G1Affine::deserialize_compressed(
        &hex::decode(&resp.usk).unwrap()[..],
    )
    .unwrap();
    let usk_hat = ark_bls12_381::G2Affine::deserialize_compressed(
        &hex::decode(&resp.usk_hat).unwrap()[..],
    )
    .unwrap();
    // e(usk, g2^(s + isk)) must equal e(g1, g2): usk is g1^(1/(s+isk)).
    let rhs = (ark_bls12_381::G2Projective::from(g2) * (s + isk)).into_affine();
    assert_eq!(
        ark_bls12_381::Bls12_381::pairing(usk, rhs),
        ark_bls12_381::Bls12_381::pairing(g1, g2)
    );
    // And symmetrically in the second group.
    let lhs = (ark_bls12_381::G1Projective::from(g1) * (s + isk)).into_affine();
    assert_eq!(
        ark_bls12_381::Bls12_381::pairing(lhs, usk_hat),
        ark_bls12_381::Bls12_381::pairing(g1, g2)
    );
}

#[test]
fn zero_accumulation_subjects_map_to_one() {
    let one = {
        let mut buf = Vec::new();
        ark_bls12_381::Fr::from(1u64)
            .serialize_compressed(&mut buf)
            .unwrap();
        buf
    };
    // The empty subject accumulates to zero and is remapped.
    assert_eq!(s_from_sub(b"").b, one);
    // So does a subject of zero bytes.
    assert_eq!(s_from_sub(&[0u8, 0u8]).b, one);
    // A single 0x01 byte accumulates to one directly.
    assert_eq!(s_from_sub(&[1u8]).b, one);
    // An ordinary subject does not collide with the remap.
    assert_ne!(s_from_sub(b"alice").b, one);
    // A one-byte subject accumulates to exactly its byte value.
    let s = s_from_sub(b"A");
    assert_eq!(s.b[0], 65);
    assert!(s.b[1..].iter().all(|&x| x == 0));
}

#[test]
fn derivation_requires_sealed_state() {
    let state = IssuerState::Empty;
    let r = derive_user_key(&state, b"user");
    assert!(matches!(r, Err(KeyServiceError::NotReady)));
}
