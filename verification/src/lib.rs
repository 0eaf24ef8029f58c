//! Cryptographic core of a threshold-issued anonymous-credential service.
//!
//! A trusted dealer Shamir-shares an issuer secret over a pairing-friendly
//! curve and publishes per-share commitments; an issuer seals its key
//! store exactly once, either by receiving a dealt share or by standalone
//! self-keygen; a zero-knowledge proof verifier binds an identity
//! provider's token to each user-key request; and, once a request
//! verifies, a deterministic derivation combines the issuer secret with
//! the subject's identity scalar into the user's credential key pair.
//!
//! Group elements and scalars are carried everywhere as their canonical
//! compressed encodings, and every contract is stated over the integer
//! values those bytes denote; the curve libraries' operations stand behind
//! trusted wrappers with exact contracts.

pub mod bn;
pub mod codec;
pub mod dealer;
pub mod group;
pub mod issuer;
pub mod jwt_verifier;
pub mod modulus;
pub mod proofenc;
pub mod scalar;
pub mod service;
