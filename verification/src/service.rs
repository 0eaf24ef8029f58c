//! The gated issuance operation: authorize a user-key request by proof
//! verification, then derive the credential key pair from sealed issuer
//! state.
//!
//! Fail-closed at every step: an unsealed store is a precondition error,
//! and any verification failure, decode error included, is an
//! authorization error; only a request the verifier's contract accepts,
//! whose combined scalar is invertible, is answered.

use vstd::prelude::*;

verus! {

use crate::issuer::derive_user_key;
use crate::issuer::derived_response;
use crate::issuer::subject_scalar;
use crate::issuer::GenerateKeyResponse;
use crate::issuer::IssuerState;
use crate::issuer::KeyServiceError;
use crate::jwt_verifier::request_accepted;
use crate::jwt_verifier::Jwk;
use crate::jwt_verifier::Verifier;
use crate::scalar::fr_order;

/// Whether a sealed state and verified subject yield a key pair: the
/// combined scalar must be invertible, which fails only on the exact
/// collision of the subject scalar with the negated issuer secret.
pub open spec fn derivable(state: IssuerState, sub: Seq<u8>) -> bool {
    (subject_scalar(sub) + state.secret_val()) % fr_order() != 0
}

/// Serve one user-key request: require sealed state, verify the proof
/// against the subject and key id, and derive the user's key pair.  The
/// response is owed exactly when the state is sealed, the verifier's
/// contract accepts the request, and the combined scalar is invertible;
/// the two error outcomes are distinct.
pub fn generate_user_key(
    state: &IssuerState,
    ver: &Verifier,
    keys: &Vec<Jwk>,
    user_id: &[u8],
    kid: &[u8],
    proof_b64: &str,
) -> (r: Result<GenerateKeyResponse, KeyServiceError>)
    requires
        state.wf(),
        ver.wf(),
    ensures
        !state.sealed() ==> (r matches Err(e) && e is NotReady),
        state.sealed() && !(request_accepted(ver.vk, keys@, user_id@, kid@, proof_b64@)
            && derivable(*state, user_id@)) ==> (r matches Err(e) && e is Unauthorized),
        (r is Ok) <==> (state.sealed() && request_accepted(ver.vk, keys@, user_id@, kid@,
            proof_b64@) && derivable(*state, user_id@)),
        r matches Ok(resp) ==> derived_response(*state, user_id@, resp),
        r matches Ok(resp) ==> resp.usk@.len() == 96 && resp.usk_hat@.len() == 192 && (state
            is SealedSelf ==> resp.ivk@.len() == 768) && (state is SealedShare ==> resp.ivk@.len()
            == 384),
{
    if !state_is_sealed(state) {
        return Err(KeyServiceError::NotReady);
    }
    let verified = match ver.verify(keys, user_id, kid, proof_b64) {
        Ok(v) => v,
        Err(_) => {
            return Err(KeyServiceError::Unauthorized);
        },
    };
    if !verified {
        return Err(KeyServiceError::Unauthorized);
    }
    match derive_user_key(state, user_id) {
        Ok(resp) => Ok(resp),
        Err(_) => Err(KeyServiceError::Unauthorized),
    }
}

/// Whether the store is sealed.
pub fn state_is_sealed(state: &IssuerState) -> (r: bool)
    ensures
        r == state.sealed(),
{
    match state {
        IssuerState::Empty => false,
        _ => true,
    }
}

} // verus!
