//! Verifier dispatch for the delegated Ed25519 scheme.
//!
//! Given the payload hash, the signer's key material and the signature blob,
//! the dispatch decodes the blob, pins the signed message to the exact
//! expected derivation (prefix plus hex of the payload), and only then asks
//! the cryptographic primitive about the signature. Every gate fails closed
//! with its own error; a caller-supplied message is never taken at face
//! value, so a valid signature over an unrelated message proves nothing.

use vstd::prelude::*;
use crate::bytes::range_eq;
use crate::errors::AuthError;
use crate::hex::{hex_of, hex_encode};
use crate::message::{auth_prefix, auth_prefix_bytes, reconstruct_spec, lemma_reconstruct_shape};
use crate::message::{PREFIX_LEN, PAYLOAD_LEN, TOTAL_LEN};
use crate::sigdata;

verus! {

/// Whether the Ed25519 primitive accepts `signature` over `message` under
/// the 32-byte `public_key`: the key parses as a curve point and the
/// signature equation holds. A function of the three arguments alone.
pub uninterp spec fn ed25519_valid(public_key: Seq<u8>, message: Seq<u8>, signature: Seq<u8>) -> bool;

/// Relies on `ed25519_dalek::VerifyingKey::from_bytes` and
/// `ed25519_dalek::Verifier::verify` (for `VerifyingKey`): returns whether
/// the key decodes and the signature verifies over the message — a
/// deterministic function of the three arguments, named `ed25519_valid`.
#[verifier::external_body]
pub(crate) fn ed25519_verify_bytes(public_key: &Vec<u8>, message: &Vec<u8>, signature: &Vec<u8>) -> (r:
    bool)
    requires
        public_key@.len() == 32,
        signature@.len() == 64,
    ensures
        r == ed25519_valid(public_key@, message@, signature@),
{
    let pk: [u8; 32] = public_key.as_slice().try_into().unwrap();
    let sg: [u8; 64] = signature.as_slice().try_into().unwrap();
    match ed25519_dalek::VerifyingKey::from_bytes(&pk) {
        Ok(vk) => {
            let sig = ed25519_dalek::Signature::from_bytes(&sg);
            ed25519_dalek::Verifier::verify(&vk, message.as_slice(), &sig).is_ok()
        },
        Err(_) => false,
    }
}

/// The outcome of the dispatch, gate by gate in order: blob shape, key
/// length, message length, prefix, hex of the payload, and only then the
/// cryptographic primitive.
pub open spec fn dispatch_outcome(payload: Seq<u8>, key_data: Seq<u8>, blob: Seq<u8>) -> Result<
    (),
    AuthError,
> {
    if !sigdata::well_shaped(blob) {
        Err(AuthError::MalformedSignatureData)
    } else if key_data.len() != 32 {
        Err(AuthError::InvalidKeyLength)
    } else {
        let msg = sigdata::decoded_message(blob);
        let sig = sigdata::decoded_signature(blob);
        if msg.len() != TOTAL_LEN {
            Err(AuthError::InvalidMessageLength)
        } else if msg.subrange(0, PREFIX_LEN as int) != auth_prefix() {
            Err(AuthError::PrefixMismatch)
        } else if msg.subrange(PREFIX_LEN as int, TOTAL_LEN as int) != hex_of(payload) {
            Err(AuthError::PayloadMismatch)
        } else if !ed25519_valid(key_data, msg, sig) {
            Err(AuthError::SignatureInvalid)
        } else {
            Ok(())
        }
    }
}

/// The delegated Ed25519 verifier.
pub struct Ed25519Verifier;

impl Ed25519Verifier {
    /// Verifies a delegated signature against the payload hash.
    ///
    /// Decodes `sig_data`, validates the key length, then pins the signed
    /// message to `prefix || hex(payload)` byte for byte before invoking the
    /// cryptographic primitive; each gate aborts with its own error.
    pub fn verify(payload: &Vec<u8>, key_data: &Vec<u8>, sig_data: &Vec<u8>) -> (r: Result<
        (),
        AuthError,
    >)
        requires
            payload@.len() == PAYLOAD_LEN,
        ensures
            r == dispatch_outcome(payload@, key_data@, sig_data@),
    {
        let d = match sigdata::decode(sig_data) {
            Ok(d) => d,
            Err(e) => {
                return Err(e);
            },
        };
        if key_data.len() != 32 {
            return Err(AuthError::InvalidKeyLength);
        }
        if d.prefixed_message.len() != TOTAL_LEN {
            return Err(AuthError::InvalidMessageLength);
        }
        let prefix = auth_prefix_bytes();
        if !range_eq(&d.prefixed_message, 0, &prefix) {
            return Err(AuthError::PrefixMismatch);
        }
        let expected_hex = hex_encode(payload);
        if !range_eq(&d.prefixed_message, PREFIX_LEN, &expected_hex) {
            return Err(AuthError::PayloadMismatch);
        }
        if !ed25519_verify_bytes(key_data, &d.prefixed_message, &d.signature) {
            return Err(AuthError::SignatureInvalid);
        }
        Ok(())
    }
}

/// Law: a signature the primitive accepts over the reconstructed message for
/// `h` passes the dispatch when invoked with payload `h` and that key.
pub proof fn lemma_dispatch_accepts(h: Seq<u8>, key: Seq<u8>, sig: Seq<u8>)
    requires
        h.len() == PAYLOAD_LEN,
        key.len() == 32,
        sig.len() == sigdata::SIG_LEN,
        ed25519_valid(key, reconstruct_spec(h), sig),
    ensures
        dispatch_outcome(h, key, sigdata::encode_spec(reconstruct_spec(h), sig)) == Ok::<
            (),
            AuthError,
        >(()),
{
    let msg = reconstruct_spec(h);
    lemma_reconstruct_shape(h);
    sigdata::lemma_sigdata_round_trip(msg, sig);
}

/// Law: evidence built over the reconstructed message for `h` is rejected
/// with `PayloadMismatch` when dispatched with any other 32-byte payload,
/// whatever the signature.
pub proof fn lemma_dispatch_rejects_other_payload(h: Seq<u8>, other: Seq<u8>, key: Seq<u8>, sig: Seq<u8>)
    requires
        h.len() == PAYLOAD_LEN,
        other.len() == PAYLOAD_LEN,
        h != other,
        key.len() == 32,
        sig.len() == sigdata::SIG_LEN,
    ensures
        dispatch_outcome(other, key, sigdata::encode_spec(reconstruct_spec(h), sig)) == Err::<
            (),
            AuthError,
        >(AuthError::PayloadMismatch),
{
    let msg = reconstruct_spec(h);
    lemma_reconstruct_shape(h);
    sigdata::lemma_sigdata_round_trip(msg, sig);
    if msg.subrange(PREFIX_LEN as int, TOTAL_LEN as int) == hex_of(other) {
        crate::hex::lemma_hex_injective(h, other);
    }
}

/// Law: a signature the primitive does not accept over the reconstructed
/// message — corrupted, or made under a different key than the one handed to
/// the dispatch — is rejected with `SignatureInvalid`.
pub proof fn lemma_dispatch_rejects_bad_signature(h: Seq<u8>, key: Seq<u8>, sig: Seq<u8>)
    requires
        h.len() == PAYLOAD_LEN,
        key.len() == 32,
        sig.len() == sigdata::SIG_LEN,
        !ed25519_valid(key, reconstruct_spec(h), sig),
    ensures
        dispatch_outcome(h, key, sigdata::encode_spec(reconstruct_spec(h), sig)) == Err::<
            (),
            AuthError,
        >(AuthError::SignatureInvalid),
{
    let msg = reconstruct_spec(h);
    lemma_reconstruct_shape(h);
    sigdata::lemma_sigdata_round_trip(msg, sig);
}

/// Law: a message whose first 28 bytes are not the fixed prefix is rejected
/// with `PrefixMismatch`, before the primitive is ever consulted.
pub proof fn lemma_dispatch_rejects_altered_prefix(h: Seq<u8>, msg: Seq<u8>, key: Seq<u8>, sig: Seq<u8>)
    requires
        h.len() == PAYLOAD_LEN,
        key.len() == 32,
        sig.len() == sigdata::SIG_LEN,
        msg.len() == TOTAL_LEN,
        msg.subrange(0, PREFIX_LEN as int) != auth_prefix(),
    ensures
        dispatch_outcome(h, key, sigdata::encode_spec(msg, sig)) == Err::<(), AuthError>(
            AuthError::PrefixMismatch,
        ),
{
    sigdata::lemma_sigdata_round_trip(msg, sig);
}

/// Law: a truncated or extended message — any length other than 92 — is
/// rejected with `InvalidMessageLength`.
pub proof fn lemma_dispatch_rejects_wrong_length(h: Seq<u8>, msg: Seq<u8>, key: Seq<u8>, sig: Seq<u8>)
    requires
        h.len() == PAYLOAD_LEN,
        key.len() == 32,
        sig.len() == sigdata::SIG_LEN,
        msg.len() <= u32::MAX,
        msg.len() != TOTAL_LEN,
    ensures
        dispatch_outcome(h, key, sigdata::encode_spec(msg, sig)) == Err::<(), AuthError>(
            AuthError::InvalidMessageLength,
        ),
{
    sigdata::lemma_sigdata_round_trip(msg, sig);
}

} // verus!
