//! Tests for the delegated verifier dispatch, with real Ed25519 signatures.

use ed25519_dalek::Signer as _;
use smart_account_auth::hex::hex_encode;
use smart_account_auth::sigdata::{encode, Ed25519SigData};
use smart_account_auth::{AuthError, Ed25519Verifier};

const AUTH_PREFIX: &[u8] = b"Stellar Smart Account Auth:\n";

fn keypair(seed: u8) -> (ed25519_dalek::SigningKey, Vec<u8>) {
    let sk = ed25519_dalek::SigningKey::from_bytes(&[seed; 32]);
    let pk = sk.verifying_key().to_bytes().to_vec();
    (sk, pk)
}

fn prefixed_message(payload: &[u8; 32]) -> Vec<u8> {
    let mut msg = AUTH_PREFIX.to_vec();
    msg.extend_from_slice(&hex_encode(&payload.to_vec()));
    msg
}

fn sig_blob(message: &[u8], sk: &ed25519_dalek::SigningKey) -> Vec<u8> {
    let signature = sk.sign(message).to_bytes().to_vec();
    encode(&Ed25519SigData { prefixed_message: message.to_vec(), signature })
}

#[test]
fn test_verify_valid_signature() {
    let (sk, pk) = keypair(11);
    let payload = [1u8; 32];
    let blob = sig_blob(&prefixed_message(&payload), &sk);
    let result = Ed25519Verifier::verify(&payload.to_vec(), &pk, &blob);
    assert!(result.is_ok());
}

#[test]
fn test_verify_invalid_prefix() {
    let (sk, pk) = keypair(12);
    let payload = [1u8; 32];
    let mut msg = b"Wrong Prefix:\n".to_vec();
    msg.extend_from_slice(&hex_encode(&payload.to_vec()));
    let blob = sig_blob(&msg, &sk);
    // The wrong prefix is shorter than the real one, so the message misses
    // the required 92 bytes before the prefix bytes are ever compared.
    assert_eq!(
        Ed25519Verifier::verify(&payload.to_vec(), &pk, &blob),
        Err(AuthError::InvalidMessageLength)
    );
}

#[test]
fn test_verify_altered_prefix() {
    let (sk, pk) = keypair(13);
    let payload = [1u8; 32];
    let mut msg = prefixed_message(&payload);
    msg[0] = b'X';
    let blob = sig_blob(&msg, &sk);
    assert_eq!(
        Ed25519Verifier::verify(&payload.to_vec(), &pk, &blob),
        Err(AuthError::PrefixMismatch)
    );
}

#[test]
fn test_verify_wrong_payload() {
    let (sk, pk) = keypair(14);
    let blob = sig_blob(&prefixed_message(&[1u8; 32]), &sk);
    assert_eq!(
        Ed25519Verifier::verify(&vec![2u8; 32], &pk, &blob),
        Err(AuthError::PayloadMismatch)
    );
}

#[test]
fn test_verify_wrong_signature() {
    let (_sk, pk) = keypair(15);
    let payload = [3u8; 32];
    let blob = encode(&Ed25519SigData {
        prefixed_message: prefixed_message(&payload),
        signature: vec![0u8; 64],
    });
    assert_eq!(
        Ed25519Verifier::verify(&payload.to_vec(), &pk, &blob),
        Err(AuthError::SignatureInvalid)
    );
}

#[test]
fn test_verify_wrong_key() {
    let (sk, _pk) = keypair(16);
    let (_other_sk, other_pk) = keypair(17);
    let payload = [4u8; 32];
    let blob = sig_blob(&prefixed_message(&payload), &sk);
    assert_eq!(
        Ed25519Verifier::verify(&payload.to_vec(), &other_pk, &blob),
        Err(AuthError::SignatureInvalid)
    );
}

#[test]
fn test_verify_bad_key_length() {
    let (sk, _pk) = keypair(18);
    let payload = [5u8; 32];
    let blob = sig_blob(&prefixed_message(&payload), &sk);
    assert_eq!(
        Ed25519Verifier::verify(&payload.to_vec(), &vec![7u8; 31], &blob),
        Err(AuthError::InvalidKeyLength)
    );
}

#[test]
fn test_verify_truncated_message() {
    let (sk, pk) = keypair(19);
    let payload = [6u8; 32];
    let mut msg = prefixed_message(&payload);
    msg.pop();
    let blob = sig_blob(&msg, &sk);
    assert_eq!(
        Ed25519Verifier::verify(&payload.to_vec(), &pk, &blob),
        Err(AuthError::InvalidMessageLength)
    );
}

#[test]
fn test_verify_malformed_blob() {
    let (_sk, pk) = keypair(20);
    assert_eq!(
        Ed25519Verifier::verify(&vec![1u8; 32], &pk, &vec![0u8; 3]),
        Err(AuthError::MalformedSignatureData)
    );
}
