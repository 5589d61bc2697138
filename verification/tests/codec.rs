//! Tests for the hex codec, the message reconstructor and the signature-data
//! wire codec.

use smart_account_auth::hex::{hex_decode, hex_encode};
use smart_account_auth::message::{auth_prefix_bytes, reconstruct};
use smart_account_auth::sigdata::{decode, encode, Ed25519SigData};
use smart_account_auth::AuthError;

const AUTH_PREFIX: &[u8] = b"Stellar Smart Account Auth:\n";

#[test]
fn hex_encode_doubles_length() {
    for n in [0usize, 1, 7, 32, 100] {
        let src: Vec<u8> = (0..n).map(|i| (i * 37) as u8).collect();
        let out = hex_encode(&src);
        assert_eq!(out.len(), 2 * n);
    }
}

#[test]
fn hex_encode_exact_values() {
    let out = hex_encode(&vec![0x00, 0x01, 0x0f, 0x10, 0xab, 0xff]);
    assert_eq!(out, b"00010f10abff".to_vec());
}

#[test]
fn hex_encode_of_ones_payload() {
    let out = hex_encode(&vec![1u8; 32]);
    let expected: Vec<u8> = b"01".repeat(32);
    assert_eq!(out.len(), 64);
    assert_eq!(out, expected);
}

#[test]
fn hex_round_trip() {
    for n in [0usize, 1, 5, 32, 200] {
        let src: Vec<u8> = (0..n).map(|i| (255 - i % 256) as u8).collect();
        let back = hex_decode(&hex_encode(&src)).expect("encoded hex must decode");
        assert_eq!(back, src);
    }
}

#[test]
fn hex_decode_rejects_odd_length() {
    assert!(hex_decode(&b"abc".to_vec()).is_none());
}

#[test]
fn hex_decode_rejects_bad_digit() {
    assert!(hex_decode(&b"0g".to_vec()).is_none());
    assert!(hex_decode(&b"AB".to_vec()).is_none());
}

#[test]
fn prefix_is_the_fixed_text() {
    let p = auth_prefix_bytes();
    assert_eq!(p.len(), 28);
    assert_eq!(p, AUTH_PREFIX.to_vec());
}

#[test]
fn reconstruct_shape() {
    let payload = vec![1u8; 32];
    let msg = reconstruct(&payload);
    assert_eq!(msg.len(), 92);
    assert_eq!(&msg[0..28], AUTH_PREFIX);
    assert_eq!(msg[28..92].to_vec(), hex_encode(&payload));
}

#[test]
fn sigdata_round_trip() {
    let d = Ed25519SigData { prefixed_message: vec![7u8; 92], signature: vec![9u8; 64] };
    let blob = encode(&d);
    assert_eq!(blob.len(), 4 + 92 + 64);
    let back = decode(&blob).expect("encoded signature data must decode");
    assert_eq!(back.prefixed_message, vec![7u8; 92]);
    assert_eq!(back.signature, vec![9u8; 64]);
}

#[test]
fn sigdata_decode_rejects_short_blob() {
    match decode(&vec![0u8; 10]) {
        Err(e) => assert_eq!(e, AuthError::MalformedSignatureData),
        Ok(_) => panic!("a short blob must not decode"),
    }
}

#[test]
fn sigdata_decode_rejects_wrong_declared_length() {
    let d = Ed25519SigData { prefixed_message: vec![7u8; 92], signature: vec![9u8; 64] };
    let mut blob = encode(&d);
    blob[3] = blob[3].wrapping_add(1);
    assert!(decode(&blob).is_err());
}

#[test]
fn sigdata_decode_rejects_truncation() {
    let d = Ed25519SigData { prefixed_message: vec![7u8; 92], signature: vec![9u8; 64] };
    let mut blob = encode(&d);
    blob.pop();
    assert!(decode(&blob).is_err());
}
