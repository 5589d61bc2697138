//! Reconstruction of the exact message a delegated signer signs.
//!
//! Certain signing devices refuse to sign an opaque 32-byte digest but will
//! sign readable text. The signer therefore signs a fixed textual prefix
//! followed by the lowercase hex encoding of the payload hash, and on-chain
//! verification recomputes that message rather than trusting the caller's
//! claimed message.

use vstd::prelude::*;
use crate::hex::{hex_of, hex_encode};

verus! {

/// Length of the fixed textual prefix, in bytes.
pub const PREFIX_LEN: usize = 28;

/// Length of the payload hash, in bytes.
pub const PAYLOAD_LEN: usize = 32;

/// Length of the hex encoding of the payload hash, in bytes.
pub const HEX_LEN: usize = 64;

/// Length of a reconstructed message: prefix plus hex, in bytes.
pub const TOTAL_LEN: usize = 92;

/// The 28 bytes of the fixed prefix, the ASCII text
/// `Stellar Smart Account Auth:` followed by a newline.
pub open spec fn auth_prefix() -> Seq<u8> {
    seq![
        83u8, 116u8, 101u8, 108u8, 108u8, 97u8, 114u8, 32u8,
        83u8, 109u8, 97u8, 114u8, 116u8, 32u8,
        65u8, 99u8, 99u8, 111u8, 117u8, 110u8, 116u8, 32u8,
        65u8, 117u8, 116u8, 104u8, 58u8, 10u8,
    ]
}

/// The message a well-behaved signer signs for payload hash `h`: the fixed
/// prefix followed by the lowercase hex encoding of `h`.
pub open spec fn reconstruct_spec(h: Seq<u8>) -> Seq<u8> {
    auth_prefix() + hex_of(h)
}

/// The fixed prefix as bytes.
pub fn auth_prefix_bytes() -> (r: Vec<u8>)
    ensures
        r@ == auth_prefix(),
        r@.len() == PREFIX_LEN,
{
    let mut v: Vec<u8> = Vec::new();
    v.push(83);
    v.push(116);
    v.push(101);
    v.push(108);
    v.push(108);
    v.push(97);
    v.push(114);
    v.push(32);
    v.push(83);
    v.push(109);
    v.push(97);
    v.push(114);
    v.push(116);
    v.push(32);
    v.push(65);
    v.push(99);
    v.push(99);
    v.push(111);
    v.push(117);
    v.push(110);
    v.push(116);
    v.push(32);
    v.push(65);
    v.push(117);
    v.push(116);
    v.push(104);
    v.push(58);
    v.push(10);
    proof {
        assert(v@ =~= auth_prefix());
    }
    v
}

/// Builds the message a signer is expected to have signed for `payload`:
/// the fixed 28-byte prefix followed by the 64 hex digits of the payload,
/// 92 bytes in all.
pub fn reconstruct(payload: &Vec<u8>) -> (r: Vec<u8>)
    requires
        payload@.len() == PAYLOAD_LEN,
    ensures
        r@ == reconstruct_spec(payload@),
        r@.len() == TOTAL_LEN,
{
    let mut msg = auth_prefix_bytes();
    let mut hex = hex_encode(payload);
    msg.append(&mut hex);
    proof {
        assert(msg@ =~= reconstruct_spec(payload@));
    }
    msg
}

/// Law: for every 32-byte payload hash the reconstructed message is exactly
/// 92 bytes, starts with the fixed prefix, and ends with the hex encoding of
/// the payload.
pub proof fn lemma_reconstruct_shape(h: Seq<u8>)
    requires
        h.len() == PAYLOAD_LEN,
    ensures
        reconstruct_spec(h).len() == TOTAL_LEN,
        reconstruct_spec(h).subrange(0, PREFIX_LEN as int) == auth_prefix(),
        reconstruct_spec(h).subrange(PREFIX_LEN as int, TOTAL_LEN as int) == hex_of(h),
{
    assert(reconstruct_spec(h).subrange(0, PREFIX_LEN as int) =~= auth_prefix());
    assert(reconstruct_spec(h).subrange(PREFIX_LEN as int, TOTAL_LEN as int) =~= hex_of(h));
}

/// Law: reconstruction pins the payload down — equal messages mean equal
/// payload hashes.
pub proof fn lemma_reconstruct_injective(a: Seq<u8>, b: Seq<u8>)
    requires
        a.len() == PAYLOAD_LEN,
        b.len() == PAYLOAD_LEN,
        reconstruct_spec(a) == reconstruct_spec(b),
    ensures
        a == b,
{
    lemma_reconstruct_shape(a);
    lemma_reconstruct_shape(b);
    assert(hex_of(a) == hex_of(b));
    crate::hex::lemma_hex_injective(a, b);
}

} // verus!
