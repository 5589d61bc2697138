//! Wire codec for delegated signature data.
//!
//! A delegated signer hands its evidence over as one blob: a self-describing,
//! length-prefixed encoding of two fields in fixed order — the exact message
//! that was signed (variable length) and the raw 64-byte signature. Decoding
//! success only proves shape; the verifier still validates every field length
//! and byte range before trusting the message.

use vstd::prelude::*;
use crate::bytes::copy_range;
use crate::errors::AuthError;

verus! {

/// Length of a raw signature, in bytes.
pub const SIG_LEN: usize = 64;

/// Signature data for the delegated Ed25519 scheme: the message the signer
/// actually signed, and the signature over it.
pub struct Ed25519SigData {
    /// The exact bytes that were signed (prefix plus hex of the payload, when
    /// the signer is honest — validated elsewhere, never assumed).
    pub prefixed_message: Vec<u8>,
    /// The raw 64-byte signature.
    pub signature: Vec<u8>,
}

impl Ed25519SigData {
    /// Shape of well-formed signature data: the signature is exactly 64 bytes
    /// and the message short enough for its length to ride in the 4-byte
    /// prefix.
    pub open spec fn wf(&self) -> bool {
        &&& self.signature@.len() == SIG_LEN
        &&& self.prefixed_message@.len() <= u32::MAX
    }
}

/// The 4-byte big-endian encoding of `n`.
pub open spec fn u32_be(n: u32) -> Seq<u8> {
    seq![
        (n / 0x1000000) as u8,
        ((n / 0x10000) % 256) as u8,
        ((n / 256) % 256) as u8,
        (n % 256) as u8,
    ]
}

/// The value a 4-byte big-endian prefix stands for.
pub open spec fn be_value(s: Seq<u8>) -> int
    recommends
        s.len() == 4,
{
    0x1000000 * (s[0] as int) + 0x10000 * (s[1] as int) + 256 * (s[2] as int) + (s[3] as int)
}

/// The wire encoding: big-endian length of the message, the message, then the
/// 64-byte signature.
pub open spec fn encode_spec(msg: Seq<u8>, sig: Seq<u8>) -> Seq<u8> {
    u32_be(msg.len() as u32) + msg + sig
}

/// Whether `blob` is a well-shaped encoding: long enough to hold the length
/// prefix and the signature, with the declared message length matching what
/// the blob actually carries.
pub open spec fn well_shaped(blob: Seq<u8>) -> bool {
    &&& blob.len() >= 4 + SIG_LEN
    &&& be_value(blob.subrange(0, 4)) == blob.len() - 4 - SIG_LEN
}

/// The message field of a well-shaped blob.
pub open spec fn decoded_message(blob: Seq<u8>) -> Seq<u8> {
    blob.subrange(4, blob.len() - SIG_LEN)
}

/// The signature field of a well-shaped blob.
pub open spec fn decoded_signature(blob: Seq<u8>) -> Seq<u8> {
    blob.subrange(blob.len() - SIG_LEN, blob.len() as int)
}

/// Encodes signature data into its wire form.
pub fn encode(d: &Ed25519SigData) -> (r: Vec<u8>)
    requires
        d.wf(),
    ensures
        r@ == encode_spec(d.prefixed_message@, d.signature@),
{
    let n: u32 = d.prefixed_message.len() as u32;
    let mut out: Vec<u8> = Vec::new();
    out.push((n / 0x1000000) as u8);
    out.push(((n / 0x10000) % 256) as u8);
    out.push(((n / 256) % 256) as u8);
    out.push((n % 256) as u8);
    let mut msg = copy_range(&d.prefixed_message, 0, d.prefixed_message.len());
    let mut sig = copy_range(&d.signature, 0, d.signature.len());
    out.append(&mut msg);
    out.append(&mut sig);
    proof {
        assert(d.prefixed_message@.subrange(0, d.prefixed_message@.len() as int)
            =~= d.prefixed_message@);
        assert(d.signature@.subrange(0, d.signature@.len() as int) =~= d.signature@);
        assert(out@ =~= encode_spec(d.prefixed_message@, d.signature@));
    }
    out
}

/// Decodes a wire blob into signature data.
///
/// Returns `Ok` exactly when the blob is well shaped; every malformed blob is
/// rejected with `MalformedSignatureData`.
pub fn decode(blob: &Vec<u8>) -> (r: Result<Ed25519SigData, AuthError>)
    ensures
        r is Ok <==> well_shaped(blob@),
        r is Ok ==> r->Ok_0.prefixed_message@ == decoded_message(blob@),
        r is Ok ==> r->Ok_0.signature@ == decoded_signature(blob@),
        r is Ok ==> r->Ok_0.wf(),
        r is Err ==> r->Err_0 == AuthError::MalformedSignatureData,
{
    if blob.len() < 4 + SIG_LEN {
        return Err(AuthError::MalformedSignatureData);
    }
    let b0 = blob[0];
    let b1 = blob[1];
    let b2 = blob[2];
    let b3 = blob[3];
    let declared: u64 = 0x1000000 * (b0 as u64) + 0x10000 * (b1 as u64) + 256 * (b2 as u64) + (
    b3 as u64);
    let carried: usize = blob.len() - 4 - SIG_LEN;
    proof {
        assert(declared == be_value(blob@.subrange(0, 4)));
    }
    if declared != carried as u64 {
        return Err(AuthError::MalformedSignatureData);
    }
    let msg_end = blob.len() - SIG_LEN;
    let prefixed_message = copy_range(blob, 4, msg_end);
    let signature = copy_range(blob, msg_end, blob.len());
    Ok(Ed25519SigData { prefixed_message, signature })
}

/// Law: decoding inverts encoding — a blob built from well-formed signature
/// data is well shaped and yields the same message and signature back.
pub proof fn lemma_sigdata_round_trip(msg: Seq<u8>, sig: Seq<u8>)
    requires
        msg.len() <= u32::MAX,
        sig.len() == SIG_LEN,
    ensures
        well_shaped(encode_spec(msg, sig)),
        decoded_message(encode_spec(msg, sig)) == msg,
        decoded_signature(encode_spec(msg, sig)) == sig,
{
    let blob = encode_spec(msg, sig);
    let n = msg.len() as u32;
    assert(blob.subrange(0, 4) =~= u32_be(n));
    assert((0x1000000 * ((n / 0x1000000) as u64) + 0x10000 * (((n / 0x10000) % 256) as u64) + 256
        * (((n / 256) % 256) as u64) + ((n % 256) as u64)) == n as u64) by (bit_vector);
    assert(be_value(u32_be(n)) == n);
    assert(decoded_message(blob) =~= msg);
    assert(decoded_signature(blob) =~= sig);
}

} // verus!
