//! The error taxonomy of the authorization core.
//!
//! Every error aborts the enclosing authorization attempt: none is recovered
//! or retried, and a failed attempt retains no partial state.

use vstd::prelude::*;

verus! {

/// Why an authorization attempt, a registry operation, or a signature
/// verification was rejected.
#[derive(Clone, Copy, Debug, PartialEq, Eq, Structural)]
pub enum AuthError {
    /// The delegated signature blob does not parse as signature data.
    MalformedSignatureData,
    /// The signer's key material is not exactly 32 bytes.
    InvalidKeyLength,
    /// The signed message is not exactly prefix plus hex, 92 bytes.
    InvalidMessageLength,
    /// The signed message does not start with the fixed textual prefix.
    PrefixMismatch,
    /// The hex portion of the signed message does not encode the payload hash.
    PayloadMismatch,
    /// The cryptographic primitive rejected the signature.
    SignatureInvalid,
    /// No context rule with the given id exists.
    RuleNotFound,
    /// The signer is not a member of the rule's signer set.
    SignerNotFound,
    /// The signer is already a member of the rule's signer set.
    DuplicateSigner,
    /// A context rule must be created with at least one signer.
    EmptySignerSet,
    /// No live context rule governs the requested context.
    NoMatchingRule,
    /// A required signer has no entry in the signature bundle.
    MissingSignature,
    /// An installed policy rejected the authorization.
    PolicyRejected,
}

} // verus!
