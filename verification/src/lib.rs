//! Authorization core for a programmable smart account.
//!
//! The account's authority is a configurable set of context rules, each
//! binding a scope to the signers that may authorize actions in that scope.
//! Verification of a delegated signer goes through a byte-exact message
//! reconstruction: the signer signs a fixed textual prefix followed by the
//! lowercase hex encoding of the 32-byte authorization payload hash, and the
//! verifier recomputes that message rather than trusting the caller's claim.

pub mod account;
pub mod auth;
pub mod bytes;
pub mod counter;
pub mod dispatch;
pub mod errors;
pub mod hex;
pub mod message;
pub mod rule;
pub mod sigdata;

pub use account::PhantomSmartAccount;
pub use auth::{confirm_policies, PolicyCall, Signatures, SigEntry};
pub use counter::Counter;
pub use dispatch::Ed25519Verifier;
pub use errors::AuthError;
pub use hex::hex_encode;
pub use message::reconstruct;
pub use rule::{ContextRuleType, Policy, Signer};
pub use sigdata::Ed25519SigData;
