//! Tests for the context-rule registry and the authorization check.

use ed25519_dalek::Signer as _;
use smart_account_auth::auth::{SigEntry, Signatures};
use smart_account_auth::hex::hex_encode;
use smart_account_auth::sigdata::{encode, Ed25519SigData};
use smart_account_auth::{
    confirm_policies, AuthError, ContextRuleType, PhantomSmartAccount, Policy, Signer,
};

const AUTH_PREFIX: &[u8] = b"Stellar Smart Account Auth:\n";

fn keypair(seed: u8) -> (ed25519_dalek::SigningKey, Vec<u8>) {
    let sk = ed25519_dalek::SigningKey::from_bytes(&[seed; 32]);
    let pk = sk.verifying_key().to_bytes().to_vec();
    (sk, pk)
}

fn native_rule(
    account: &mut PhantomSmartAccount,
    scope: ContextRuleType,
    keys: &[Vec<u8>],
    valid_until: Option<u32>,
) -> u32 {
    let signers: Vec<Signer> = keys.iter().map(|k| Signer::Native(k.clone())).collect();
    let rule = account
        .add_context_rule(scope, b"rule".to_vec(), valid_until, signers, Vec::new())
        .expect("adding a rule with distinct signers must succeed");
    rule.id
}

fn native_proof(payload: &[u8; 32], sk: &ed25519_dalek::SigningKey) -> Vec<u8> {
    sk.sign(payload).to_bytes().to_vec()
}

#[test]
fn test_add_rule_empty_signer_set() {
    let mut account = PhantomSmartAccount::new();
    let r = account.add_context_rule(
        ContextRuleType::Account,
        b"none".to_vec(),
        None,
        Vec::new(),
        Vec::new(),
    );
    match r {
        Err(e) => assert_eq!(e, AuthError::EmptySignerSet),
        Ok(_) => panic!("an empty signer set must be rejected"),
    }
    assert_eq!(account.get_context_rules_count(), 0);
}

#[test]
fn test_add_rule_duplicate_signer_in_set() {
    let mut account = PhantomSmartAccount::new();
    let (_sk, pk) = keypair(21);
    let signers = vec![Signer::Native(pk.clone()), Signer::Native(pk)];
    match account.add_context_rule(
        ContextRuleType::Account,
        b"dup".to_vec(),
        None,
        signers,
        Vec::new(),
    ) {
        Err(e) => assert_eq!(e, AuthError::DuplicateSigner),
        Ok(_) => panic!("a duplicated signer must be rejected"),
    }
}

#[test]
fn test_remove_rule_then_get_fails() {
    let mut account = PhantomSmartAccount::new();
    let (_sk, pk) = keypair(22);
    let id = native_rule(&mut account, ContextRuleType::Account, &[pk], None);
    assert!(account.get_context_rule(id).is_ok());
    account.remove_context_rule(id).expect("the rule exists");
    match account.get_context_rule(id) {
        Err(e) => assert_eq!(e, AuthError::RuleNotFound),
        Ok(_) => panic!("a removed rule must not be found"),
    }
    match account.remove_context_rule(id) {
        Err(e) => assert_eq!(e, AuthError::RuleNotFound),
        Ok(_) => panic!("a removed rule must not be removable twice"),
    }
}

#[test]
fn test_add_same_signer_twice_fails() {
    let mut account = PhantomSmartAccount::new();
    let (_sk, pk) = keypair(23);
    let id = native_rule(&mut account, ContextRuleType::Account, &[pk.clone()], None);
    match account.add_signer(id, Signer::Native(pk)) {
        Err(e) => assert_eq!(e, AuthError::DuplicateSigner),
        Ok(_) => panic!("adding the same signer twice must fail"),
    }
}

#[test]
fn test_remove_signer_not_member() {
    let mut account = PhantomSmartAccount::new();
    let (_sk, pk) = keypair(24);
    let (_sk2, other) = keypair(25);
    let id = native_rule(&mut account, ContextRuleType::Account, &[pk], None);
    match account.remove_signer(id, &Signer::Native(other)) {
        Err(e) => assert_eq!(e, AuthError::SignerNotFound),
        Ok(_) => panic!("removing a non-member signer must fail"),
    }
}

#[test]
fn test_rule_lookup_and_updates() {
    let mut account = PhantomSmartAccount::new();
    let (_sk, pk) = keypair(26);
    let scope = ContextRuleType::CallContract(7);
    let id = native_rule(&mut account, scope, &[pk], None);
    assert_eq!(id, 1);
    assert_eq!(account.get_context_rules_count(), 1);

    let rule = account.get_context_rule(id).expect("the rule exists");
    assert_eq!(rule.id, id);
    assert_eq!(rule.context_type, scope);
    assert_eq!(rule.name, b"rule".to_vec());
    assert_eq!(rule.valid_until, None);

    let updated = account
        .update_context_rule_name(id, b"renamed".to_vec())
        .expect("the rule exists");
    assert_eq!(updated.name, b"renamed".to_vec());

    let updated = account
        .update_context_rule_valid_until(id, Some(99))
        .expect("the rule exists");
    assert_eq!(updated.valid_until, Some(99));

    let listed = account.get_context_rules(scope);
    assert_eq!(listed.len(), 1);
    assert_eq!(listed[0].name, b"renamed".to_vec());
    assert!(account.get_context_rules(ContextRuleType::CallContract(8)).is_empty());

    match account.update_context_rule_name(77, b"x".to_vec()) {
        Err(e) => assert_eq!(e, AuthError::RuleNotFound),
        Ok(_) => panic!("an absent id must not update"),
    }
}

#[test]
fn test_policy_mapping() {
    let mut account = PhantomSmartAccount::new();
    let (_sk, pk) = keypair(27);
    let id = native_rule(&mut account, ContextRuleType::Account, &[pk], None);
    account.add_policy(id, 500, 1).expect("the rule exists");
    account.add_policy(id, 501, 2).expect("the rule exists");
    // Installing the same policy again replaces its parameter.
    account.add_policy(id, 500, 9).expect("the rule exists");
    let rule = account.get_context_rule(id).expect("the rule exists");
    assert_eq!(rule.policies.len(), 2);
    assert_eq!(rule.policies[0], Policy { address: 500, install_param: 9 });
    assert_eq!(rule.policies[1], Policy { address: 501, install_param: 2 });
    account.remove_policy(id, 500).expect("the rule exists");
    let rule = account.get_context_rule(id).expect("the rule exists");
    assert_eq!(rule.policies.len(), 1);
    match account.add_policy(42, 500, 1) {
        Err(e) => assert_eq!(e, AuthError::RuleNotFound),
        Ok(_) => panic!("an absent rule must not take a policy"),
    }
}

#[test]
fn test_two_signers_one_proof_missing() {
    let mut account = PhantomSmartAccount::new();
    let (sk1, pk1) = keypair(31);
    let (_sk2, pk2) = keypair(32);
    let scope = ContextRuleType::CallContract(7);
    native_rule(&mut account, scope, &[pk1.clone(), pk2], None);

    let payload = [1u8; 32];
    let signatures = Signatures {
        entries: vec![SigEntry {
            signer: Signer::Native(pk1),
            proof_data: native_proof(&payload, &sk1),
        }],
    };
    match account.__check_auth(&payload.to_vec(), &signatures, &vec![scope], 0) {
        Err(e) => assert_eq!(e, AuthError::MissingSignature),
        Ok(_) => panic!("a missing proof must fail the attempt"),
    }
}

#[test]
fn test_two_signers_both_proofs_verify() {
    let mut account = PhantomSmartAccount::new();
    let (sk1, pk1) = keypair(33);
    let (sk2, pk2) = keypair(34);
    let scope = ContextRuleType::CallContract(7);
    native_rule(&mut account, scope, &[pk1.clone(), pk2.clone()], None);

    let payload = [1u8; 32];
    let signatures = Signatures {
        entries: vec![
            SigEntry { signer: Signer::Native(pk1), proof_data: native_proof(&payload, &sk1) },
            SigEntry { signer: Signer::Native(pk2), proof_data: native_proof(&payload, &sk2) },
        ],
    };
    let calls = account
        .__check_auth(&payload.to_vec(), &signatures, &vec![scope], 0)
        .expect("both proofs are valid");
    assert!(calls.is_empty());
}

#[test]
fn test_corrupted_native_proof_fails() {
    let mut account = PhantomSmartAccount::new();
    let (sk1, pk1) = keypair(35);
    let scope = ContextRuleType::CallContract(7);
    native_rule(&mut account, scope, &[pk1.clone()], None);

    let payload = [1u8; 32];
    let mut proof = native_proof(&payload, &sk1);
    proof[0] = proof[0].wrapping_add(1);
    let signatures = Signatures {
        entries: vec![SigEntry { signer: Signer::Native(pk1), proof_data: proof }],
    };
    match account.__check_auth(&payload.to_vec(), &signatures, &vec![scope], 0) {
        Err(e) => assert_eq!(e, AuthError::SignatureInvalid),
        Ok(_) => panic!("a corrupted proof must fail the attempt"),
    }
}

#[test]
fn test_expired_rule_is_no_matching_rule() {
    let mut account = PhantomSmartAccount::new();
    let (sk1, pk1) = keypair(36);
    let scope = ContextRuleType::CallContract(7);
    native_rule(&mut account, scope, &[pk1.clone()], Some(5));

    let payload = [1u8; 32];
    let signatures = Signatures {
        entries: vec![SigEntry {
            signer: Signer::Native(pk1),
            proof_data: native_proof(&payload, &sk1),
        }],
    };
    // Within the expiry the rule is live; after it the rule counts as absent.
    assert!(account.__check_auth(&payload.to_vec(), &signatures, &vec![scope], 5).is_ok());
    match account.__check_auth(&payload.to_vec(), &signatures, &vec![scope], 10) {
        Err(e) => assert_eq!(e, AuthError::NoMatchingRule),
        Ok(_) => panic!("an expired rule must count as absent"),
    }
}

#[test]
fn test_no_rule_for_scope() {
    let account = PhantomSmartAccount::new();
    let signatures = Signatures { entries: Vec::new() };
    match account.__check_auth(
        &vec![1u8; 32],
        &signatures,
        &vec![ContextRuleType::CallContract(7)],
        0,
    ) {
        Err(e) => assert_eq!(e, AuthError::NoMatchingRule),
        Ok(_) => panic!("an unruled scope must not authorize"),
    }
}

#[test]
fn test_end_to_end_phantom_flow() {
    let mut account = PhantomSmartAccount::new();
    let (sk, pk) = keypair(41);
    account.initialize(9, pk.clone(), 7);
    assert_eq!(account.get_context_rules_count(), 1);
    let rule = account.get_context_rule(1).expect("initialization registered rule 1");
    assert_eq!(rule.name, b"phantom-signer".to_vec());

    // The wallet signs the readable text: prefix, then 64 hex digits — for
    // the all-ones payload, 32 "01" pairs.
    let payload = [1u8; 32];
    let hex = hex_encode(&payload.to_vec());
    assert_eq!(hex, b"01".repeat(32));
    let mut message = AUTH_PREFIX.to_vec();
    message.extend_from_slice(&hex);
    let signature = sk.sign(&message).to_bytes().to_vec();
    let blob = encode(&Ed25519SigData { prefixed_message: message, signature });

    let signatures = Signatures {
        entries: vec![SigEntry { signer: Signer::External(9, pk), proof_data: blob }],
    };
    let scope = vec![ContextRuleType::CallContract(7)];
    let calls = account
        .__check_auth(&payload.to_vec(), &signatures, &scope, 0)
        .expect("the delegated proof is valid");
    assert!(calls.is_empty());

    match account.__check_auth(&vec![2u8; 32], &signatures, &scope, 0) {
        Err(e) => assert_eq!(e, AuthError::PayloadMismatch),
        Ok(_) => panic!("the same evidence must not authorize another payload"),
    }
}

#[test]
fn test_policy_calls_and_confirmation() {
    let mut account = PhantomSmartAccount::new();
    let (sk1, pk1) = keypair(42);
    let scope = ContextRuleType::CallContract(7);
    let id = native_rule(&mut account, scope, &[pk1.clone()], None);
    account.add_policy(id, 500, 77).expect("the rule exists");

    let payload = [1u8; 32];
    let signatures = Signatures {
        entries: vec![SigEntry {
            signer: Signer::Native(pk1),
            proof_data: native_proof(&payload, &sk1),
        }],
    };
    let calls = account
        .__check_auth(&payload.to_vec(), &signatures, &vec![scope], 0)
        .expect("the proof is valid");
    assert_eq!(calls.len(), 1);
    assert_eq!(calls[0].context_rule_id, id);
    assert_eq!(calls[0].policy, 500);
    assert_eq!(calls[0].install_param, 77);

    assert!(confirm_policies(&vec![true]).is_ok());
    assert_eq!(confirm_policies(&vec![true, false]), Err(AuthError::PolicyRejected));
}
