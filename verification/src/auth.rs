//! The authorization check: the account's top-level entry point.
//!
//! Given the payload hash, a bundle of signatures and the requested action
//! contexts, the check resolves the first live rule for each context, demands
//! a proof from every signer of that rule, verifies each proof — natively or
//! through the delegated verifier dispatch — and hands back the policy
//! invocations that remain to be made. Every failure aborts the whole
//! attempt, earliest check first, carrying that check's own error.

use vstd::prelude::*;
use crate::account::PhantomSmartAccount;
use crate::dispatch::{dispatch_outcome, ed25519_valid, ed25519_verify_bytes, Ed25519Verifier};
use crate::errors::AuthError;
use crate::message::PAYLOAD_LEN;
use crate::rule::{signer_eq, ContextRule, ContextRuleType, Policy, Signer, SignerModel};

verus! {

/// One entry of a signature bundle: a signer identity and the proof artifact
/// supplied for it — a raw 64-byte signature for a native signer, an encoded
/// signature-data blob for an external one.
pub struct SigEntry {
    pub signer: Signer,
    pub proof_data: Vec<u8>,
}

/// The caller-supplied evidence for one authorization attempt: a mapping
/// from signer identity to that signer's proof artifact, looked up by first
/// match.
pub struct Signatures {
    pub entries: Vec<SigEntry>,
}

/// A policy invocation the caller still owes after signer verification: the
/// rule it belongs to, the policy contract's identity, and the parameter the
/// policy was installed with.
#[derive(Clone, Copy, Debug, PartialEq, Eq, Structural)]
pub struct PolicyCall {
    pub context_rule_id: u32,
    pub policy: u64,
    pub install_param: u64,
}

/// The proof artifact the bundle supplies for signer `s`: the first entry
/// whose signer identity matches.
pub open spec fn lookup(entries: Seq<SigEntry>, s: SignerModel) -> Option<Seq<u8>>
    decreases entries.len(),
{
    if entries.len() == 0 {
        None
    } else if entries[0].signer@ == s {
        Some(entries[0].proof_data@)
    } else {
        lookup(entries.drop_first(), s)
    }
}

proof fn lemma_lookup_at(entries: Seq<SigEntry>, s: SignerModel, k: int)
    requires
        0 <= k < entries.len(),
        forall|j: int| 0 <= j < k ==> (#[trigger] entries[j]).signer@ != s,
        entries[k].signer@ == s,
    ensures
        lookup(entries, s) == Some(entries[k].proof_data@),
    decreases k,
{
    if k > 0 {
        lemma_lookup_at(entries.drop_first(), s, k - 1);
    }
}

proof fn lemma_lookup_none(entries: Seq<SigEntry>, s: SignerModel)
    requires
        forall|j: int| 0 <= j < entries.len() ==> (#[trigger] entries[j]).signer@ != s,
    ensures
        lookup(entries, s) is None,
    decreases entries.len(),
{
    if entries.len() > 0 {
        lemma_lookup_none(entries.drop_first(), s);
    }
}

/// Finds the bundle entry for signer `s`, by first match.
fn lookup_index(signatures: &Signatures, s: &Signer) -> (r: Option<usize>)
    ensures
        match r {
            Some(k) => k < signatures.entries@.len() && signatures.entries@[k as int].signer@
                == s@ && lookup(signatures.entries@, s@) == Some(
                signatures.entries@[k as int].proof_data@,
            ),
            None => lookup(signatures.entries@, s@) is None,
        },
{
    let mut k: usize = 0;
    while k < signatures.entries.len()
        invariant
            0 <= k <= signatures.entries@.len(),
            forall|j: int| 0 <= j < k ==> (#[trigger] signatures.entries@[j]).signer@ != s@,
        decreases signatures.entries@.len() - k,
    {
        if signer_eq(&signatures.entries[k].signer, s) {
            proof {
                lemma_lookup_at(signatures.entries@, s@, k as int);
            }
            return Some(k);
        }
        k = k + 1;
    }
    proof {
        lemma_lookup_none(signatures.entries@, s@);
    }
    None
}

/// The outcome of verifying one signer's proof: a native signer's key must
/// be 32 bytes and its raw signature must satisfy the primitive over the
/// payload hash itself; an external signer goes through the verifier
/// dispatch with its key material and blob.
pub open spec fn signer_outcome(s: SignerModel, payload: Seq<u8>, proof_data: Seq<u8>) -> Result<
    (),
    AuthError,
> {
    match s {
        SignerModel::Native(pk) => {
            if pk.len() != 32 {
                Err(AuthError::InvalidKeyLength)
            } else if proof_data.len() != 64 {
                Err(AuthError::SignatureInvalid)
            } else if !ed25519_valid(pk, payload, proof_data) {
                Err(AuthError::SignatureInvalid)
            } else {
                Ok(())
            }
        },
        SignerModel::External(_verifier, key) => dispatch_outcome(payload, key, proof_data),
    }
}

/// Verifies one signer's proof against the payload hash.
pub fn check_signer(payload: &Vec<u8>, s: &Signer, proof_data: &Vec<u8>) -> (r: Result<
    (),
    AuthError,
>)
    requires
        payload@.len() == PAYLOAD_LEN,
    ensures
        r == signer_outcome(s@, payload@, proof_data@),
{
    match s {
        Signer::Native(pk) => {
            if pk.len() != 32 {
                Err(AuthError::InvalidKeyLength)
            } else if proof_data.len() != 64 {
                Err(AuthError::SignatureInvalid)
            } else if !ed25519_verify_bytes(pk, payload, proof_data) {
                Err(AuthError::SignatureInvalid)
            } else {
                Ok(())
            }
        },
        Signer::External(_verifier, key) => Ed25519Verifier::verify(payload, key, proof_data),
    }
}

/// Whether every signer of the set has an entry in the bundle.
pub open spec fn all_present(signers: Seq<SignerModel>, entries: Seq<SigEntry>) -> bool {
    forall|i: int| 0 <= i < signers.len() ==> lookup(entries, #[trigger] signers[i]) is Some
}

/// The outcome of verifying a signer set in order, earliest failure first;
/// meaningful once every signer is present.
pub open spec fn verify_signers(
    signers: Seq<SignerModel>,
    payload: Seq<u8>,
    entries: Seq<SigEntry>,
) -> Result<(), AuthError>
    decreases signers.len(),
{
    if signers.len() == 0 {
        Ok(())
    } else {
        match verify_signers(signers.drop_last(), payload, entries) {
            Err(e) => Err(e),
            Ok(_) => match lookup(entries, signers.last()) {
                None => Err(AuthError::MissingSignature),
                Some(pd) => signer_outcome(signers.last(), payload, pd),
            },
        }
    }
}

/// The outcome of holding one rule's signer set against the bundle: every
/// signer must be present, then every proof must verify; an empty signer set
/// never arises here, since an empty rule is never live.
pub open spec fn rule_outcome(
    signers: Seq<SignerModel>,
    payload: Seq<u8>,
    entries: Seq<SigEntry>,
) -> Result<(), AuthError> {
    if !all_present(signers, entries) {
        Err(AuthError::MissingSignature)
    } else {
        verify_signers(signers, payload, entries)
    }
}

/// Whether a rule governs scope `t` and is live at ledger time `now`: the
/// scope matches, the expiry (if any) has not elapsed, and the signer set is
/// not empty — a rule with no signers can never authorize anything and is
/// treated as absent, failing closed.
pub open spec fn rule_live(r: ContextRule, t: ContextRuleType, now: u32) -> bool {
    &&& r.context_type == t
    &&& match r.valid_until {
        Some(v) => now <= v,
        None => true,
    }
    &&& r.signers@.len() > 0
}

/// Whether index `i` is the first live rule for scope `t`: live, with no
/// live rule registered before it. When several live rules govern one scope,
/// the earliest registered rule decides — an explicit choice, made so that
/// resolution is deterministic for a given registry state.
pub open spec fn is_first_live(rules: Seq<ContextRule>, t: ContextRuleType, now: u32, i: int) -> bool {
    &&& 0 <= i < rules.len()
    &&& rule_live(rules[i], t, now)
    &&& forall|j: int| 0 <= j < i ==> !rule_live(#[trigger] rules[j], t, now)
}

proof fn lemma_first_live_unique(rules: Seq<ContextRule>, t: ContextRuleType, now: u32, a: int, b: int)
    requires
        is_first_live(rules, t, now, a),
        is_first_live(rules, t, now, b),
    ensures
        a == b,
{
    if a < b {
        assert(!rule_live(rules[a], t, now));
    }
    if b < a {
        assert(!rule_live(rules[b], t, now));
    }
}

/// The outcome of one requested context: no live rule fails with
/// `NoMatchingRule` (an expired rule counts as absent); otherwise the first
/// live rule's signer set decides.
pub open spec fn context_outcome(
    rules: Seq<ContextRule>,
    t: ContextRuleType,
    now: u32,
    payload: Seq<u8>,
    entries: Seq<SigEntry>,
) -> Result<(), AuthError> {
    if exists|i: int| is_first_live(rules, t, now, i) {
        let i = choose|i: int| is_first_live(rules, t, now, i);
        rule_outcome(rules[i]@.signers, payload, entries)
    } else {
        Err(AuthError::NoMatchingRule)
    }
}

/// The policy invocations owed for one requested context: each policy of the
/// resolved rule, with that rule's id, in installation order.
pub open spec fn context_policies(
    rules: Seq<ContextRule>,
    t: ContextRuleType,
    now: u32,
) -> Seq<PolicyCall> {
    if exists|i: int| is_first_live(rules, t, now, i) {
        let i = choose|i: int| is_first_live(rules, t, now, i);
        rules[i]@.policies.map_values(
            |p: Policy|
                PolicyCall {
                    context_rule_id: rules[i]@.id,
                    policy: p.address,
                    install_param: p.install_param,
                },
        )
    } else {
        Seq::empty()
    }
}

/// The outcome of a whole authorization attempt: every requested context
/// must pass, and the earliest failing context's error is the attempt's.
pub open spec fn contexts_outcome(
    rules: Seq<ContextRule>,
    contexts: Seq<ContextRuleType>,
    now: u32,
    payload: Seq<u8>,
    entries: Seq<SigEntry>,
) -> Result<(), AuthError>
    decreases contexts.len(),
{
    if contexts.len() == 0 {
        Ok(())
    } else {
        match contexts_outcome(rules, contexts.drop_last(), now, payload, entries) {
            Err(e) => Err(e),
            Ok(_) => context_outcome(rules, contexts.last(), now, payload, entries),
        }
    }
}

/// The policy invocations owed for a whole attempt, context by context.
pub open spec fn pending_policies(
    rules: Seq<ContextRule>,
    contexts: Seq<ContextRuleType>,
    now: u32,
) -> Seq<PolicyCall>
    decreases contexts.len(),
{
    if contexts.len() == 0 {
        Seq::empty()
    } else {
        pending_policies(rules, contexts.drop_last(), now) + context_policies(
            rules,
            contexts.last(),
            now,
        )
    }
}

proof fn lemma_verify_error_extends(
    signers: Seq<SignerModel>,
    payload: Seq<u8>,
    entries: Seq<SigEntry>,
    m: int,
)
    requires
        0 <= m < signers.len(),
        verify_signers(signers.subrange(0, m), payload, entries) is Ok,
        (match lookup(entries, signers[m]) {
            None => Err::<(), AuthError>(AuthError::MissingSignature),
            Some(pd) => signer_outcome(signers[m], payload, pd),
        }) is Err,
    ensures
        verify_signers(signers, payload, entries) == (match lookup(entries, signers[m]) {
            None => Err::<(), AuthError>(AuthError::MissingSignature),
            Some(pd) => signer_outcome(signers[m], payload, pd),
        }),
    decreases signers.len(),
{
    if signers.len() == m + 1 {
        assert(signers.drop_last() =~= signers.subrange(0, m));
        assert(signers.last() == signers[m]);
    } else {
        assert(signers.drop_last().subrange(0, m) =~= signers.subrange(0, m));
        assert(signers.drop_last()[m] == signers[m]);
        lemma_verify_error_extends(signers.drop_last(), payload, entries, m);
    }
}

proof fn lemma_contexts_error_extends(
    rules: Seq<ContextRule>,
    contexts: Seq<ContextRuleType>,
    now: u32,
    payload: Seq<u8>,
    entries: Seq<SigEntry>,
    m: int,
)
    requires
        0 <= m < contexts.len(),
        contexts_outcome(rules, contexts.subrange(0, m), now, payload, entries) is Ok,
        context_outcome(rules, contexts[m], now, payload, entries) is Err,
    ensures
        contexts_outcome(rules, contexts, now, payload, entries) == context_outcome(
            rules,
            contexts[m],
            now,
            payload,
            entries,
        ),
    decreases contexts.len(),
{
    if contexts.len() == m + 1 {
        assert(contexts.drop_last() =~= contexts.subrange(0, m));
        assert(contexts.last() == contexts[m]);
    } else {
        assert(contexts.drop_last().subrange(0, m) =~= contexts.subrange(0, m));
        assert(contexts.drop_last()[m] == contexts[m]);
        lemma_contexts_error_extends(rules, contexts.drop_last(), now, payload, entries, m);
    }
}

proof fn lemma_verify_all_ok(signers: Seq<SignerModel>, payload: Seq<u8>, entries: Seq<SigEntry>)
    requires
        all_present(signers, entries),
        forall|j: int|
            0 <= j < signers.len() ==> signer_outcome(
                #[trigger] signers[j],
                payload,
                lookup(entries, signers[j])->Some_0,
            ) is Ok,
    ensures
        verify_signers(signers, payload, entries) is Ok,
    decreases signers.len(),
{
    if signers.len() > 0 {
        assert forall|j: int| 0 <= j < signers.drop_last().len() implies lookup(
            entries,
            #[trigger] signers.drop_last()[j],
        ) is Some && signer_outcome(
            signers.drop_last()[j],
            payload,
            lookup(entries, signers.drop_last()[j])->Some_0,
        ) is Ok by {
            assert(signers.drop_last()[j] == signers[j]);
        }
        lemma_verify_all_ok(signers.drop_last(), payload, entries);
        assert(signers.last() == signers[signers.len() - 1]);
    }
}

/// Law: when the first live rule for the requested scope has two signers
/// and the bundle holds a proof for only the first, the attempt fails with
/// `MissingSignature`, whatever that one proof is worth.
pub proof fn lemma_second_proof_missing(
    rules: Seq<ContextRule>,
    t: ContextRuleType,
    now: u32,
    payload: Seq<u8>,
    entries: Seq<SigEntry>,
    i: int,
)
    requires
        is_first_live(rules, t, now, i),
        rules[i]@.signers.len() == 2,
        lookup(entries, rules[i]@.signers[1]) is None,
    ensures
        context_outcome(rules, t, now, payload, entries) == Err::<(), AuthError>(
            AuthError::MissingSignature,
        ),
        contexts_outcome(rules, seq![t], now, payload, entries) == Err::<(), AuthError>(
            AuthError::MissingSignature,
        ),
{
    let c = choose|j: int| is_first_live(rules, t, now, j);
    lemma_first_live_unique(rules, t, now, i, c);
    assert(!all_present(rules[i]@.signers, entries));
    lemma_single_context(rules, t, now, payload, entries);
}

/// Law: when every signer of the first live rule has an entry in the bundle
/// and every proof verifies, the attempt for that scope succeeds.
pub proof fn lemma_all_proofs_verify(
    rules: Seq<ContextRule>,
    t: ContextRuleType,
    now: u32,
    payload: Seq<u8>,
    entries: Seq<SigEntry>,
    i: int,
)
    requires
        is_first_live(rules, t, now, i),
        all_present(rules[i]@.signers, entries),
        forall|j: int|
            0 <= j < rules[i]@.signers.len() ==> signer_outcome(
                #[trigger] rules[i]@.signers[j],
                payload,
                lookup(entries, rules[i]@.signers[j])->Some_0,
            ) is Ok,
    ensures
        context_outcome(rules, t, now, payload, entries) is Ok,
        contexts_outcome(rules, seq![t], now, payload, entries) is Ok,
{
    let c = choose|j: int| is_first_live(rules, t, now, j);
    lemma_first_live_unique(rules, t, now, i, c);
    lemma_verify_all_ok(rules[i]@.signers, payload, entries);
    lemma_single_context(rules, t, now, payload, entries);
}

/// Law: when every rule governing the requested scope has expired — its
/// expiry lies strictly before `now` — the attempt fails with
/// `NoMatchingRule`: an expired rule is treated as absent, not as a
/// distinct failure.
pub proof fn lemma_expired_rules_no_match(
    rules: Seq<ContextRule>,
    t: ContextRuleType,
    now: u32,
    payload: Seq<u8>,
    entries: Seq<SigEntry>,
)
    requires
        forall|j: int|
            0 <= j < rules.len() && (#[trigger] rules[j]).context_type == t ==> match rules[j]
                .valid_until {
                Some(v) => v < now,
                None => false,
            },
    ensures
        context_outcome(rules, t, now, payload, entries) == Err::<(), AuthError>(
            AuthError::NoMatchingRule,
        ),
        contexts_outcome(rules, seq![t], now, payload, entries) == Err::<(), AuthError>(
            AuthError::NoMatchingRule,
        ),
{
    assert forall|k: int| !is_first_live(rules, t, now, k) by {
        if 0 <= k < rules.len() {
            assert(!rule_live(rules[k], t, now));
        }
    }
    lemma_single_context(rules, t, now, payload, entries);
}

/// An attempt with a single requested context has that context's outcome.
proof fn lemma_single_context(
    rules: Seq<ContextRule>,
    t: ContextRuleType,
    now: u32,
    payload: Seq<u8>,
    entries: Seq<SigEntry>,
)
    ensures
        contexts_outcome(rules, seq![t], now, payload, entries) == context_outcome(
            rules,
            t,
            now,
            payload,
            entries,
        ),
{
    let cs = seq![t];
    assert(cs.drop_last() =~= Seq::<ContextRuleType>::empty());
    assert(cs.last() == t);
    assert(contexts_outcome(rules, cs.drop_last(), now, payload, entries) == Ok::<(), AuthError>(
        (),
    ));
    assert(contexts_outcome(rules, cs, now, payload, entries) == context_outcome(
        rules,
        t,
        now,
        payload,
        entries,
    ));
}

/// Confirms the verdicts of the policy invocations an authorization attempt
/// handed back: every policy must have accepted, and any rejection aborts
/// the attempt with `PolicyRejected`.
pub fn confirm_policies(results: &Vec<bool>) -> (r: Result<(), AuthError>)
    ensures
        r is Ok <==> (forall|i: int| 0 <= i < results@.len() ==> results@[i]),
        r is Err ==> r == Err::<(), AuthError>(AuthError::PolicyRejected),
{
    let mut i: usize = 0;
    while i < results.len()
        invariant
            0 <= i <= results@.len(),
            forall|j: int| 0 <= j < i ==> results@[j],
        decreases results@.len() - i,
    {
        if !results[i] {
            return Err(AuthError::PolicyRejected);
        }
        i = i + 1;
    }
    Ok(())
}

impl PhantomSmartAccount {
    /// Decides one authorization attempt.
    ///
    /// For each requested context, the first live rule for that scope is
    /// resolved (`NoMatchingRule` when there is none — an expired or empty
    /// rule counts as absent); every signer of the rule must have an entry
    /// in the bundle (`MissingSignature` otherwise), and every proof must
    /// verify, natively or through the dispatch, whose own error is
    /// propagated. The first failing gate decides. On success the caller
    /// receives the policy invocations still owed — the rule id and
    /// installation parameter of every policy installed on a resolved rule —
    /// to be confirmed with `confirm_policies`.
    #[verifier::loop_isolation(false)]
    pub fn __check_auth(
        &self,
        signature_payload: &Vec<u8>,
        signatures: &Signatures,
        auth_contexts: &Vec<ContextRuleType>,
        now: u32,
    ) -> (r: Result<Vec<PolicyCall>, AuthError>)
        requires
            self.wf(),
            signature_payload@.len() == PAYLOAD_LEN,
        ensures
            r is Ok <==> contexts_outcome(
                self.rules@,
                auth_contexts@,
                now,
                signature_payload@,
                signatures.entries@,
            ) is Ok,
            r is Ok ==> r->Ok_0@ == pending_policies(self.rules@, auth_contexts@, now),
            r is Err ==> contexts_outcome(
                self.rules@,
                auth_contexts@,
                now,
                signature_payload@,
                signatures.entries@,
            ) == Err::<(), AuthError>(r->Err_0),
    {
        let ghost rules = self.rules@;
        let ghost entries = signatures.entries@;
        let ghost payload = signature_payload@;
        let mut calls: Vec<PolicyCall> = Vec::new();
        let mut ci: usize = 0;
        while ci < auth_contexts.len()
            invariant
                0 <= ci <= auth_contexts@.len(),
                contexts_outcome(rules, auth_contexts@.subrange(0, ci as int), now, payload, entries)
                    is Ok,
                calls@ == pending_policies(rules, auth_contexts@.subrange(0, ci as int), now),
            decreases auth_contexts@.len() - ci,
        {
            let t = auth_contexts[ci];
            let ri = match self.resolve_rule(t, now) {
                Some(ri) => ri,
                None => {
                    proof {
                        assert forall|i: int| !is_first_live(rules, t, now, i) by {
                            if 0 <= i < rules.len() {
                                assert(!rule_live(rules[i], t, now));
                            }
                        }
                        assert(context_outcome(rules, t, now, payload, entries) == Err::<
                            (),
                            AuthError,
                        >(AuthError::NoMatchingRule));
                        lemma_contexts_error_extends(
                            rules,
                            auth_contexts@,
                            now,
                            payload,
                            entries,
                            ci as int,
                        );
                    }
                    return Err(AuthError::NoMatchingRule);
                },
            };
            let ghost sm = rules[ri as int]@.signers;
            proof {
                assert(is_first_live(rules, t, now, ri as int));
                let c = choose|i: int| is_first_live(rules, t, now, i);
                assert(is_first_live(rules, t, now, c));
                lemma_first_live_unique(rules, t, now, ri as int, c);
            }
            let nsig = self.rules[ri].signers.len();
            let mut si: usize = 0;
            while si < nsig
                invariant
                    0 <= si <= nsig,
                    forall|j: int| 0 <= j < si ==> lookup(entries, #[trigger] sm[j]) is Some,
                decreases nsig - si,
            {
                match lookup_index(signatures, &self.rules[ri].signers[si]) {
                    Some(_) => {},
                    None => {
                        proof {
                            assert(sm[si as int] == self.rules@[ri as int].signers@[si as int]@);
                            assert(!all_present(sm, entries));
                            assert(context_outcome(rules, t, now, payload, entries) == Err::<
                                (),
                                AuthError,
                            >(AuthError::MissingSignature));
                            lemma_contexts_error_extends(
                                rules,
                                auth_contexts@,
                                now,
                                payload,
                                entries,
                                ci as int,
                            );
                        }
                        return Err(AuthError::MissingSignature);
                    },
                }
                si = si + 1;
            }
            proof {
                assert(all_present(sm, entries));
            }
            let mut vi: usize = 0;
            while vi < nsig
                invariant
                    0 <= vi <= nsig,
                    verify_signers(sm.subrange(0, vi as int), payload, entries) is Ok,
                decreases nsig - vi,
            {
                let s = &self.rules[ri].signers[vi];
                proof {
                    assert(sm[vi as int] == s@);
                }
                let k = match lookup_index(signatures, s) {
                    Some(k) => k,
                    None => {
                        proof {
                            assert(false);
                        }
                        return Err(AuthError::MissingSignature);
                    },
                };
                match check_signer(signature_payload, s, &signatures.entries[k].proof_data) {
                    Ok(_) => {},
                    Err(e) => {
                        proof {
                            assert(lookup(entries, sm[vi as int]) == Some(
                                entries[k as int].proof_data@,
                            ));
                            lemma_verify_error_extends(sm, payload, entries, vi as int);
                            assert(context_outcome(rules, t, now, payload, entries) == Err::<
                                (),
                                AuthError,
                            >(e));
                            lemma_contexts_error_extends(
                                rules,
                                auth_contexts@,
                                now,
                                payload,
                                entries,
                                ci as int,
                            );
                        }
                        return Err(e);
                    },
                }
                proof {
                    assert(sm.subrange(0, vi as int + 1).drop_last() =~= sm.subrange(0, vi as int));
                    assert(sm.subrange(0, vi as int + 1).last() == sm[vi as int]);
                }
                vi = vi + 1;
            }
            proof {
                assert(sm.subrange(0, sm.len() as int) =~= sm);
                assert(context_outcome(rules, t, now, payload, entries) is Ok);
            }
            let ghost base = calls@;
            let rid = self.rules[ri].id;
            let npol = self.rules[ri].policies.len();
            let mut pi: usize = 0;
            while pi < npol
                invariant
                    0 <= pi <= npol,
                    calls@.len() == base.len() + pi,
                    calls@.subrange(0, base.len() as int) == base,
                    forall|j: int|
                        0 <= j < pi ==> calls@[base.len() + j] == (PolicyCall {
                            context_rule_id: rid,
                            policy: rules[ri as int]@.policies[j].address,
                            install_param: rules[ri as int]@.policies[j].install_param,
                        }),
                decreases npol - pi,
            {
                let p = self.rules[ri].policies[pi];
                calls.push(
                    PolicyCall { context_rule_id: rid, policy: p.address, install_param: p.install_param },
                );
                pi = pi + 1;
                proof {
                    assert(calls@.subrange(0, base.len() as int) =~= base);
                }
            }
            proof {
                assert(calls@ =~= base + context_policies(rules, t, now));
                assert(auth_contexts@.subrange(0, ci as int + 1).drop_last() =~= auth_contexts@
                    .subrange(0, ci as int));
                assert(auth_contexts@.subrange(0, ci as int + 1).last() == auth_contexts@[ci as int]);
            }
            ci = ci + 1;
        }
        proof {
            assert(auth_contexts@.subrange(0, auth_contexts@.len() as int) =~= auth_contexts@);
        }
        Ok(calls)
    }

    /// The index of the first live rule for scope `t` at time `now`.
    fn resolve_rule(&self, t: ContextRuleType, now: u32) -> (r: Option<usize>)
        ensures
            match r {
                Some(i) => is_first_live(self.rules@, t, now, i as int),
                None => forall|j: int|
                    0 <= j < self.rules@.len() ==> !rule_live(#[trigger] self.rules@[j], t, now),
            },
    {
        let mut i: usize = 0;
        while i < self.rules.len()
            invariant
                0 <= i <= self.rules@.len(),
                forall|j: int| 0 <= j < i ==> !rule_live(#[trigger] self.rules@[j], t, now),
            decreases self.rules@.len() - i,
        {
            let live = self.rules[i].context_type == t && (match self.rules[i].valid_until {
                Some(v) => now <= v,
                None => true,
            }) && self.rules[i].signers.len() > 0;
            if live {
                return Some(i);
            }
            i = i + 1;
        }
        None
    }
}

} // verus!
