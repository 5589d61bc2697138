//! The context-rule data model: scopes, signers, policies, rules.
//!
//! A context rule binds a scope to the signers that may authorize actions in
//! it, an optional expiry, and a mapping from policy identity to an opaque
//! installation parameter. Contract and policy identities, and installation
//! parameters, are carried as plain integers: the host's opaque handles,
//! modeled by their value.

use vstd::prelude::*;
use crate::bytes::{bytes_eq, copy_bytes};

verus! {

/// The scope a context rule governs.
#[derive(Clone, Copy, Debug, PartialEq, Eq, Structural)]
pub enum ContextRuleType {
    /// The account's own administrative context.
    Account,
    /// Calls into the contract with the given identity.
    CallContract(u64),
}

/// A signer that may appear in a rule's signer set.
pub enum Signer {
    /// A public key the native cryptographic primitive checks directly.
    Native(Vec<u8>),
    /// A delegated scheme: the verifier contract's identity and the raw key
    /// material that verifier interprets.
    External(u64, Vec<u8>),
}

/// Mathematical model of a signer: the same shape over sequences.
#[verifier::ext_equal]
pub enum SignerModel {
    Native(Seq<u8>),
    External(u64, Seq<u8>),
}

impl View for Signer {
    type V = SignerModel;

    open spec fn view(&self) -> SignerModel {
        match self {
            Signer::Native(k) => SignerModel::Native(k@),
            Signer::External(v, k) => SignerModel::External(*v, k@),
        }
    }
}

/// Whether two signers are the same identity.
pub fn signer_eq(a: &Signer, b: &Signer) -> (r: bool)
    ensures
        r <==> a@ == b@,
{
    match (a, b) {
        (Signer::Native(x), Signer::Native(y)) => bytes_eq(x, y),
        (Signer::External(va, ka), Signer::External(vb, kb)) => *va == *vb && bytes_eq(ka, kb),
        _ => false,
    }
}

/// Copies a signer.
pub fn clone_signer(s: &Signer) -> (r: Signer)
    ensures
        r@ == s@,
{
    match s {
        Signer::Native(k) => Signer::Native(copy_bytes(k)),
        Signer::External(v, k) => Signer::External(*v, copy_bytes(k)),
    }
}

/// One installed policy: the policy contract's identity and the opaque
/// parameter it was installed with.
#[derive(Clone, Copy, Debug, PartialEq, Eq, Structural)]
pub struct Policy {
    pub address: u64,
    pub install_param: u64,
}

/// A context rule: a stable numeric id, a human-readable name, the scope it
/// governs, an optional expiry (absolute ledger time), its signer set, and
/// its installed policies.
pub struct ContextRule {
    pub id: u32,
    pub context_type: ContextRuleType,
    pub name: Vec<u8>,
    pub valid_until: Option<u32>,
    pub signers: Vec<Signer>,
    pub policies: Vec<Policy>,
}

/// Mathematical model of a context rule.
#[verifier::ext_equal]
pub struct RuleModel {
    pub id: u32,
    pub context_type: ContextRuleType,
    pub name: Seq<u8>,
    pub valid_until: Option<u32>,
    pub signers: Seq<SignerModel>,
    pub policies: Seq<Policy>,
}

impl View for ContextRule {
    type V = RuleModel;

    open spec fn view(&self) -> RuleModel {
        RuleModel {
            id: self.id,
            context_type: self.context_type,
            name: self.name@,
            valid_until: self.valid_until,
            signers: self.signers@.map_values(|s: Signer| s@),
            policies: self.policies@,
        }
    }
}

/// No signer identity occurs twice.
pub open spec fn signers_unique(s: Seq<SignerModel>) -> bool {
    forall|i: int, j: int| 0 <= i < j < s.len() ==> s[i] != s[j]
}

/// No policy identity occurs twice: the policies form a mapping.
pub open spec fn policies_unique(p: Seq<Policy>) -> bool {
    forall|i: int, j: int| 0 <= i < j < p.len() ==> p[i].address != p[j].address
}

/// Whether a signer identity is a member of a signer set.
pub open spec fn signer_in(s: Seq<SignerModel>, m: SignerModel) -> bool {
    exists|i: int| 0 <= i < s.len() && s[i] == m
}

/// Whether a policy identity is installed.
pub open spec fn policy_in(p: Seq<Policy>, address: u64) -> bool {
    exists|i: int| 0 <= i < p.len() && p[i].address == address
}

impl ContextRule {
    /// Internal consistency of a rule: the signer set holds no duplicate and
    /// the policies form a mapping.
    pub open spec fn wf(&self) -> bool {
        &&& signers_unique(self@.signers)
        &&& policies_unique(self@.policies)
    }
}

/// Copies a rule.
pub fn clone_rule(r: &ContextRule) -> (c: ContextRule)
    ensures
        c@ == r@,
{
    let mut signers: Vec<Signer> = Vec::new();
    let mut i: usize = 0;
    while i < r.signers.len()
        invariant
            0 <= i <= r.signers@.len(),
            signers@.len() == i,
            forall|j: int| 0 <= j < i ==> signers@[j]@ == r.signers@[j]@,
        decreases r.signers@.len() - i,
    {
        signers.push(clone_signer(&r.signers[i]));
        i = i + 1;
    }
    let mut policies: Vec<Policy> = Vec::new();
    let mut k: usize = 0;
    while k < r.policies.len()
        invariant
            0 <= k <= r.policies@.len(),
            policies@ == r.policies@.subrange(0, k as int),
        decreases r.policies@.len() - k,
    {
        policies.push(r.policies[k]);
        k = k + 1;
        proof {
            assert(policies@ =~= r.policies@.subrange(0, k as int));
        }
    }
    proof {
        assert(policies@ =~= r.policies@);
        assert(signers@.map_values(|s: Signer| s@) =~= r.signers@.map_values(|s: Signer| s@));
    }
    let c = ContextRule {
        id: r.id,
        context_type: r.context_type,
        name: copy_bytes(&r.name),
        valid_until: r.valid_until,
        signers,
        policies,
    };
    proof {
        assert(c@ =~= r@);
    }
    c
}

/// Whether the signer set held in `signers` contains the identity of `s`.
pub fn signers_contain(signers: &Vec<Signer>, s: &Signer) -> (r: bool)
    ensures
        r <==> signer_in(signers@.map_values(|x: Signer| x@), s@),
{
    let ghost models = signers@.map_values(|x: Signer| x@);
    let mut i: usize = 0;
    while i < signers.len()
        invariant
            0 <= i <= signers@.len(),
            models == signers@.map_values(|x: Signer| x@),
            forall|j: int| 0 <= j < i ==> models[j] != s@,
        decreases signers@.len() - i,
    {
        if signer_eq(&signers[i], s) {
            proof {
                assert(models[i as int] == s@);
            }
            return true;
        }
        i = i + 1;
    }
    false
}

/// Whether `signers` holds any identity twice.
pub fn signers_have_duplicate(signers: &Vec<Signer>) -> (r: bool)
    ensures
        r <==> !signers_unique(signers@.map_values(|x: Signer| x@)),
{
    let ghost models = signers@.map_values(|x: Signer| x@);
    let mut i: usize = 0;
    while i < signers.len()
        invariant
            0 <= i <= signers@.len(),
            models == signers@.map_values(|x: Signer| x@),
            forall|a: int, b: int| 0 <= a < b < i ==> models[a] != models[b],
        decreases signers@.len() - i,
    {
        let mut j: usize = 0;
        while j < i
            invariant
                0 <= j <= i < signers@.len(),
                models == signers@.map_values(|x: Signer| x@),
                forall|b: int| 0 <= b < j ==> models[b] != models[i as int],
            decreases i - j,
        {
            if signer_eq(&signers[j], &signers[i]) {
                proof {
                    assert(models[j as int] == models[i as int]);
                }
                return true;
            }
            j = j + 1;
        }
        i = i + 1;
    }
    false
}

} // verus!
