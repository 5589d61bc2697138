//! The smart account: the context-rule registry and its lifecycle.
//!
//! Rules are kept in registration order and keyed by a stable numeric id,
//! allocated monotonically at creation. Removal is explicit and atomic: a
//! rule carries its signer set and policy mapping, so removing it releases
//! them with it and leaves no orphaned records.

use vstd::prelude::*;
use crate::errors::AuthError;
use crate::rule::{
    clone_rule, signers_contain, signers_have_duplicate, signer_eq, ContextRule, ContextRuleType,
    Policy, RuleModel, Signer, SignerModel, policies_unique, signers_unique, signer_in, policy_in,
};

verus! {

/// Whether no two rules share an id.
pub open spec fn rule_ids_unique(rules: Seq<ContextRule>) -> bool {
    forall|i: int, j: int| 0 <= i < j < rules.len() ==> rules[i].id != rules[j].id
}

/// Whether some rule carries the id.
pub open spec fn has_rule(rules: Seq<ContextRule>, id: u32) -> bool {
    exists|i: int| 0 <= i < rules.len() && rules[i].id == id
}

/// The rules governing scope `t`, in registration order.
pub open spec fn matching(rules: Seq<ContextRule>, t: ContextRuleType) -> Seq<ContextRule>
    decreases rules.len(),
{
    if rules.len() == 0 {
        Seq::empty()
    } else {
        let rest = matching(rules.drop_last(), t);
        if rules.last().context_type == t {
            rest.push(rules.last())
        } else {
            rest
        }
    }
}

/// Two rule sequences that agree rule by rule on their models.
pub open spec fn rules_like(a: Seq<ContextRule>, b: Seq<ContextRule>) -> bool {
    &&& a.len() == b.len()
    &&& forall|i: int| 0 <= i < a.len() ==> a[i]@ == b[i]@
}

/// An account stays well formed when one rule is replaced by a well-formed
/// rule that keeps its id.
proof fn lemma_wf_after_update(s: PhantomSmartAccount, t: PhantomSmartAccount, i: int)
    requires
        s.wf(),
        0 <= i < s.rules@.len(),
        t.next_id == s.next_id,
        t.rules@.len() == s.rules@.len(),
        forall|j: int| 0 <= j < s.rules@.len() && j != i ==> t.rules@[j] == s.rules@[j],
        t.rules@[i].id == s.rules@[i].id,
        t.rules@[i].wf(),
    ensures
        t.wf(),
{
    assert forall|a: int, b: int|
        0 <= a < b < t.rules@.len() implies (#[trigger] t.rules@[a]).id != (
    #[trigger] t.rules@[b]).id by {
        if a != i {
            assert(t.rules@[a] == s.rules@[a]);
        }
        if b != i {
            assert(t.rules@[b] == s.rules@[b]);
        }
    }
    assert forall|j: int|
        0 <= j < t.rules@.len() implies (#[trigger] t.rules@[j]).id < t.next_id
            && t.rules@[j].wf() by {
        if j != i {
            assert(t.rules@[j] == s.rules@[j]);
        }
    }
}

/// The programmable account: its registered context rules and the next rule
/// id to allocate.
pub struct PhantomSmartAccount {
    pub rules: Vec<ContextRule>,
    pub next_id: u32,
}

impl PhantomSmartAccount {
    /// Internal consistency: ids are unique and below the allocation cursor,
    /// every rule is well formed, and the rule count never outruns the
    /// cursor.
    pub open spec fn wf(&self) -> bool {
        &&& rule_ids_unique(self.rules@)
        &&& forall|i: int| 0 <= i < self.rules@.len() ==> (#[trigger] self.rules@[i]).id
            < self.next_id
        &&& forall|i: int| 0 <= i < self.rules@.len() ==> (#[trigger] self.rules@[i]).wf()
        &&& self.rules@.len() <= self.next_id
    }

    /// A fresh account with no rules; the first rule will get id 1.
    pub fn new() -> (s: Self)
        ensures
            s.wf(),
            s.rules@.len() == 0,
            s.next_id == 1,
    {
        PhantomSmartAccount { rules: Vec::new(), next_id: 1 }
    }

    /// The index of the rule with the given id, if any.
    fn find_rule(&self, context_rule_id: u32) -> (r: Option<usize>)
        ensures
            match r {
                Some(i) => i < self.rules@.len() && self.rules@[i as int].id == context_rule_id,
                None => !has_rule(self.rules@, context_rule_id),
            },
    {
        let mut i: usize = 0;
        while i < self.rules.len()
            invariant
                0 <= i <= self.rules@.len(),
                forall|j: int| 0 <= j < i ==> (#[trigger] self.rules@[j]).id != context_rule_id,
            decreases self.rules@.len() - i,
        {
            if self.rules[i].id == context_rule_id {
                return Some(i);
            }
            i = i + 1;
        }
        None
    }

    /// Returns the rule with the given id, or `RuleNotFound`.
    pub fn get_context_rule(&self, context_rule_id: u32) -> (r: Result<ContextRule, AuthError>)
        requires
            self.wf(),
        ensures
            r is Ok <==> has_rule(self.rules@, context_rule_id),
            r is Err ==> r == Err::<ContextRule, AuthError>(AuthError::RuleNotFound),
            forall|i: int|
                0 <= i < self.rules@.len() && (#[trigger] self.rules@[i]).id == context_rule_id
                    ==> r is Ok && r->Ok_0@ == self.rules@[i]@,
    {
        match self.find_rule(context_rule_id) {
            Some(i) => {
                let c = clone_rule(&self.rules[i]);
                proof {
                    assert forall|j: int|
                        0 <= j < self.rules@.len() && (#[trigger] self.rules@[j]).id
                            == context_rule_id implies c@ == self.rules@[j]@ by {
                        assert(j == i as int);
                    }
                }
                Ok(c)
            },
            None => Err(AuthError::RuleNotFound),
        }
    }

    /// Returns every rule governing scope `context_rule_type`, in
    /// registration order.
    pub fn get_context_rules(&self, context_rule_type: ContextRuleType) -> (r: Vec<ContextRule>)
        ensures
            rules_like(r@, matching(self.rules@, context_rule_type)),
    {
        let mut out: Vec<ContextRule> = Vec::new();
        let mut i: usize = 0;
        while i < self.rules.len()
            invariant
                0 <= i <= self.rules@.len(),
                rules_like(out@, matching(self.rules@.subrange(0, i as int), context_rule_type)),
            decreases self.rules@.len() - i,
        {
            proof {
                assert(self.rules@.subrange(0, i + 1).drop_last() =~= self.rules@.subrange(
                    0,
                    i as int,
                ));
                assert(self.rules@.subrange(0, i + 1).last() == self.rules@[i as int]);
            }
            if self.rules[i].context_type == context_rule_type {
                out.push(clone_rule(&self.rules[i]));
            }
            i = i + 1;
        }
        proof {
            assert(self.rules@.subrange(0, self.rules@.len() as int) =~= self.rules@);
        }
        out
    }

    /// The number of registered rules.
    pub fn get_context_rules_count(&self) -> (r: u32)
        requires
            self.wf(),
        ensures
            r == self.rules@.len(),
    {
        self.rules.len() as u32
    }

    /// Registers a new rule and returns it.
    ///
    /// Fails with `EmptySignerSet` when `signers` is empty and with
    /// `DuplicateSigner` when a signer identity occurs twice in it; on
    /// failure the account is unchanged. On success the rule gets the next
    /// id, the cursor advances, and every existing rule is untouched.
    pub fn add_context_rule(
        &mut self,
        context_type: ContextRuleType,
        name: Vec<u8>,
        valid_until: Option<u32>,
        signers: Vec<Signer>,
        policies: Vec<Policy>,
    ) -> (r: Result<ContextRule, AuthError>)
        requires
            old(self).wf(),
            old(self).next_id < u32::MAX,
            policies_unique(policies@),
        ensures
            final(self).wf(),
            signers@.len() == 0 ==> r == Err::<ContextRule, AuthError>(AuthError::EmptySignerSet)
                && *final(self) == *old(self),
            signers@.len() > 0 && !signers_unique(signers@.map_values(|s: Signer| s@)) ==> r
                == Err::<ContextRule, AuthError>(AuthError::DuplicateSigner) && *final(self)
                == *old(self),
            signers@.len() > 0 && signers_unique(signers@.map_values(|s: Signer| s@)) ==> ({
                let m = RuleModel {
                    id: old(self).next_id,
                    context_type: context_type,
                    name: name@,
                    valid_until: valid_until,
                    signers: signers@.map_values(|s: Signer| s@),
                    policies: policies@,
                };
                &&& r is Ok
                &&& r->Ok_0@ == m
                &&& final(self).next_id == old(self).next_id + 1
                &&& final(self).rules@.len() == old(self).rules@.len() + 1
                &&& final(self).rules@[old(self).rules@.len() as int]@ == m
                &&& forall|i: int|
                    0 <= i < old(self).rules@.len() ==> final(self).rules@[i]
                        == old(self).rules@[i]
            }),
    {
        if signers.len() == 0 {
            return Err(AuthError::EmptySignerSet);
        }
        if signers_have_duplicate(&signers) {
            return Err(AuthError::DuplicateSigner);
        }
        let rule = ContextRule {
            id: self.next_id,
            context_type,
            name,
            valid_until,
            signers,
            policies,
        };
        let ret = clone_rule(&rule);
        self.rules.push(rule);
        self.next_id = self.next_id + 1;
        Ok(ret)
    }

    /// Replaces the name of the rule with the given id and returns the
    /// updated rule; fails with `RuleNotFound`, leaving the account
    /// unchanged, when the id is absent.
    pub fn update_context_rule_name(&mut self, context_rule_id: u32, name: Vec<u8>) -> (r: Result<
        ContextRule,
        AuthError,
    >)
        requires
            old(self).wf(),
        ensures
            final(self).wf(),
            final(self).next_id == old(self).next_id,
            final(self).rules@.len() == old(self).rules@.len(),
            r is Ok <==> has_rule(old(self).rules@, context_rule_id),
            r is Err ==> r == Err::<ContextRule, AuthError>(AuthError::RuleNotFound) && *final(self)
                == *old(self),
            forall|j: int|
                0 <= j < old(self).rules@.len() && (#[trigger] old(self).rules@[j]).id
                    != context_rule_id ==> final(self).rules@[j] == old(self).rules@[j],
            r is Ok ==> forall|j: int|
                0 <= j < old(self).rules@.len() && (#[trigger] old(self).rules@[j]).id
                    == context_rule_id ==> final(self).rules@[j]@ == (RuleModel {
                    name: name@,
                    ..old(self).rules@[j]@
                }) && r->Ok_0@ == final(self).rules@[j]@,
    {
        let i = match self.find_rule(context_rule_id) {
            Some(i) => i,
            None => {
                return Err(AuthError::RuleNotFound);
            },
        };
        let mut rule = self.rules.remove(i);
        rule.name = name;
        let ret = clone_rule(&rule);
        self.rules.insert(i, rule);
        proof {
            assert(self.rules@ =~= old(self).rules@.update(
                i as int,
                self.rules@[i as int],
            ));
        }
        Ok(ret)
    }

    /// Replaces the expiry of the rule with the given id and returns the
    /// updated rule; fails with `RuleNotFound`, leaving the account
    /// unchanged, when the id is absent.
    pub fn update_context_rule_valid_until(
        &mut self,
        context_rule_id: u32,
        valid_until: Option<u32>,
    ) -> (r: Result<ContextRule, AuthError>)
        requires
            old(self).wf(),
        ensures
            final(self).wf(),
            final(self).next_id == old(self).next_id,
            final(self).rules@.len() == old(self).rules@.len(),
            r is Ok <==> has_rule(old(self).rules@, context_rule_id),
            r is Err ==> r == Err::<ContextRule, AuthError>(AuthError::RuleNotFound) && *final(self)
                == *old(self),
            forall|j: int|
                0 <= j < old(self).rules@.len() && (#[trigger] old(self).rules@[j]).id
                    != context_rule_id ==> final(self).rules@[j] == old(self).rules@[j],
            r is Ok ==> forall|j: int|
                0 <= j < old(self).rules@.len() && (#[trigger] old(self).rules@[j]).id
                    == context_rule_id ==> final(self).rules@[j]@ == (RuleModel {
                    valid_until: valid_until,
                    ..old(self).rules@[j]@
                }) && r->Ok_0@ == final(self).rules@[j]@,
    {
        let i = match self.find_rule(context_rule_id) {
            Some(i) => i,
            None => {
                return Err(AuthError::RuleNotFound);
            },
        };
        let mut rule = self.rules.remove(i);
        rule.valid_until = valid_until;
        let ret = clone_rule(&rule);
        self.rules.insert(i, rule);
        proof {
            assert(self.rules@ =~= old(self).rules@.update(
                i as int,
                self.rules@[i as int],
            ));
        }
        Ok(ret)
    }

    /// Removes the rule with the given id, and with it its signer set and
    /// policy mapping: no dependent record survives the rule. Afterwards no
    /// rule carries the id. Fails with `RuleNotFound`, leaving the account
    /// unchanged, when the id is absent.
    pub fn remove_context_rule(&mut self, context_rule_id: u32) -> (r: Result<(), AuthError>)
        requires
            old(self).wf(),
        ensures
            final(self).wf(),
            final(self).next_id == old(self).next_id,
            r is Ok <==> has_rule(old(self).rules@, context_rule_id),
            r is Err ==> r == Err::<(), AuthError>(AuthError::RuleNotFound) && *final(self)
                == *old(self),
            r is Ok ==> !has_rule(final(self).rules@, context_rule_id),
            r is Ok ==> final(self).rules@.len() == old(self).rules@.len() - 1,
            r is Ok ==> exists|i: int|
                0 <= i < old(self).rules@.len() && (#[trigger] old(self).rules@[i]).id
                    == context_rule_id && final(self).rules@ == old(self).rules@.remove(i),
    {
        let i = match self.find_rule(context_rule_id) {
            Some(i) => i,
            None => {
                return Err(AuthError::RuleNotFound);
            },
        };
        self.rules.remove(i);
        proof {
            let s = old(self).rules@;
            let t = self.rules@;
            assert forall|j: int| 0 <= j < t.len() implies (#[trigger] t[j]).id != context_rule_id
                && t[j].id < self.next_id && t[j].wf() by {
                if j < i as int {
                    assert(t[j] == s[j]);
                } else {
                    assert(t[j] == s[j + 1]);
                }
            }
            assert forall|a: int, b: int| 0 <= a < b < t.len() implies t[a].id != t[b].id by {
                let oa = if a < i as int { a } else { a + 1 };
                let ob = if b < i as int { b } else { b + 1 };
                assert(t[a] == s[oa]);
                assert(t[b] == s[ob]);
            }
        }
        Ok(())
    }

    /// Adds a signer to the rule's signer set. Fails with `RuleNotFound`
    /// when the id is absent and with `DuplicateSigner` when the signer is
    /// already a member; on failure the account is unchanged.
    pub fn add_signer(&mut self, context_rule_id: u32, signer: Signer) -> (r: Result<
        (),
        AuthError,
    >)
        requires
            old(self).wf(),
        ensures
            final(self).wf(),
            final(self).next_id == old(self).next_id,
            final(self).rules@.len() == old(self).rules@.len(),
            !has_rule(old(self).rules@, context_rule_id) ==> r == Err::<(), AuthError>(
                AuthError::RuleNotFound,
            ),
            r is Err ==> *final(self) == *old(self),
            forall|j: int|
                0 <= j < old(self).rules@.len() && (#[trigger] old(self).rules@[j]).id
                    != context_rule_id ==> final(self).rules@[j] == old(self).rules@[j],
            forall|j: int|
                0 <= j < old(self).rules@.len() && (#[trigger] old(self).rules@[j]).id
                    == context_rule_id ==> ({
                    let om = old(self).rules@[j]@;
                    &&& (signer_in(om.signers, signer@) ==> r == Err::<(), AuthError>(
                        AuthError::DuplicateSigner,
                    ))
                    &&& (!signer_in(om.signers, signer@) ==> r is Ok && final(self).rules@[j]@
                        == (RuleModel { signers: om.signers.push(signer@), ..om }))
                }),
    {
        let i = match self.find_rule(context_rule_id) {
            Some(i) => i,
            None => {
                return Err(AuthError::RuleNotFound);
            },
        };
        if signers_contain(&self.rules[i].signers, &signer) {
            return Err(AuthError::DuplicateSigner);
        }
        let mut rule = self.rules.remove(i);
        rule.signers.push(signer);
        self.rules.insert(i, rule);
        proof {
            assert(self.rules@ =~= old(self).rules@.update(
                i as int,
                self.rules@[i as int],
            ));
            let f = |s: Signer| s@;
            assert(self.rules@[i as int].signers@.map_values(f) =~= old(self).rules@[i as int]
                .signers@.map_values(f).push(signer@));
            assert(self.rules@[i as int]@ =~= (RuleModel {
                signers: old(self).rules@[i as int]@.signers.push(signer@),
                ..old(self).rules@[i as int]@
            }));
        }
        Ok(())
    }

    /// Removes a signer from the rule's signer set. Fails with
    /// `RuleNotFound` when the id is absent and with `SignerNotFound` when
    /// the signer is not a member; on failure the account is unchanged.
    /// Removing the last signer leaves an empty set, which can never
    /// authorize anything: authorization treats such a rule as absent.
    pub fn remove_signer(&mut self, context_rule_id: u32, signer: &Signer) -> (r: Result<
        (),
        AuthError,
    >)
        requires
            old(self).wf(),
        ensures
            final(self).wf(),
            final(self).next_id == old(self).next_id,
            final(self).rules@.len() == old(self).rules@.len(),
            !has_rule(old(self).rules@, context_rule_id) ==> r == Err::<(), AuthError>(
                AuthError::RuleNotFound,
            ),
            r is Err ==> *final(self) == *old(self),
            forall|j: int|
                0 <= j < old(self).rules@.len() && (#[trigger] old(self).rules@[j]).id
                    != context_rule_id ==> final(self).rules@[j] == old(self).rules@[j],
            forall|j: int|
                0 <= j < old(self).rules@.len() && (#[trigger] old(self).rules@[j]).id
                    == context_rule_id ==> ({
                    let om = old(self).rules@[j]@;
                    &&& (!signer_in(om.signers, signer@) ==> r == Err::<(), AuthError>(
                        AuthError::SignerNotFound,
                    ))
                    &&& (signer_in(om.signers, signer@) ==> r is Ok && exists|k: int|
                        0 <= k < om.signers.len() && om.signers[k] == signer@ && final(self).rules@[j]@ == (RuleModel { signers: om.signers.remove(k), ..om }))
                }),
    {
        let i = match self.find_rule(context_rule_id) {
            Some(i) => i,
            None => {
                return Err(AuthError::RuleNotFound);
            },
        };
        let ghost om = self.rules@[i as int]@;
        let mut k: usize = 0;
        let n = self.rules[i].signers.len();
        while k < n
            invariant
                old(self).wf(),
                *self == *old(self),
                0 <= k <= n == self.rules@[i as int].signers@.len(),
                0 <= i < self.rules@.len(),
                self.rules@[i as int].id == context_rule_id,
                om == self.rules@[i as int]@,
                forall|b: int| 0 <= b < k ==> om.signers[b] != signer@,
            decreases n - k,
        {
            if signer_eq(&self.rules[i].signers[k], signer) {
                let mut rule = self.rules.remove(i);
                rule.signers.remove(k);
                self.rules.insert(i, rule);
                proof {
                    assert(self.rules@ =~= old(self).rules@.update(
                        i as int,
                        self.rules@[i as int],
                    ));
                    let f = |s: Signer| s@;
                    assert(self.rules@[i as int].signers@.map_values(f) =~= om.signers.remove(
                        k as int,
                    ));
                    assert(self.rules@[i as int]@ =~= (RuleModel {
                        signers: om.signers.remove(k as int),
                        ..om
                    }));
                    assert forall|a: int, b: int|
                        0 <= a < b < om.signers.remove(k as int).len() implies om.signers.remove(
                        k as int,
                    )[a] != om.signers.remove(k as int)[b] by {
                        om.signers.remove_ensures(k as int);
                        assert(old(self).rules@[i as int].wf());
                        assert(signers_unique(om.signers));
                        let s = om.signers;
                        let oa = if a < k as int { a } else { a + 1 };
                        let ob = if b < k as int { b } else { b + 1 };
                        assert(s.remove(k as int)[a] == s[oa]);
                        assert(s.remove(k as int)[b] == s[ob]);
                    }
                    assert(old(self).rules@[i as int].wf());
                    assert(self.rules@[i as int].wf());
                    lemma_wf_after_update(*old(self), *self, i as int);
                    assert(om.signers[k as int] == signer@);
                    assert forall|j: int|
                        0 <= j < old(self).rules@.len() && (#[trigger] old(self).rules@[j]).id
                            == context_rule_id implies j == i as int by {
                        assert(old(self).rules@[i as int].id == context_rule_id);
                    }
                }
                return Ok(());
            }
            k = k + 1;
        }
        proof {
            assert forall|b: int| 0 <= b < om.signers.len() implies om.signers[b] != signer@ by {}
        }
        Err(AuthError::SignerNotFound)
    }

    /// Installs a policy on the rule, or replaces its installation parameter
    /// when the policy identity is already present: the policies form a
    /// mapping keyed by policy identity. Fails with `RuleNotFound`, leaving
    /// the account unchanged, when the id is absent.
    pub fn add_policy(&mut self, context_rule_id: u32, policy: u64, install_param: u64) -> (r:
        Result<(), AuthError>)
        requires
            old(self).wf(),
        ensures
            final(self).wf(),
            final(self).next_id == old(self).next_id,
            final(self).rules@.len() == old(self).rules@.len(),
            r is Ok <==> has_rule(old(self).rules@, context_rule_id),
            r is Err ==> r == Err::<(), AuthError>(AuthError::RuleNotFound) && *final(self)
                == *old(self),
            forall|j: int|
                0 <= j < old(self).rules@.len() && (#[trigger] old(self).rules@[j]).id
                    != context_rule_id ==> final(self).rules@[j] == old(self).rules@[j],
            forall|j: int|
                0 <= j < old(self).rules@.len() && (#[trigger] old(self).rules@[j]).id
                    == context_rule_id ==> ({
                    let om = old(self).rules@[j]@;
                    let p = Policy { address: policy, install_param: install_param };
                    &&& (!policy_in(om.policies, policy) ==> final(self).rules@[j]@ == (RuleModel {
                        policies: om.policies.push(p),
                        ..om
                    }))
                    &&& (policy_in(om.policies, policy) ==> exists|k: int|
                        0 <= k < om.policies.len() && om.policies[k].address == policy && final(self).rules@[j]@ == (RuleModel { policies: om.policies.update(k, p), ..om }))
                }),
    {
        let i = match self.find_rule(context_rule_id) {
            Some(i) => i,
            None => {
                return Err(AuthError::RuleNotFound);
            },
        };
        let p = Policy { address: policy, install_param };
        let ghost om = self.rules@[i as int]@;
        let mut k: usize = 0;
        let n = self.rules[i].policies.len();
        while k < n
            invariant
                old(self).wf(),
                *self == *old(self),
                0 <= k <= n == self.rules@[i as int].policies@.len(),
                0 <= i < self.rules@.len(),
                self.rules@[i as int].id == context_rule_id,
                om == self.rules@[i as int]@,
                p == (Policy { address: policy, install_param: install_param }),
                forall|b: int| 0 <= b < k ==> om.policies[b].address != policy,
            decreases n - k,
        {
            if self.rules[i].policies[k].address == policy {
                let mut rule = self.rules.remove(i);
                rule.policies[k] = p;
                self.rules.insert(i, rule);
                proof {
                    assert(self.rules@ =~= old(self).rules@.update(
                        i as int,
                        self.rules@[i as int],
                    ));
                    assert(self.rules@[i as int]@ =~= (RuleModel {
                        policies: om.policies.update(k as int, p),
                        ..om
                    }));
                    assert forall|a: int, b: int|
                        0 <= a < b < om.policies.len() implies om.policies.update(k as int, p)[a]
                        .address != om.policies.update(k as int, p)[b].address by {
                        assert(old(self).rules@[i as int].wf());
                        assert(policies_unique(om.policies));
                        assert(om.policies[k as int].address == policy);
                        if a != k as int {
                            assert(om.policies.update(k as int, p)[a] == om.policies[a]);
                        }
                        if b != k as int {
                            assert(om.policies.update(k as int, p)[b] == om.policies[b]);
                        }
                    }
                    assert(old(self).rules@[i as int].wf());
                    assert(self.rules@[i as int].wf());
                    lemma_wf_after_update(*old(self), *self, i as int);
                }
                return Ok(());
            }
            k = k + 1;
        }
        let mut rule = self.rules.remove(i);
        rule.policies.push(p);
        self.rules.insert(i, rule);
        proof {
            assert(self.rules@ =~= old(self).rules@.update(
                i as int,
                self.rules@[i as int],
            ));
            assert(self.rules@[i as int]@ =~= (RuleModel {
                policies: om.policies.push(p),
                ..om
            }));
            assert forall|a: int, b: int|
                0 <= a < b < om.policies.push(p).len() implies om.policies.push(p)[a].address
                != om.policies.push(p)[b].address by {
                assert(policies_unique(om.policies));
                if b == om.policies.len() {
                    assert(om.policies.push(p)[a] == om.policies[a]);
                    assert(om.policies[a].address != policy);
                } else {
                    assert(om.policies.push(p)[a] == om.policies[a]);
                    assert(om.policies.push(p)[b] == om.policies[b]);
                }
            }
            assert(old(self).rules@[i as int].wf());
            assert(self.rules@[i as int].wf());
            lemma_wf_after_update(*old(self), *self, i as int);
        }
        Ok(())
    }

    /// Uninstalls a policy from the rule; when the policy identity is not
    /// installed the mapping is already as requested and the rule is left as
    /// it is. Fails with `RuleNotFound`, leaving the account unchanged, when
    /// the id is absent.
    pub fn remove_policy(&mut self, context_rule_id: u32, policy: u64) -> (r: Result<
        (),
        AuthError,
    >)
        requires
            old(self).wf(),
        ensures
            final(self).wf(),
            final(self).next_id == old(self).next_id,
            final(self).rules@.len() == old(self).rules@.len(),
            r is Ok <==> has_rule(old(self).rules@, context_rule_id),
            r is Err ==> r == Err::<(), AuthError>(AuthError::RuleNotFound) && *final(self)
                == *old(self),
            forall|j: int|
                0 <= j < old(self).rules@.len() && (#[trigger] old(self).rules@[j]).id
                    != context_rule_id ==> final(self).rules@[j] == old(self).rules@[j],
            forall|j: int|
                0 <= j < old(self).rules@.len() && (#[trigger] old(self).rules@[j]).id
                    == context_rule_id ==> ({
                    let om = old(self).rules@[j]@;
                    &&& (!policy_in(om.policies, policy) ==> final(self).rules@[j]
                        == old(self).rules@[j])
                    &&& (policy_in(om.policies, policy) ==> exists|k: int|
                        0 <= k < om.policies.len() && om.policies[k].address == policy && final(self).rules@[j]@ == (RuleModel { policies: om.policies.remove(k), ..om }))
                }),
    {
        let i = match self.find_rule(context_rule_id) {
            Some(i) => i,
            None => {
                return Err(AuthError::RuleNotFound);
            },
        };
        let ghost om = self.rules@[i as int]@;
        let mut k: usize = 0;
        let n = self.rules[i].policies.len();
        while k < n
            invariant
                old(self).wf(),
                *self == *old(self),
                0 <= k <= n == self.rules@[i as int].policies@.len(),
                0 <= i < self.rules@.len(),
                self.rules@[i as int].id == context_rule_id,
                om == self.rules@[i as int]@,
                forall|b: int| 0 <= b < k ==> om.policies[b].address != policy,
            decreases n - k,
        {
            if self.rules[i].policies[k].address == policy {
                let mut rule = self.rules.remove(i);
                rule.policies.remove(k);
                self.rules.insert(i, rule);
                proof {
                    assert(self.rules@ =~= old(self).rules@.update(
                        i as int,
                        self.rules@[i as int],
                    ));
                    assert(self.rules@[i as int]@ =~= (RuleModel {
                        policies: om.policies.remove(k as int),
                        ..om
                    }));
                    assert forall|a: int, b: int|
                        0 <= a < b < om.policies.remove(k as int).len() implies om.policies.remove(
                        k as int,
                    )[a].address != om.policies.remove(k as int)[b].address by {
                        om.policies.remove_ensures(k as int);
                        assert(old(self).rules@[i as int].wf());
                        assert(policies_unique(om.policies));
                        let s = om.policies;
                        let oa = if a < k as int { a } else { a + 1 };
                        let ob = if b < k as int { b } else { b + 1 };
                        assert(s.remove(k as int)[a] == s[oa]);
                        assert(s.remove(k as int)[b] == s[ob]);
                    }
                    assert(old(self).rules@[i as int].wf());
                    assert(self.rules@[i as int].wf());
                    lemma_wf_after_update(*old(self), *self, i as int);
                }
                return Ok(());
            }
            k = k + 1;
        }
        Ok(())
    }

    /// Registers the one rule a freshly deployed account needs: the key of
    /// the wallet, delegated to the verifier contract, governing calls into
    /// the counter contract, with no expiry and no policies.
    pub fn initialize(&mut self, verifier: u64, public_key: Vec<u8>, counter: u64)
        requires
            old(self).wf(),
            old(self).next_id < u32::MAX,
            public_key@.len() == 32,
        ensures
            final(self).wf(),
            final(self).next_id == old(self).next_id + 1,
            final(self).rules@.len() == old(self).rules@.len() + 1,
            forall|i: int|
                0 <= i < old(self).rules@.len() ==> final(self).rules@[i] == old(self).rules@[i],
            final(self).rules@.last()@ == (RuleModel {
                id: old(self).next_id,
                context_type: ContextRuleType::CallContract(counter),
                name: phantom_rule_name(),
                valid_until: None,
                signers: seq![SignerModel::External(verifier, public_key@)],
                policies: Seq::empty(),
            }),
    {
        let mut signers: Vec<Signer> = Vec::new();
        signers.push(Signer::External(verifier, public_key));
        let policies: Vec<Policy> = Vec::new();
        proof {
            assert(signers@.map_values(|s: Signer| s@) =~= seq![
                SignerModel::External(verifier, public_key@),
            ]);
        }
        let name = phantom_rule_name_bytes();
        let r = self.add_context_rule(
            ContextRuleType::CallContract(counter),
            name,
            None,
            signers,
            policies,
        );
        proof {
            assert(r is Ok);
            assert(self.rules@.last()@ =~= (RuleModel {
                id: old(self).next_id,
                context_type: ContextRuleType::CallContract(counter),
                name: phantom_rule_name(),
                valid_until: None,
                signers: seq![SignerModel::External(verifier, public_key@)],
                policies: Seq::empty(),
            }));
        }
    }
}

/// The name the initialization rule is registered under: the ASCII text
/// `phantom-signer`.
pub open spec fn phantom_rule_name() -> Seq<u8> {
    seq![112u8, 104u8, 97u8, 110u8, 116u8, 111u8, 109u8, 45u8, 115u8, 105u8, 103u8, 110u8, 101u8, 114u8]
}

/// The initialization rule's name as bytes.
pub fn phantom_rule_name_bytes() -> (r: Vec<u8>)
    ensures
        r@ == phantom_rule_name(),
{
    let mut v: Vec<u8> = Vec::new();
    v.push(112);
    v.push(104);
    v.push(97);
    v.push(110);
    v.push(116);
    v.push(111);
    v.push(109);
    v.push(45);
    v.push(115);
    v.push(105);
    v.push(103);
    v.push(110);
    v.push(101);
    v.push(114);
    proof {
        assert(v@ =~= phantom_rule_name());
    }
    v
}

} // verus!
