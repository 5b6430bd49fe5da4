//! The policy capability: applies the configured rules to free-plan
//! callers.

use vstd::prelude::*;
use crate::config::PolicyRule;
use crate::kernel::capability::CapabilityResult;
use crate::kernel::context::PolicyContext;
use crate::kernel::manifest::{CapabilityManifest, string_list, strs, strings_contain};
use crate::text::{concat_str, str_eq};

verus! {

/// Enforces the policy rules.
pub struct PolicyCapability {
    pub rules: Vec<PolicyRule>,
}

/// The outcome of the policy rules for a request.
pub enum PolicyVerdict {
    Allowed,
    Denied { rule: String },
    ApprovalRequired { rule: String },
}

/// The rule is conditioned on `user.plan` being `free`.
pub open spec fn rule_targets_free_plan(rule: PolicyRule) -> bool {
    rule.when@.contains_key("user.plan"@) && rule.when@["user.plan"@]@ == "free"@
}

/// The rule denies the model.
pub open spec fn rule_denies(rule: PolicyRule, model: Seq<char>) -> bool {
    strs(rule.deny.models@).contains(model)
}

/// The rule decides the request: it applies to the caller's plan and
/// denies the model or asks for approval.
pub open spec fn rule_decides(rule: PolicyRule, plan: Seq<char>, model: Seq<char>) -> bool {
    rule_targets_free_plan(rule) && plan == "free"@ && (rule_denies(rule, model) || rule.require_approval)
}

/// Rule `i` is the first that decides the request.
pub open spec fn first_deciding_rule(rules: Seq<PolicyRule>, plan: Seq<char>, model: Seq<char>, i: int) -> bool {
    0 <= i < rules.len() && rule_decides(rules[i], plan, model)
        && forall|i2: int| 0 <= i2 < i ==> !rule_decides(#[trigger] rules[i2], plan, model)
}

pub open spec fn denied_message(name: Seq<char>) -> Seq<char> {
    "request denied by policy '"@ + name + "'"@
}

pub open spec fn approval_message(name: Seq<char>) -> Seq<char> {
    "request requires approval by policy '"@ + name + "'"@
}

impl PolicyCapability {
    pub fn new(rules: Vec<PolicyRule>) -> (r: Self)
        ensures
            r.rules == rules,
    {
        PolicyCapability { rules }
    }

    pub fn id(&self) -> (r: &'static str)
        ensures
            r@ == "policy"@,
    {
        "policy"
    }

    pub fn version(&self) -> (r: &'static str)
        ensures
            r@ == "v1"@,
    {
        "v1"
    }

    /// Provides `policy` once `identity` is known.
    pub fn manifest(&self) -> (m: CapabilityManifest)
        ensures
            m.id@ == "policy"@,
            m.version@ == "v1"@,
            strs(m.provides@) == seq!["policy"@],
            strs(m.requires@) == seq!["identity"@],
            m.before@.len() == 0,
            m.after@.len() == 0,
            strs(m.tags@) == seq!["policy"@],
            strs(m.permissions@) == seq!["policy.enforce"@],
            m.cost == 1,
    {
        let m = CapabilityManifest {
            id: String::from_str(self.id()),
            version: String::from_str(self.version()),
            provides: string_list(&["policy"]),
            requires: string_list(&["identity"]),
            before: Vec::new(),
            after: Vec::new(),
            tags: string_list(&["policy"]),
            permissions: string_list(&["policy.enforce"]),
            cost: 1,
        };
        assert(strs(m.provides@) =~= seq!["policy"@]);
        assert(strs(m.requires@) =~= seq!["identity"@]);
        assert(strs(m.tags@) =~= seq!["policy"@]);
        assert(strs(m.permissions@) =~= seq!["policy.enforce"@]);
        m
    }

    /// Applies the first rule that decides the request: a denied model is
    /// refused (403, `policy_deny`) and recorded, otherwise approval is
    /// required (403, `policy_approval_required`). With no such rule the
    /// request continues and the policy context is unchanged.
    pub fn on_request(&self, plan: &str, model: &str, policy: &mut PolicyContext) -> (r: (PolicyVerdict, CapabilityResult))
        ensures
            (r.0 is Allowed) == (forall|i: int| 0 <= i < self.rules@.len() ==> !rule_decides(#[trigger] self.rules@[i], plan@, model@)),
            r.0 is Allowed ==> r.1 is Continue && *final(policy) == *old(policy),
            !(r.0 is Allowed) ==> exists|i: int| #[trigger] first_deciding_rule(self.rules@, plan@, model@, i) && {
                let name = self.rules@[i].name@;
                if rule_denies(self.rules@[i], model@) {
                    &&& r.0 matches PolicyVerdict::Denied { rule } && rule@ == name
                    &&& r.1 matches CapabilityResult::Fail { message, kind, status_code }
                        && message@ == denied_message(name) && kind@ == "policy_deny"@ && status_code == 403
                    &&& final(policy).denied_by matches Some(d) && d@ == name
                    &&& final(policy).matched_rules@.len() == old(policy).matched_rules@.len() + 1
                    &&& final(policy).matched_rules@.drop_last() == old(policy).matched_rules@
                    &&& final(policy).matched_rules@.last()@ == name
                    &&& final(policy).requires_approval == old(policy).requires_approval
                } else {
                    &&& r.0 matches PolicyVerdict::ApprovalRequired { rule } && rule@ == name
                    &&& r.1 matches CapabilityResult::RequireApproval { message, kind, status_code }
                        && message@ == approval_message(name) && kind@ == "policy_approval_required"@ && status_code == 403
                    &&& final(policy).requires_approval
                    &&& final(policy).denied_by == old(policy).denied_by
                    &&& final(policy).matched_rules == old(policy).matched_rules
                }
            },
    {
        let free = str_eq(plan, "free");
        let mut i: usize = 0;
        while i < self.rules.len()
            invariant
                i <= self.rules@.len(),
                free == (plan@ == "free"@),
                *policy == *old(policy),
                forall|i2: int| 0 <= i2 < i ==> !rule_decides(#[trigger] self.rules@[i2], plan@, model@),
            decreases self.rules@.len() - i,
        {
            let rule = &self.rules[i];
            let applies = match rule.when.get("user.plan") {
                Some(v) => str_eq(v.as_str(), "free"),
                None => false,
            };
            if applies && free {
                if strings_contain(&rule.deny.models, model) {
                    policy.denied_by = Some(rule.name.clone());
                    let ghost before = policy.matched_rules@;
                    policy.matched_rules.push(rule.name.clone());
                    assert(policy.matched_rules@.drop_last() =~= before);
                    let message = concat_str(concat_str("request denied by policy '", rule.name.as_str()).as_str(), "'");
                    assert(first_deciding_rule(self.rules@, plan@, model@, i as int));
                    return (
                        PolicyVerdict::Denied { rule: rule.name.clone() },
                        CapabilityResult::Fail { message, kind: String::from_str("policy_deny"), status_code: 403 },
                    );
                }
                if rule.require_approval {
                    policy.requires_approval = true;
                    let message = concat_str(concat_str("request requires approval by policy '", rule.name.as_str()).as_str(), "'");
                    assert(first_deciding_rule(self.rules@, plan@, model@, i as int));
                    return (
                        PolicyVerdict::ApprovalRequired { rule: rule.name.clone() },
                        CapabilityResult::RequireApproval {
                            message,
                            kind: String::from_str("policy_approval_required"),
                            status_code: 403,
                        },
                    );
                }
            }
            i = i + 1;
        }
        (PolicyVerdict::Allowed, CapabilityResult::Continue)
    }
}

} // verus!
