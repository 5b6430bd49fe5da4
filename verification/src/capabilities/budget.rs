//! The budget guard: estimates the tokens of a request and refuses those
//! over the input budget.

use vstd::prelude::*;
use crate::kernel::capability::CapabilityResult;
use crate::kernel::manifest::{CapabilityManifest, string_list, strs};
use crate::text::{concat_str, decimal, decimal_string};

verus! {

/// Tokens estimated for each message.
pub const TOKENS_PER_MESSAGE: u64 = 256;

/// Guards the input-token budget of a request.
pub struct BudgetCapability {
    pub default_max_input_tokens: u64,
}

/// The budget figures of a request.
pub struct BudgetAssessment {
    pub max_input_tokens: u64,
    pub tokens_used: u64,
    pub remaining_budget: u64,
}

/// `a - b`, or 0 when `b` exceeds `a`.
pub open spec fn saturating_sub(a: u64, b: u64) -> u64 {
    if b <= a { (a - b) as u64 } else { 0 }
}

/// The refusal message of an over-budget request.
pub open spec fn over_budget_message(estimated: u64, max: u64) -> Seq<char> {
    "request exceeds budget estimate ("@ + decimal(estimated as nat) + " > "@ + decimal(max as nat) + ")"@
}

impl BudgetCapability {
    pub fn new(default_max_input_tokens: u64) -> (r: Self)
        ensures
            r.default_max_input_tokens == default_max_input_tokens,
    {
        BudgetCapability { default_max_input_tokens }
    }

    pub fn id(&self) -> (r: &'static str)
        ensures
            r@ == "budget_guard"@,
    {
        "budget_guard"
    }

    pub fn version(&self) -> (r: &'static str)
        ensures
            r@ == "v1"@,
    {
        "v1"
    }

    /// Provides `budget` once `identity` and `semantic.intent` are known, so
    /// that it runs after the semantic router.
    pub fn manifest(&self) -> (m: CapabilityManifest)
        ensures
            m.id@ == "budget_guard"@,
            m.version@ == "v1"@,
            strs(m.provides@) == seq!["budget"@],
            strs(m.requires@) == seq!["identity"@, "semantic.intent"@],
            m.before@.len() == 0,
            m.after@.len() == 0,
            strs(m.tags@) == seq!["budget"@],
            strs(m.permissions@) == seq!["budget.manage"@],
            m.cost == 1,
    {
        let m = CapabilityManifest {
            id: String::from_str(self.id()),
            version: String::from_str(self.version()),
            provides: string_list(&["budget"]),
            requires: string_list(&["identity", "semantic.intent"]),
            before: Vec::new(),
            after: Vec::new(),
            tags: string_list(&["budget"]),
            permissions: string_list(&["budget.manage"]),
            cost: 1,
        };
        assert(strs(m.provides@) =~= seq!["budget"@]);
        assert(strs(m.requires@) =~= seq!["identity"@, "semantic.intent"@]);
        assert(strs(m.tags@) =~= seq!["budget"@]);
        assert(strs(m.permissions@) =~= seq!["budget.manage"@]);
        m
    }

    /// Estimates `256` tokens per message; refuses with 429 when the
    /// estimate exceeds the input budget.
    pub fn on_request(&self, message_count: usize) -> (r: (BudgetAssessment, CapabilityResult))
        requires
            message_count * 256 <= u64::MAX,
        ensures
            r.0.max_input_tokens == self.default_max_input_tokens,
            r.0.tokens_used == message_count * 256,
            r.0.remaining_budget == saturating_sub(self.default_max_input_tokens, r.0.tokens_used),
            if r.0.tokens_used > self.default_max_input_tokens {
                r.1 matches CapabilityResult::Fail { message, kind, status_code }
                    && message@ == over_budget_message(r.0.tokens_used, self.default_max_input_tokens)
                    && kind@ == "budget_exceeded"@ && status_code == 429
            } else {
                r.1 is Continue
            },
    {
        let estimated: u64 = (message_count as u64) * TOKENS_PER_MESSAGE;
        let max = self.default_max_input_tokens;
        let remaining = if estimated <= max { max - estimated } else { 0 };
        let assessment = BudgetAssessment { max_input_tokens: max, tokens_used: estimated, remaining_budget: remaining };
        if estimated > max {
            let a = concat_str("request exceeds budget estimate (", decimal_string(estimated).as_str());
            let b = concat_str(a.as_str(), " > ");
            let c = concat_str(b.as_str(), decimal_string(max).as_str());
            let message = concat_str(c.as_str(), ")");
            return (assessment, CapabilityResult::Fail {
                message,
                kind: String::from_str("budget_exceeded"),
                status_code: 429,
            });
        }
        (assessment, CapabilityResult::Continue)
    }

    /// The planned token estimate and the budget left after it.
    pub fn plan_tokens(&self, message_count: usize) -> (r: (u64, u64))
        requires
            message_count * 256 <= u64::MAX,
        ensures
            r.0 == message_count * 256,
            r.1 == saturating_sub(self.default_max_input_tokens, r.0),
    {
        let estimated: u64 = (message_count as u64) * TOKENS_PER_MESSAGE;
        let max = self.default_max_input_tokens;
        let remaining = if estimated <= max { max - estimated } else { 0 };
        (estimated, remaining)
    }
}

} // verus!
