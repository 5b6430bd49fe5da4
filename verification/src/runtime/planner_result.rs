//! What each capability contributes to the plan of a request.

use vstd::prelude::*;
use crate::strmap::StrMap;

verus! {

/// Identity as the planner sees it.
pub struct IdentityDecision {
    pub authenticated: bool,
    pub api_key_present: bool,
    pub plan: String,
}

/// The policy verdict.
pub struct PolicyDecision {
    pub allowed: bool,
    pub matched_rules: Vec<String>,
    pub approval_required: bool,
}

/// The providers a request may go to, and the model each is given.
pub struct ProviderSelectionCandidates {
    pub providers: Vec<String>,
    pub selected_model: Option<String>,
    pub strategy: Option<String>,
    pub provider_models: StrMap<String>,
}

/// Tools the request needs.
pub struct RequiredTools {
    pub tools: Vec<String>,
}

/// A reason to hold the request for approval.
pub struct ApprovalRequest {
    pub reason: String,
}

impl ApprovalRequest {
    pub fn duplicate(&self) -> (r: Self)
        ensures
            r.reason@ == self.reason@,
    {
        ApprovalRequest { reason: self.reason.clone() }
    }
}

} // verus!
