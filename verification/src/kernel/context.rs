//! What the capabilities know of the caller and of the policy outcome.

use vstd::prelude::*;

verus! {

/// The caller of a request.
pub struct Identity {
    pub api_key: Option<String>,
    pub authenticated: bool,
    pub plan: String,
}

impl Default for Identity {
    fn default() -> (r: Self)
        ensures
            r.api_key is None,
            !r.authenticated,
            r.plan@.len() == 0,
    {
        Identity { api_key: None, authenticated: false, plan: String::new() }
    }
}

/// What the policies decided about a request.
pub struct PolicyContext {
    pub denied_by: Option<String>,
    pub requires_approval: bool,
    pub matched_rules: Vec<String>,
}

impl Default for PolicyContext {
    fn default() -> (r: Self)
        ensures
            r.denied_by is None,
            !r.requires_approval,
            r.matched_rules@.len() == 0,
    {
        PolicyContext { denied_by: None, requires_approval: false, matched_rules: Vec::new() }
    }
}

} // verus!
