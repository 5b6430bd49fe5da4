//! Whether an execution intent must wait for approval.

use vstd::prelude::*;
use crate::runtime::planner_result::ApprovalRequest;

verus! {

/// Decides approval requirements.
pub struct ApprovalEngine;

impl ApprovalEngine {
    /// The first approval the intent asks for, if any.
    pub fn required(approvals: &Vec<ApprovalRequest>) -> (r: Option<ApprovalRequest>)
        ensures
            approvals@.len() == 0 ==> r is None,
            approvals@.len() > 0 ==> r is Some && r->0.reason@ == approvals@[0].reason@,
    {
        if approvals.len() == 0 {
            None
        } else {
            Some(approvals[0].duplicate())
        }
    }
}

} // verus!
