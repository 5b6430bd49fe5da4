//! The outcome a capability reports for a request or response.

use vstd::prelude::*;

verus! {

/// What a capability decided about the request or response it saw.
pub enum CapabilityResult {
    Continue,
    Modify,
    Stop { message: String, kind: String, status_code: u16 },
    Retry { reason: String },
    Suspend { reason: String },
    RequireApproval { message: String, kind: String, status_code: u16 },
    Redirect { target: String },
    Fail { message: String, kind: String, status_code: u16 },
}

/// The pipeline halts on every result but `Continue` and `Modify`.
pub open spec fn stops(r: CapabilityResult) -> bool {
    !(r is Continue || r is Modify)
}

impl CapabilityResult {
    pub fn should_stop(&self) -> (r: bool)
        ensures
            r == stops(*self),
    {
        match self {
            CapabilityResult::Continue | CapabilityResult::Modify => false,
            _ => true,
        }
    }
}

/// The HTTP status, message and error kind that a halting result is
/// answered with.
pub open spec fn failure_details(result: CapabilityResult) -> (u16, Seq<char>, Seq<char>) {
    match result {
        CapabilityResult::Stop { message, kind, status_code } => (status_code, message@, kind@),
        CapabilityResult::RequireApproval { message, kind, status_code } => (status_code, message@, kind@),
        CapabilityResult::Fail { message, kind, status_code } => (status_code, message@, kind@),
        CapabilityResult::Retry { reason } => (503, reason@, "capability_retry"@),
        CapabilityResult::Suspend { reason } => (503, reason@, "capability_suspend"@),
        CapabilityResult::Redirect { target } => (307, target@, "capability_redirect"@),
        _ => (500, "unexpected capability state"@, "capability_error"@),
    }
}

/// Maps a halting capability result to the status, message and kind of the
/// error response.
pub fn capability_failure_details(result: CapabilityResult) -> (r: (u16, String, String))
    ensures
        (r.0, r.1@, r.2@) == failure_details(result),
{
    match result {
        CapabilityResult::Stop { message, kind, status_code } => (status_code, message, kind),
        CapabilityResult::RequireApproval { message, kind, status_code } => (status_code, message, kind),
        CapabilityResult::Fail { message, kind, status_code } => (status_code, message, kind),
        CapabilityResult::Retry { reason } => (503, reason, String::from_str("capability_retry")),
        CapabilityResult::Suspend { reason } => (503, reason, String::from_str("capability_suspend")),
        CapabilityResult::Redirect { target } => (307, target, String::from_str("capability_redirect")),
        CapabilityResult::Continue | CapabilityResult::Modify => (
            500,
            String::from_str("unexpected capability state"),
            String::from_str("capability_error"),
        ),
    }
}

} // verus!
