//! Records of which capability hook ran.

use vstd::prelude::*;

verus! {

/// The hook of a capability that was invoked.
#[derive(Clone, Copy, PartialEq, Eq, Structural, Debug)]
pub enum LifecycleHook {
    OnRequest,
    OnResponse,
}

/// One invocation of a capability hook.
pub struct LifecycleEvent {
    pub capability_id: String,
    pub hook: LifecycleHook,
}

} // verus!
