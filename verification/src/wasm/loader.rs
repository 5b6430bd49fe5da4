//! The capability that runs the Wasm plugins: its manifest, and what a
//! plugin chain's answer means for the request or response.

use vstd::prelude::*;
use crate::kernel::capability::CapabilityResult;
use crate::kernel::manifest::{CapabilityManifest, string_list, strs};

verus! {

/// Runs the configured plugins on requests and responses.
pub struct WasmCapability;

/// What becomes of a plugin chain's answer.
pub struct PluginDecision {
    pub result: CapabilityResult,
    /// The body the plugins returned replaces the request or response.
    pub replace_body: bool,
}

/// A rejection stops the flow with 403 and the plugin's reason (or
/// "rejected by plugin"); an allowing answer with a usable body replaces
/// the body (`Modify`); otherwise the flow continues unchanged.
pub open spec fn plugin_decision_spec(allow: bool, reject_reason: Option<String>, body_usable: bool, d: PluginDecision) -> bool {
    if !allow {
        &&& d.result matches CapabilityResult::Stop { message, kind, status_code }
            && message@ == (match reject_reason {
                Some(r) => r@,
                None => "rejected by plugin"@,
            }) && kind@ == "plugin_reject"@ && status_code == 403
        &&& !d.replace_body
    } else if body_usable {
        d.result is Modify && d.replace_body
    } else {
        d.result is Continue && !d.replace_body
    }
}

impl WasmCapability {
    pub fn id(&self) -> (r: &'static str)
        ensures
            r@ == "wasm"@,
    {
        "wasm"
    }

    pub fn version(&self) -> (r: &'static str)
        ensures
            r@ == "v1"@,
    {
        "v1"
    }

    /// Provides `plugins` once `provider.selection` is known, so that the
    /// plugins run last on requests and first on responses.
    pub fn manifest(&self) -> (m: CapabilityManifest)
        ensures
            m.id@ == "wasm"@,
            m.version@ == "v1"@,
            strs(m.provides@) == seq!["plugins"@],
            strs(m.requires@) == seq!["provider.selection"@],
            m.before@.len() == 0,
            m.after@.len() == 0,
            strs(m.tags@) == seq!["wasm"@],
            strs(m.permissions@) == seq!["plugins.execute"@],
            m.cost == 1,
    {
        let m = CapabilityManifest {
            id: String::from_str(self.id()),
            version: String::from_str(self.version()),
            provides: string_list(&["plugins"]),
            requires: string_list(&["provider.selection"]),
            before: Vec::new(),
            after: Vec::new(),
            tags: string_list(&["wasm"]),
            permissions: string_list(&["plugins.execute"]),
            cost: 1,
        };
        assert(strs(m.provides@) =~= seq!["plugins"@]);
        assert(strs(m.requires@) =~= seq!["provider.selection"@]);
        assert(strs(m.tags@) =~= seq!["wasm"@]);
        assert(strs(m.permissions@) =~= seq!["plugins.execute"@]);
        m
    }

    /// What the plugin chain's answer does: `allow`, its reject reason, and
    /// whether it returned a body that fits the request or response.
    pub fn decide(allow: bool, reject_reason: Option<String>, body_usable: bool) -> (d: PluginDecision)
        ensures
            plugin_decision_spec(allow, reject_reason, body_usable, d),
    {
        if !allow {
            let message = match reject_reason {
                Some(r) => r,
                None => String::from_str("rejected by plugin"),
            };
            return PluginDecision {
                result: CapabilityResult::Stop { message, kind: String::from_str("plugin_reject"), status_code: 403 },
                replace_body: false,
            };
        }
        if body_usable {
            PluginDecision { result: CapabilityResult::Modify, replace_body: true }
        } else {
            PluginDecision { result: CapabilityResult::Continue, replace_body: false }
        }
    }
}

} // verus!
