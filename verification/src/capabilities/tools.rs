//! The tool capability: records the tools a request offers.

use vstd::prelude::*;
use crate::kernel::manifest::{CapabilityManifest, string_list, strs};

verus! {

/// Exposes the tools of a request to later capabilities.
pub struct ToolMcpCapability;

impl ToolMcpCapability {
    pub fn id(&self) -> (r: &'static str)
        ensures
            r@ == "tool_mcp"@,
    {
        "tool_mcp"
    }

    pub fn version(&self) -> (r: &'static str)
        ensures
            r@ == "v1"@,
    {
        "v1"
    }

    /// Provides `tools` once `semantic.intent` is known.
    pub fn manifest(&self) -> (m: CapabilityManifest)
        ensures
            m.id@ == "tool_mcp"@,
            m.version@ == "v1"@,
            strs(m.provides@) == seq!["tools"@],
            strs(m.requires@) == seq!["semantic.intent"@],
            m.before@.len() == 0,
            m.after@.len() == 0,
            strs(m.tags@) == seq!["tools"@],
            strs(m.permissions@) == seq!["tools.use"@],
            m.cost == 1,
    {
        let m = CapabilityManifest {
            id: String::from_str(self.id()),
            version: String::from_str(self.version()),
            provides: string_list(&["tools"]),
            requires: string_list(&["semantic.intent"]),
            before: Vec::new(),
            after: Vec::new(),
            tags: string_list(&["tools"]),
            permissions: string_list(&["tools.use"]),
            cost: 1,
        };
        assert(strs(m.provides@) =~= seq!["tools"@]);
        assert(strs(m.requires@) =~= seq!["semantic.intent"@]);
        assert(strs(m.tags@) =~= seq!["tools"@]);
        assert(strs(m.permissions@) =~= seq!["tools.use"@]);
        m
    }

    /// The tools (as JSON text) to record in the request metadata and the
    /// runtime facts: those of the request, if it has any.
    pub fn tools_to_record(tools: &Option<String>) -> (r: Option<String>)
        ensures
            match (r, *tools) {
                (Some(a), Some(b)) => a@ == b@,
                (None, None) => true,
                _ => false,
            },
    {
        match tools {
            Some(t) => Some(t.clone()),
            None => None,
        }
    }
}

} // verus!
