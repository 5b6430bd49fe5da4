//! The semantic router: classifies the intent of a request.

use vstd::prelude::*;
use crate::kernel::capability::CapabilityResult;
use crate::kernel::manifest::{CapabilityManifest, string_list, strs};

verus! {

/// Classifies requests as tool use or chat.
pub struct RoutingCapability;

/// An intent already set is kept; otherwise requests with tools are
/// `tools` and the rest `chat`.
pub open spec fn classified_intent(existing: Option<String>, has_tools: bool) -> Seq<char> {
    match existing {
        Some(i) => i@,
        None => if has_tools { "tools"@ } else { "chat"@ },
    }
}

/// How sure the router is of the intent: requests that carry tools are
/// classified with the higher confidence.
#[derive(Clone, Copy, PartialEq, Eq, Structural, Debug)]
pub enum ConfidenceTier {
    WithTools,
    WithoutTools,
}

/// What the router's request hook decides.
pub struct IntentDecision {
    pub intent: String,
    pub confidence: ConfidenceTier,
    pub result: CapabilityResult,
}

impl RoutingCapability {
    pub fn id(&self) -> (r: &'static str)
        ensures
            r@ == "semantic_router"@,
    {
        "semantic_router"
    }

    pub fn version(&self) -> (r: &'static str)
        ensures
            r@ == "v1"@,
    {
        "v1"
    }

    /// Provides `semantic.intent` once `policy` has run.
    pub fn manifest(&self) -> (m: CapabilityManifest)
        ensures
            m.id@ == "semantic_router"@,
            m.version@ == "v1"@,
            strs(m.provides@) == seq!["semantic.intent"@],
            strs(m.requires@) == seq!["policy"@],
            m.before@.len() == 0,
            m.after@.len() == 0,
            strs(m.tags@) == seq!["routing"@],
            strs(m.permissions@) == seq!["metadata.write"@],
            m.cost == 1,
    {
        let m = CapabilityManifest {
            id: String::from_str(self.id()),
            version: String::from_str(self.version()),
            provides: string_list(&["semantic.intent"]),
            requires: string_list(&["policy"]),
            before: Vec::new(),
            after: Vec::new(),
            tags: string_list(&["routing"]),
            permissions: string_list(&["metadata.write"]),
            cost: 1,
        };
        assert(strs(m.provides@) =~= seq!["semantic.intent"@]);
        assert(strs(m.requires@) =~= seq!["policy"@]);
        assert(strs(m.tags@) =~= seq!["routing"@]);
        assert(strs(m.permissions@) =~= seq!["metadata.write"@]);
        m
    }

    /// The intent of the request.
    pub fn classify(existing: &Option<String>, has_tools: bool) -> (r: String)
        ensures
            r@ == classified_intent(*existing, has_tools),
    {
        match existing {
            Some(i) => i.clone(),
            None => if has_tools {
                String::from_str("tools")
            } else {
                String::from_str("chat")
            },
        }
    }

    /// The request hook: the request's intent (kept when already set), the
    /// confidence tier by whether the request carries tools, and `Modify`,
    /// since the hook writes the intent into the request metadata.
    pub fn on_request(existing: &Option<String>, has_tools: bool) -> (r: IntentDecision)
        ensures
            r.intent@ == classified_intent(*existing, has_tools),
            r.confidence == (if has_tools { ConfidenceTier::WithTools } else { ConfidenceTier::WithoutTools }),
            r.result is Modify,
    {
        let intent = Self::classify(existing, has_tools);
        let confidence = if has_tools { ConfidenceTier::WithTools } else { ConfidenceTier::WithoutTools };
        IntentDecision { intent, confidence, result: CapabilityResult::Modify }
    }
}

} // verus!
