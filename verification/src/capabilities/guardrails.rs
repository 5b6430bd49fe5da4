//! The guardrail: refuses requests whose messages mention a blocked term.

use vstd::prelude::*;
use crate::kernel::capability::CapabilityResult;
use crate::kernel::manifest::{CapabilityManifest, string_list, strs};
use crate::models::ChatMessage;
use crate::text::{concat_str, contains_seq, contains_str, to_lowercase, unicode_lowercase};

verus! {

/// Blocks requests that contain any of the configured terms.
pub struct GuardrailCapability {
    pub blocked_terms: Vec<String>,
}

/// Term `k` occurs, case-insensitively, in the JSON text `content`.
pub open spec fn term_hit(terms: Seq<String>, content: Seq<char>, k: int) -> bool {
    0 <= k < terms.len() && contains_seq(unicode_lowercase(content), unicode_lowercase(terms[k]@))
}

/// Some term occurs in `content`.
pub open spec fn message_hit(terms: Seq<String>, content: Seq<char>) -> bool {
    exists|k: int| term_hit(terms, content, k)
}

/// The refusal message for term `t`.
pub open spec fn blocked_message(t: Seq<char>) -> Seq<char> {
    "request contains blocked term '"@ + t + "'"@
}

/// The index of the first of the lower-cased terms `lowered` that occurs in
/// the lower-cased text `text`.
pub fn first_lowered_hit(lowered: &Vec<String>, text: &str) -> (r: Option<usize>)
    ensures
        match r {
            Some(k) => k < lowered@.len() && contains_seq(text@, lowered@[k as int]@)
                && forall|k2: int| 0 <= k2 < k ==> !contains_seq(text@, #[trigger] lowered@[k2]@),
            None => forall|k2: int| 0 <= k2 < lowered@.len() ==> !contains_seq(text@, #[trigger] lowered@[k2]@),
        },
{
    let mut k: usize = 0;
    while k < lowered.len()
        invariant
            k <= lowered@.len(),
            forall|k2: int| 0 <= k2 < k ==> !contains_seq(text@, #[trigger] lowered@[k2]@),
        decreases lowered@.len() - k,
    {
        if contains_str(text, lowered[k].as_str()) {
            return Some(k);
        }
        k = k + 1;
    }
    None
}

fn first_term_hit(terms: &Vec<String>, content: &str) -> (r: Option<usize>)
    ensures
        match r {
            Some(k) => term_hit(terms@, content@, k as int) && forall|k2: int| 0 <= k2 < k ==> !term_hit(terms@, content@, k2),
            None => !message_hit(terms@, content@),
        },
{
    let raw = to_lowercase(content);
    let mut lowered: Vec<String> = Vec::new();
    let mut k: usize = 0;
    while k < terms.len()
        invariant
            k <= terms@.len(),
            lowered@.len() == k,
            forall|k2: int| 0 <= k2 < k ==> (#[trigger] lowered@[k2])@ == unicode_lowercase(terms@[k2]@),
        decreases terms@.len() - k,
    {
        lowered.push(to_lowercase(terms[k].as_str()));
        k = k + 1;
    }
    let r = first_lowered_hit(&lowered, raw.as_str());
    proof {
        assert forall|k2: int| 0 <= k2 < terms@.len() implies
            #[trigger] term_hit(terms@, content@, k2) == contains_seq(raw@, lowered@[k2]@) by {}
        if r is None {
            assert forall|k2: int| !term_hit(terms@, content@, k2) by {
                if 0 <= k2 < terms@.len() {
                    assert(!contains_seq(raw@, lowered@[k2]@));
                }
            }
        }
    }
    r
}

impl GuardrailCapability {
    pub fn new(blocked_terms: Vec<String>) -> (r: Self)
        ensures
            r.blocked_terms == blocked_terms,
    {
        GuardrailCapability { blocked_terms }
    }

    pub fn id(&self) -> (r: &'static str)
        ensures
            r@ == "pii_filter"@,
    {
        "pii_filter"
    }

    pub fn version(&self) -> (r: &'static str)
        ensures
            r@ == "v1"@,
    {
        "v1"
    }

    /// Provides `guardrails` once `semantic.intent` is known.
    pub fn manifest(&self) -> (m: CapabilityManifest)
        ensures
            m.id@ == "pii_filter"@,
            m.version@ == "v1"@,
            strs(m.provides@) == seq!["guardrails"@],
            strs(m.requires@) == seq!["semantic.intent"@],
            m.before@.len() == 0,
            m.after@.len() == 0,
            strs(m.tags@) == seq!["guardrails"@],
            strs(m.permissions@) == seq!["guardrails.scan"@],
            m.cost == 1,
    {
        let m = CapabilityManifest {
            id: String::from_str(self.id()),
            version: String::from_str(self.version()),
            provides: string_list(&["guardrails"]),
            requires: string_list(&["semantic.intent"]),
            before: Vec::new(),
            after: Vec::new(),
            tags: string_list(&["guardrails"]),
            permissions: string_list(&["guardrails.scan"]),
            cost: 1,
        };
        assert(strs(m.provides@) =~= seq!["guardrails"@]);
        assert(strs(m.requires@) =~= seq!["semantic.intent"@]);
        assert(strs(m.tags@) =~= seq!["guardrails"@]);
        assert(strs(m.permissions@) =~= seq!["guardrails.scan"@]);
        m
    }

    /// Stops the first message that contains a blocked term (the first
    /// such term of the list), comparing lower-cased texts.
    pub fn on_request(&self, messages: &Vec<ChatMessage>) -> (r: CapabilityResult)
        ensures
            (r is Continue) == (forall|m: int| 0 <= m < messages@.len() ==> !message_hit(self.blocked_terms@, #[trigger] messages@[m].content@)),
            !(r is Continue) ==> exists|m: int, k: int|
                #![trigger messages@[m], term_hit(self.blocked_terms@, messages@[m].content@, k)]
                0 <= m < messages@.len() && term_hit(self.blocked_terms@, messages@[m].content@, k)
                && (forall|m2: int| 0 <= m2 < m ==> !message_hit(self.blocked_terms@, #[trigger] messages@[m2].content@))
                && (forall|k2: int| 0 <= k2 < k ==> !term_hit(self.blocked_terms@, messages@[m].content@, k2))
                && (r matches CapabilityResult::Stop { message, kind, status_code }
                && message@ == blocked_message(self.blocked_terms@[k]@)
                && kind@ == "guardrail_reject"@ && status_code == 403),
    {
        if self.blocked_terms.len() == 0 {
            return CapabilityResult::Continue;
        }
        let mut m: usize = 0;
        while m < messages.len()
            invariant
                m <= messages@.len(),
                forall|m2: int| 0 <= m2 < m ==> !message_hit(self.blocked_terms@, #[trigger] messages@[m2].content@),
            decreases messages@.len() - m,
        {
            match first_term_hit(&self.blocked_terms, messages[m].content.as_str()) {
                Some(k) => {
                    let a = concat_str("request contains blocked term '", self.blocked_terms[k].as_str());
                    let message = concat_str(a.as_str(), "'");
                    let r = CapabilityResult::Stop {
                        message,
                        kind: String::from_str("guardrail_reject"),
                        status_code: 403,
                    };
                    assert(term_hit(self.blocked_terms@, messages@[m as int].content@, k as int));
                    return r;
                },
                None => {},
            }
            m = m + 1;
        }
        CapabilityResult::Continue
    }
}

} // verus!
