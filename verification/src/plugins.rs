//! The Wasm plugin protocol: how a hook's packed result names its output,
//! how a chain of plugins passes a body along, and the rule of the keyword
//! guardrail plugin.

use vstd::prelude::*;
use crate::text::{contains_seq, contains_str, str_eq, to_lowercase, unicode_lowercase};

verus! {

/// The pointer half of a packed hook result: its upper 32 bits.
pub open spec fn packed_ptr(packed: i64) -> i32 {
    (packed >> 32u64) as i32
}

/// The length half of a packed hook result: its lower 32 bits.
pub open spec fn packed_len(packed: i64) -> i32 {
    packed as i32
}

/// Packs an output pointer and length as `(ptr << 32) | len`.
pub open spec fn pack_spec(ptr: i32, len: i32) -> i64 {
    ((ptr as i64) << 32u64) | (len as u32 as i64)
}

/// Packs the output pointer and length of a hook result.
pub fn pack_output(ptr: i32, len: i32) -> (r: i64)
    ensures
        r == pack_spec(ptr, len),
{
    ((ptr as i64) << 32u64) | (len as u32 as i64)
}

/// The output pointer and length named by a packed hook result; `None`
/// when either is negative.
pub fn unpack_output(packed: i64) -> (r: Option<(i32, i32)>)
    ensures
        match r {
            Some((p, l)) => p == packed_ptr(packed) && l == packed_len(packed) && p >= 0 && l >= 0,
            None => packed_ptr(packed) < 0 || packed_len(packed) < 0,
        },
{
    let ptr = (packed >> 32u64) as i32;
    let len = packed as i32;
    if ptr < 0 || len < 0 {
        None
    } else {
        Some((ptr, len))
    }
}

/// Unpacking a packed result gives back the pointer and length that were
/// packed.
pub proof fn lemma_unpack_inverts_pack(ptr: i32, len: i32)
    ensures
        packed_ptr(pack_spec(ptr, len)) == ptr,
        packed_len(pack_spec(ptr, len)) == len,
{
    assert((((((ptr as i64) << 32u64) | (len as u32 as i64)) >> 32u64) as i32) == ptr) by (bit_vector)
    ;
    assert(((((ptr as i64) << 32u64) | (len as u32 as i64)) as i32) == len) by (bit_vector)
    ;
}

/// Where the body handed to the next plugin comes from: the hook's input or
/// the body returned by a plugin.
#[derive(Clone, Copy, PartialEq, Eq, Structural, Debug)]
pub enum BodySource {
    Input,
    Plugin(usize),
}

/// What a plugin answered: whether it allows the flow, and whether it
/// returned a body.
#[derive(Clone, Copy, PartialEq, Eq, Structural, Debug)]
pub struct HookOutcome {
    pub allow: bool,
    pub has_body: bool,
}

/// The next move of a plugin chain.
#[derive(Clone, Copy, PartialEq, Eq, Structural, Debug)]
pub enum ChainStep {
    /// Invoke plugin `plugin` with the body from `payload`.
    Invoke { plugin: usize, payload: BodySource },
    /// Plugin `plugin` rejected: its answer is the chain's answer.
    Rejected { plugin: usize },
    /// Every plugin allowed: the chain allows with the body from `body`.
    Allowed { body: BodySource },
}

/// The body current after the first `n` outcomes: that of the last plugin
/// that returned one, else the input.
pub open spec fn body_after(outcomes: Seq<HookOutcome>, n: nat) -> BodySource
    decreases n,
{
    if n == 0 {
        BodySource::Input
    } else if outcomes[n - 1].has_body {
        BodySource::Plugin((n - 1) as usize)
    } else {
        body_after(outcomes, (n - 1) as nat)
    }
}

/// The step a chain of `count` plugins takes after the allowing outcomes
/// `outcomes`.
pub open spec fn chain_step_after(count: nat, outcomes: Seq<HookOutcome>) -> ChainStep {
    let n = outcomes.len();
    if n < count {
        ChainStep::Invoke { plugin: n as usize, payload: body_after(outcomes, n) }
    } else {
        ChainStep::Allowed { body: body_after(outcomes, n) }
    }
}

/// Runs the plugins of a hook in order: each gets the current body, the
/// first rejection ends the chain, and a returned body replaces the
/// current one.
pub struct PluginChain {
    count: usize,
    outcomes: Ghost<Seq<HookOutcome>>,
    next: usize,
    body: BodySource,
    done: bool,
}

impl PluginChain {
    /// The allowing outcomes recorded so far.
    pub closed spec fn seen(&self) -> Seq<HookOutcome> {
        self.outcomes@
    }

    /// The number of plugins.
    pub closed spec fn plugins(&self) -> nat {
        self.count as nat
    }

    /// Whether the chain has ended.
    pub closed spec fn finished(&self) -> bool {
        self.done
    }

    pub closed spec fn wf(&self) -> bool {
        &&& self.next == self.outcomes@.len()
        &&& self.next <= self.count
        &&& self.body == body_after(self.outcomes@, self.next as nat)
        &&& forall|i: int| 0 <= i < self.outcomes@.len() ==> (#[trigger] self.outcomes@[i]).allow
        &&& (!self.done ==> self.next < self.count)
    }

    /// Starts a chain of `count` plugins.
    pub fn start(count: usize) -> (r: (PluginChain, ChainStep))
        ensures
            r.0.wf(),
            r.0.plugins() == count,
            r.0.seen() == Seq::<HookOutcome>::empty(),
            r.0.finished() == (count == 0),
            r.1 == chain_step_after(count as nat, Seq::empty()),
    {
        let chain = PluginChain { count, outcomes: Ghost(Seq::empty()), next: 0, body: BodySource::Input, done: count == 0 };
        if count == 0 {
            (chain, ChainStep::Allowed { body: BodySource::Input })
        } else {
            (chain, ChainStep::Invoke { plugin: 0, payload: BodySource::Input })
        }
    }

    /// Records what the invoked plugin answered and decides the next step.
    pub fn record(&mut self, outcome: HookOutcome) -> (step: ChainStep)
        requires
            old(self).wf(),
            !old(self).finished(),
        ensures
            final(self).wf(),
            final(self).plugins() == old(self).plugins(),
            if outcome.allow {
                &&& final(self).seen() == old(self).seen().push(outcome)
                &&& step == chain_step_after(old(self).plugins(), final(self).seen())
                &&& final(self).finished() == (final(self).seen().len() == old(self).plugins())
            } else {
                &&& final(self).seen() == old(self).seen()
                &&& step == (ChainStep::Rejected { plugin: old(self).seen().len() as usize })
                &&& final(self).finished()
            },
    {
        if !outcome.allow {
            self.done = true;
            return ChainStep::Rejected { plugin: self.next };
        }
        let ghost before = self.outcomes@;
        if outcome.has_body {
            self.body = BodySource::Plugin(self.next);
        }
        self.outcomes = Ghost(self.outcomes@.push(outcome));
        self.next = self.next + 1;
        proof {
            assert(self.outcomes@.take(self.next - 1) =~= before);
            assert forall|n: nat| n <= before.len() implies body_after(self.outcomes@, n) == body_after(before, n) by {
                lemma_body_after_prefix(before, self.outcomes@, n);
            }
        }
        if self.next == self.count {
            self.done = true;
            ChainStep::Allowed { body: self.body }
        } else {
            ChainStep::Invoke { plugin: self.next, payload: self.body }
        }
    }
}

proof fn lemma_body_after_prefix(a: Seq<HookOutcome>, b: Seq<HookOutcome>, n: nat)
    requires
        n <= a.len() <= b.len(),
        forall|i: int| 0 <= i < a.len() ==> a[i] == b[i],
    ensures
        body_after(a, n) == body_after(b, n),
    decreases n,
{
    if n > 0 {
        lemma_body_after_prefix(a, b, (n - 1) as nat);
    }
}

/// The keyword guardrail plugin rejects a request whose lower-cased
/// payload text `lowered` mentions "password" or "credit card"; it lets
/// responses and other hooks through.
pub open spec fn keyword_rejects_lowered(hook: Seq<char>, lowered: Seq<char>) -> bool {
    &&& hook == "on_request"@
    &&& (contains_seq(lowered, "password"@) || contains_seq(lowered, "credit card"@))
}

/// The verdict of the keyword guardrail on a payload text, lower-cased as
/// `str::to_lowercase` does.
pub open spec fn keyword_guardrail_rejects(hook: Seq<char>, payload_text: Seq<char>) -> bool {
    keyword_rejects_lowered(hook, unicode_lowercase(payload_text))
}

/// Whether the keyword guardrail rejects, on `hook`, a payload whose
/// lower-cased text is `lowered`.
pub fn keyword_guardrail_rejects_lowered(hook: &str, lowered: &str) -> (r: bool)
    ensures
        r == keyword_rejects_lowered(hook@, lowered@),
{
    let blocked = contains_str(lowered, "password") || contains_str(lowered, "credit card");
    str_eq(hook, "on_request") && blocked
}

/// Whether the keyword guardrail plugin rejects `payload_text` on `hook`.
pub fn keyword_guardrail_blocks(hook: &str, payload_text: &str) -> (r: bool)
    ensures
        r == keyword_guardrail_rejects(hook@, payload_text@),
{
    let lowered = to_lowercase(payload_text);
    keyword_guardrail_rejects_lowered(hook, lowered.as_str())
}

} // verus!
