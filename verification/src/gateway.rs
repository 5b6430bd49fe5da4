//! The decisions of the chat completions endpoint: which outside step runs
//! next, and how the request is answered and counted.

use vstd::prelude::*;
use crate::kernel::capability::{capability_failure_details, failure_details, stops, CapabilityResult};

verus! {

/// Where a chat completion request stands.
#[derive(Clone, Copy, PartialEq, Eq, Structural, Debug)]
pub enum ChatStage {
    RequestHooks,
    Planning,
    RateLimit,
    Provider,
    ResponseHooks,
    Answered,
}

/// What a provider answered with.
#[derive(Clone, Copy, PartialEq, Eq, Structural, Debug)]
pub enum ProviderReply {
    Json,
    Stream,
}

/// What the outside step that was asked for reported.
pub enum ChatEvent {
    /// The request hooks finished with this result, or failed to run.
    RequestHooks(Option<CapabilityResult>),
    /// The execution intent of a dry run was planned, or planning failed.
    IntentPlanned(bool),
    /// The rate limiter allowed the request or not.
    RateLimit(bool),
    /// The provider replied, or every configured provider failed.
    Provider(Option<ProviderReply>),
    /// The response hooks finished with this result, or failed to run.
    ResponseHooks(Option<CapabilityResult>),
}

/// The counter an answer is counted under.
#[derive(Clone, Copy, PartialEq, Eq, Structural, Debug)]
pub enum Tally {
    /// The request counter, under this status.
    Requests(u16),
    /// The plugin error counter.
    PluginErrors,
    /// The provider error counter and the request counter under 502.
    ProviderFailure,
}

/// The next thing to do for a request.
pub enum ChatAction {
    RunRequestHooks,
    /// Plan the execution intent of a dry run.
    PlanIntent,
    CheckRateLimit,
    CallProvider,
    RunResponseHooks,
    /// Answer with `status`: the provider's reply (for a dry run, the
    /// planned intent) when `error` is `None`, else an error with this
    /// message and kind.
    Respond { status: u16, error: Option<(String, String)>, tally: Tally },
}

/// The status an HTTP response can carry for `code`: codes outside
/// 100..=999 are answered 403.
pub open spec fn answer_status(code: u16) -> u16 {
    if 100 <= code <= 999 {
        code
    } else {
        403
    }
}

/// The stage a request moves to on `event`.
pub open spec fn next_stage(dry_run: bool, event: ChatEvent) -> ChatStage {
    match event {
        ChatEvent::RequestHooks(Some(r)) => if stops(r) {
            ChatStage::Answered
        } else if dry_run {
            ChatStage::Planning
        } else {
            ChatStage::RateLimit
        },
        ChatEvent::RateLimit(allowed) => if allowed {
            ChatStage::Provider
        } else {
            ChatStage::Answered
        },
        ChatEvent::Provider(Some(ProviderReply::Json)) => ChatStage::ResponseHooks,
        _ => ChatStage::Answered,
    }
}

/// Each of `events` answers the step its request waited for, starting
/// from the request hooks.
pub open spec fn trace_fits(dry_run: bool, events: Seq<ChatEvent>) -> bool
    decreases events.len(),
{
    if events.len() == 0 {
        true
    } else {
        trace_fits(dry_run, events.drop_last()) && event_fits(stage_after(dry_run, events.drop_last()), events.last())
    }
}

/// The stage a request reaches through `events`.
pub open spec fn stage_after(dry_run: bool, events: Seq<ChatEvent>) -> ChatStage
    decreases events.len(),
{
    if events.len() == 0 {
        ChatStage::RequestHooks
    } else {
        next_stage(dry_run, events.last())
    }
}

/// A provider is called only for a request that is not a dry run, whose
/// request hooks all continued and that the rate limiter then allowed.
pub proof fn lemma_provider_only_after_admission(dry_run: bool, events: Seq<ChatEvent>)
    requires
        trace_fits(dry_run, events),
        stage_after(dry_run, events) == ChatStage::Provider,
    ensures
        !dry_run,
        events.len() == 2,
        events[0] matches ChatEvent::RequestHooks(Some(r)) && !stops(r),
        events[1] matches ChatEvent::RateLimit(true),
{
    let e = events.drop_last();
    assert(events.last() matches ChatEvent::RateLimit(true));
    assert(trace_fits(dry_run, e));
    assert(stage_after(dry_run, e) == ChatStage::RateLimit);
    assert(e.len() > 0);
    let d = e.drop_last();
    assert(e.last() matches ChatEvent::RequestHooks(Some(r)) && !stops(r));
    assert(event_fits(stage_after(dry_run, d), e.last()));
    assert(d.len() == 0);
    assert(events[0] == e.last());
}

/// An answered request takes no further event: it is answered once.
pub proof fn lemma_answered_once(event: ChatEvent)
    ensures
        !event_fits(ChatStage::Answered, event),
{
}

/// The event answers the step that `stage` waits for.
pub open spec fn event_fits(stage: ChatStage, event: ChatEvent) -> bool {
    match event {
        ChatEvent::RequestHooks(_) => stage == ChatStage::RequestHooks,
        ChatEvent::IntentPlanned(_) => stage == ChatStage::Planning,
        ChatEvent::RateLimit(_) => stage == ChatStage::RateLimit,
        ChatEvent::Provider(_) => stage == ChatStage::Provider,
        ChatEvent::ResponseHooks(_) => stage == ChatStage::ResponseHooks,
    }
}

/// `a` answers with `status`, the given error message and kind, counted
/// under `tally`.
pub open spec fn responds_error(a: ChatAction, status: u16, message: Seq<char>, kind: Seq<char>, tally: Tally) -> bool {
    match a {
        ChatAction::Respond { status: s, error: Some(e), tally: t } => s == status && e.0@ == message && e.1@
            == kind && t == tally,
        _ => false,
    }
}

/// `a` answers 200 with the provider's reply.
pub open spec fn responds_ok(a: ChatAction) -> bool {
    a matches ChatAction::Respond { status: 200, error: None, tally: Tally::Requests(200) }
}

/// `a` answers with the details of the halting hook result `r`.
pub open spec fn responds_failure(a: ChatAction, r: CapabilityResult) -> bool {
    let (code, message, kind) = failure_details(r);
    responds_error(a, answer_status(code), message, kind, Tally::Requests(code))
}

/// The answer to a halting hook result.
fn halt_with(r: CapabilityResult) -> (a: ChatAction)
    ensures
        responds_failure(a, r),
{
    let (code, message, kind) = capability_failure_details(r);
    let status = if 100 <= code && code <= 999 { code } else { 403 };
    ChatAction::Respond { status, error: Some((message, kind)), tally: Tally::Requests(code) }
}

/// An error answer with a fixed message and kind.
fn fixed_error(status: u16, message: &str, kind: &str, tally: Tally) -> (a: ChatAction)
    ensures
        responds_error(a, status, message@, kind@, tally),
{
    ChatAction::Respond { status, error: Some((String::from_str(message), String::from_str(kind))), tally }
}

/// The progress of one chat completion request.
pub struct ChatFlow {
    pub stage: ChatStage,
    /// The request only asks for its plan: no provider is called.
    pub dry_run: bool,
}

impl ChatFlow {
    /// A request starts by running the request hooks.
    pub fn start(dry_run: bool) -> (r: (ChatFlow, ChatAction))
        ensures
            r.0.stage == ChatStage::RequestHooks,
            r.0.dry_run == dry_run,
            r.1 is RunRequestHooks,
    {
        (ChatFlow { stage: ChatStage::RequestHooks, dry_run }, ChatAction::RunRequestHooks)
    }

    /// Takes the report of the step that ran and decides the next one.
    /// Request hooks that continue lead to the planning of a dry run, or
    /// else to the rate limit; an allowed request goes to the providers, a
    /// JSON reply to the response hooks; a stream and a planned dry run are
    /// answered at once. Halting hook results are answered with their
    /// details, a failure to run hooks or to plan with 500, a limited
    /// request with 429, and a request no provider served with 502.
    pub fn step(&mut self, event: ChatEvent) -> (a: ChatAction)
        requires
            event_fits(old(self).stage, event),
        ensures
            final(self).dry_run == old(self).dry_run,
            final(self).stage == next_stage(old(self).dry_run, event),
            match event {
                ChatEvent::RequestHooks(Some(r)) => if stops(r) {
                    final(self).stage == ChatStage::Answered && responds_failure(a, r)
                } else if old(self).dry_run {
                    final(self).stage == ChatStage::Planning && a is PlanIntent
                } else {
                    final(self).stage == ChatStage::RateLimit && a is CheckRateLimit
                },
                ChatEvent::IntentPlanned(planned) => final(self).stage == ChatStage::Answered && if planned {
                    responds_ok(a)
                } else {
                    responds_error(a, 500, "capability planning failure"@, "capability_error"@, Tally::PluginErrors)
                },
                ChatEvent::RequestHooks(None) => final(self).stage == ChatStage::Answered
                    && responds_error(a, 500, "capability runtime request failure"@, "capability_error"@, Tally::PluginErrors),
                ChatEvent::RateLimit(allowed) => if allowed {
                    final(self).stage == ChatStage::Provider && a is CallProvider
                } else {
                    final(self).stage == ChatStage::Answered
                        && responds_error(a, 429, "rate limited"@, "rate_limit"@, Tally::Requests(429))
                },
                ChatEvent::Provider(Some(ProviderReply::Json)) => final(self).stage == ChatStage::ResponseHooks
                    && a is RunResponseHooks,
                ChatEvent::Provider(Some(ProviderReply::Stream)) => final(self).stage == ChatStage::Answered
                    && responds_ok(a),
                ChatEvent::Provider(None) => final(self).stage == ChatStage::Answered
                    && responds_error(a, 502, "all configured providers failed"@, "provider_error"@, Tally::ProviderFailure),
                ChatEvent::ResponseHooks(Some(r)) => final(self).stage == ChatStage::Answered && if stops(r) {
                    responds_failure(a, r)
                } else {
                    responds_ok(a)
                },
                ChatEvent::ResponseHooks(None) => final(self).stage == ChatStage::Answered
                    && responds_error(a, 500, "capability runtime response failure"@, "capability_error"@, Tally::PluginErrors),
            },
    {
        match event {
            ChatEvent::RequestHooks(Some(r)) => {
                if r.should_stop() {
                    self.stage = ChatStage::Answered;
                    halt_with(r)
                } else if self.dry_run {
                    self.stage = ChatStage::Planning;
                    ChatAction::PlanIntent
                } else {
                    self.stage = ChatStage::RateLimit;
                    ChatAction::CheckRateLimit
                }
            },
            ChatEvent::IntentPlanned(planned) => {
                self.stage = ChatStage::Answered;
                if planned {
                    ChatAction::Respond { status: 200, error: None, tally: Tally::Requests(200) }
                } else {
                    fixed_error(500, "capability planning failure", "capability_error", Tally::PluginErrors)
                }
            },
            ChatEvent::RequestHooks(None) => {
                self.stage = ChatStage::Answered;
                fixed_error(500, "capability runtime request failure", "capability_error", Tally::PluginErrors)
            },
            ChatEvent::RateLimit(allowed) => {
                if allowed {
                    self.stage = ChatStage::Provider;
                    ChatAction::CallProvider
                } else {
                    self.stage = ChatStage::Answered;
                    fixed_error(429, "rate limited", "rate_limit", Tally::Requests(429))
                }
            },
            ChatEvent::Provider(Some(ProviderReply::Json)) => {
                self.stage = ChatStage::ResponseHooks;
                ChatAction::RunResponseHooks
            },
            ChatEvent::Provider(Some(ProviderReply::Stream)) => {
                self.stage = ChatStage::Answered;
                ChatAction::Respond { status: 200, error: None, tally: Tally::Requests(200) }
            },
            ChatEvent::Provider(None) => {
                self.stage = ChatStage::Answered;
                fixed_error(502, "all configured providers failed", "provider_error", Tally::ProviderFailure)
            },
            ChatEvent::ResponseHooks(Some(r)) => {
                self.stage = ChatStage::Answered;
                if r.should_stop() {
                    halt_with(r)
                } else {
                    ChatAction::Respond { status: 200, error: None, tally: Tally::Requests(200) }
                }
            },
            ChatEvent::ResponseHooks(None) => {
                self.stage = ChatStage::Answered;
                fixed_error(500, "capability runtime response failure", "capability_error", Tally::PluginErrors)
            },
        }
    }
}

} // verus!
