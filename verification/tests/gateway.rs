use aether::capabilities::auth::IdentityCapability;
use aether::config::AuthConfig;
use aether::gateway::{ChatAction, ChatEvent, ChatFlow, ChatStage, ProviderReply, Tally};
use aether::kernel::capability::CapabilityResult;
use aether::kernel::context::Identity;
use aether::strmap::StrMap;

fn answer(a: ChatAction) -> (u16, Option<(String, String)>, Tally) {
    match a {
        ChatAction::Respond { status, error, tally } => (status, error, tally),
        _ => panic!("expected an answer"),
    }
}

#[test]
fn rejects_unauthorized_chat() {
    let identity_cap = IdentityCapability::new(AuthConfig { virtual_keys: vec!["dev-key".to_string()] });
    let mut headers = StrMap::new();
    headers.insert("content-type".to_string(), "application/json".to_string());
    let mut identity = Identity { api_key: None, authenticated: false, plan: "free".to_string() };
    let (mut flow, first) = ChatFlow::start(false);
    assert!(matches!(first, ChatAction::RunRequestHooks));
    let result = identity_cap.on_request(&headers, &mut identity);
    let (status, error, _) = answer(flow.step(ChatEvent::RequestHooks(Some(result))));
    assert_eq!(status, 401);
    assert_eq!(error, Some(("unauthorized".to_string(), "invalid_api_key".to_string())));
    assert!(flow.stage == ChatStage::Answered);
}

#[test]
fn an_admitted_json_request_runs_every_step() {
    let (mut flow, _) = ChatFlow::start(false);
    assert!(matches!(flow.step(ChatEvent::RequestHooks(Some(CapabilityResult::Continue))), ChatAction::CheckRateLimit));
    assert!(matches!(flow.step(ChatEvent::RateLimit(true)), ChatAction::CallProvider));
    assert!(matches!(flow.step(ChatEvent::Provider(Some(ProviderReply::Json))), ChatAction::RunResponseHooks));
    let (status, error, tally) = answer(flow.step(ChatEvent::ResponseHooks(Some(CapabilityResult::Modify))));
    assert_eq!(status, 200);
    assert!(error.is_none());
    assert!(tally == Tally::Requests(200));
}

#[test]
fn streams_are_answered_without_response_hooks() {
    let (mut flow, _) = ChatFlow::start(false);
    flow.step(ChatEvent::RequestHooks(Some(CapabilityResult::Continue)));
    flow.step(ChatEvent::RateLimit(true));
    let (status, error, _) = answer(flow.step(ChatEvent::Provider(Some(ProviderReply::Stream))));
    assert_eq!(status, 200);
    assert!(error.is_none());
}

#[test]
fn limited_and_failed_requests_are_answered() {
    let (mut flow, _) = ChatFlow::start(false);
    flow.step(ChatEvent::RequestHooks(Some(CapabilityResult::Continue)));
    let (status, error, tally) = answer(flow.step(ChatEvent::RateLimit(false)));
    assert_eq!(status, 429);
    assert_eq!(error, Some(("rate limited".to_string(), "rate_limit".to_string())));
    assert!(tally == Tally::Requests(429));

    let (mut flow, _) = ChatFlow::start(false);
    flow.step(ChatEvent::RequestHooks(Some(CapabilityResult::Continue)));
    flow.step(ChatEvent::RateLimit(true));
    let (status, error, tally) = answer(flow.step(ChatEvent::Provider(None)));
    assert_eq!(status, 502);
    assert_eq!(error, Some(("all configured providers failed".to_string(), "provider_error".to_string())));
    assert!(tally == Tally::ProviderFailure);

    let (mut flow, _) = ChatFlow::start(false);
    let (status, _, tally) = answer(flow.step(ChatEvent::RequestHooks(None)));
    assert_eq!(status, 500);
    assert!(tally == Tally::PluginErrors);
}

#[test]
fn hook_results_become_error_answers() {
    let (mut flow, _) = ChatFlow::start(false);
    let (status, error, tally) =
        answer(flow.step(ChatEvent::RequestHooks(Some(CapabilityResult::Redirect { target: "/elsewhere".to_string() }))));
    assert_eq!(status, 307);
    assert_eq!(error, Some(("/elsewhere".to_string(), "capability_redirect".to_string())));
    assert!(tally == Tally::Requests(307));

    let (mut flow, _) = ChatFlow::start(false);
    let (status, _, tally) = answer(flow.step(ChatEvent::RequestHooks(Some(CapabilityResult::Stop {
        message: "odd".to_string(),
        kind: "k".to_string(),
        status_code: 42,
    }))));
    assert_eq!(status, 403);
    assert!(tally == Tally::Requests(42));
}

#[test]
fn a_dry_run_is_planned_instead_of_sent() {
    let (mut flow, _) = ChatFlow::start(true);
    assert!(matches!(flow.step(ChatEvent::RequestHooks(Some(CapabilityResult::Continue))), ChatAction::PlanIntent));
    let (status, error, tally) = answer(flow.step(ChatEvent::IntentPlanned(true)));
    assert_eq!(status, 200);
    assert!(error.is_none());
    assert!(tally == Tally::Requests(200));

    let (mut flow, _) = ChatFlow::start(true);
    flow.step(ChatEvent::RequestHooks(Some(CapabilityResult::Continue)));
    let (status, error, _) = answer(flow.step(ChatEvent::IntentPlanned(false)));
    assert_eq!(status, 500);
    assert_eq!(error, Some(("capability planning failure".to_string(), "capability_error".to_string())));

    let (mut flow, _) = ChatFlow::start(true);
    let (status, _, _) = answer(flow.step(ChatEvent::RequestHooks(Some(CapabilityResult::Fail {
        message: "unauthorized".to_string(),
        kind: "invalid_api_key".to_string(),
        status_code: 401,
    }))));
    assert_eq!(status, 401);
}
