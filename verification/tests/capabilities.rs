use aether::capabilities::budget::BudgetCapability;
use aether::capabilities::guardrails::{first_lowered_hit, GuardrailCapability};
use aether::capabilities::policy::{PolicyCapability, PolicyVerdict};
use aether::capabilities::routing::{ConfidenceTier, RoutingCapability};
use aether::wasm::loader::WasmCapability;
use aether::capabilities::providers::ProviderRoutingCapability;
use aether::capabilities::tools::ToolMcpCapability;
use aether::config::{PolicyDeny, PolicyRule};
use aether::kernel::capability::CapabilityResult;
use aether::kernel::context::PolicyContext;
use aether::models::ChatMessage;
use aether::strmap::StrMap;

fn message(content: &str) -> ChatMessage {
    ChatMessage { role: "user".to_string(), content: content.to_string() }
}

fn rule(name: &str, plan: &str, deny: &[&str], require_approval: bool) -> PolicyRule {
    let mut when = StrMap::new();
    when.insert("user.plan".to_string(), plan.to_string());
    PolicyRule {
        name: name.to_string(),
        when,
        deny: PolicyDeny { models: deny.iter().map(|m| m.to_string()).collect() },
        require_approval,
    }
}

#[test]
fn budget_refuses_requests_over_the_estimate() {
    let budget = BudgetCapability::new(512);
    let (a, r) = budget.on_request(2);
    assert_eq!((a.max_input_tokens, a.tokens_used, a.remaining_budget), (512, 512, 0));
    assert!(matches!(r, CapabilityResult::Continue));
    let (a, r) = budget.on_request(3);
    assert_eq!((a.tokens_used, a.remaining_budget), (768, 0));
    match r {
        CapabilityResult::Fail { message, kind, status_code } => {
            assert_eq!(message, "request exceeds budget estimate (768 > 512)");
            assert_eq!(kind, "budget_exceeded");
            assert_eq!(status_code, 429);
        }
        _ => panic!("expected a refusal"),
    }
    assert_eq!(budget.plan_tokens(1), (256, 256));
}

#[test]
fn guardrail_stops_the_first_blocked_term() {
    let guard = GuardrailCapability::new(vec!["Secret".to_string(), "token".to_string()]);
    let r = guard.on_request(&vec![message("\"hello\""), message("\"a TOKEN and a secret\"")]);
    match r {
        CapabilityResult::Stop { message, kind, status_code } => {
            assert_eq!(message, "request contains blocked term 'Secret'");
            assert_eq!(kind, "guardrail_reject");
            assert_eq!(status_code, 403);
        }
        _ => panic!("expected a stop"),
    }
    assert!(matches!(guard.on_request(&vec![message("\"fine\"")]), CapabilityResult::Continue));
    let open = GuardrailCapability::new(vec![]);
    assert!(matches!(open.on_request(&vec![message("\"secret\"")]), CapabilityResult::Continue));
    assert_eq!(first_lowered_hit(&vec!["b".to_string(), "a".to_string()], "abc"), Some(0));
    assert_eq!(first_lowered_hit(&vec!["z".to_string()], "abc"), None);
}

#[test]
fn policy_denies_or_asks_approval_for_free_plans() {
    let policy = PolicyCapability::new(vec![
        rule("no-gpt4", "free", &["openai:gpt-4o"], false),
        rule("needs-approval", "free", &[], true),
    ]);
    let mut ctx = PolicyContext::default();
    let (verdict, r) = policy.on_request("free", "openai:gpt-4o", &mut ctx);
    assert!(matches!(verdict, PolicyVerdict::Denied { ref rule } if rule == "no-gpt4"));
    match r {
        CapabilityResult::Fail { message, kind, status_code } => {
            assert_eq!(message, "request denied by policy 'no-gpt4'");
            assert_eq!(kind, "policy_deny");
            assert_eq!(status_code, 403);
        }
        _ => panic!("expected a denial"),
    }
    assert_eq!(ctx.denied_by.as_deref(), Some("no-gpt4"));
    assert_eq!(ctx.matched_rules, vec!["no-gpt4"]);

    let mut ctx = PolicyContext::default();
    let (verdict, r) = policy.on_request("free", "local:llama", &mut ctx);
    assert!(matches!(verdict, PolicyVerdict::ApprovalRequired { ref rule } if rule == "needs-approval"));
    assert!(matches!(r, CapabilityResult::RequireApproval { status_code: 403, .. }));
    assert!(ctx.requires_approval);

    let mut ctx = PolicyContext::default();
    let (verdict, r) = policy.on_request("pro", "openai:gpt-4o", &mut ctx);
    assert!(matches!(verdict, PolicyVerdict::Allowed));
    assert!(matches!(r, CapabilityResult::Continue));
    assert!(ctx.denied_by.is_none());
}

#[test]
fn routing_classifies_and_tools_are_recorded() {
    assert_eq!(RoutingCapability::classify(&None, true), "tools");
    assert_eq!(RoutingCapability::classify(&None, false), "chat");
    assert_eq!(RoutingCapability::classify(&Some("summarize".to_string()), true), "summarize");
    assert_eq!(ToolMcpCapability::tools_to_record(&Some("[1]".to_string())), Some("[1]".to_string()));
    assert_eq!(ToolMcpCapability::tools_to_record(&None), None);
}

#[test]
fn the_router_hook_classifies_with_a_confidence_tier() {
    let d = RoutingCapability::on_request(&None, true);
    assert_eq!(d.intent, "tools");
    assert!(d.confidence == ConfidenceTier::WithTools);
    assert!(matches!(d.result, CapabilityResult::Modify));
    let d = RoutingCapability::on_request(&Some("summarize".to_string()), false);
    assert_eq!(d.intent, "summarize");
    assert!(d.confidence == ConfidenceTier::WithoutTools);
}

#[test]
fn plugin_answers_decide_the_flow() {
    assert_eq!(WasmCapability.id(), "wasm");
    let m = WasmCapability.manifest();
    assert_eq!(m.requires, vec!["provider.selection"]);
    match WasmCapability::decide(false, None, true).result {
        CapabilityResult::Stop { message, kind, status_code } => {
            assert_eq!(message, "rejected by plugin");
            assert_eq!(kind, "plugin_reject");
            assert_eq!(status_code, 403);
        }
        _ => panic!("expected a stop"),
    }
    match WasmCapability::decide(false, Some("nope".to_string()), false).result {
        CapabilityResult::Stop { message, .. } => assert_eq!(message, "nope"),
        _ => panic!("expected a stop"),
    }
    let d = WasmCapability::decide(true, None, true);
    assert!(d.replace_body && matches!(d.result, CapabilityResult::Modify));
    let d = WasmCapability::decide(true, None, false);
    assert!(!d.replace_body && matches!(d.result, CapabilityResult::Continue));
}

#[test]
fn budget_and_router_manifests_order_the_pipeline() {
    assert_eq!(BudgetCapability::new(1).manifest().requires, vec!["identity", "semantic.intent"]);
    assert_eq!(
        ProviderRoutingCapability::default().manifest().requires,
        vec!["policy", "semantic.intent", "budget", "tools", "guardrails"]
    );
}
