use aether::kernel::optimizer::{
    cost_tier, CandidateSignal, CostTier, IntentOptimizer, MetaValue, PlanOutline, TokenBudget,
};
use aether::kernel::scoring::RoutingStrategy;
use aether::runtime::execution_plan::ExecutionPlan;
use aether::runtime::planner_result::{ApprovalRequest, PolicyDecision, ProviderSelectionCandidates, RequiredTools};
use aether::strmap::StrMap;

/// An integer that orders as `f64::total_cmp` orders floats.
fn key(f: f64) -> i64 {
    let bits = f.to_bits() as i64;
    bits ^ ((((bits >> 63) as u64) >> 1) as i64)
}

fn empty_plan() -> PlanOutline {
    PlanOutline {
        policy: None,
        approval: None,
        budget: None,
        intent: None,
        providers: None,
        required_tools: None,
        metadata_keys: vec![],
    }
}

fn unknown_signal(score: f64) -> CandidateSignal {
    CandidateSignal { available: None, latency_p50: None, cost_key: key(0.0), success_key: key(0.0), score_key: key(score) }
}

#[test]
fn merges_planner_outputs_and_selects_provider() {
    let graph = ExecutionPlan {
        capabilities: vec![],
        execution_order: vec!["a".to_string(), "b".to_string()],
        missing_dependencies: vec![],
        parallel_groups: vec![vec!["a".to_string()], vec!["b".to_string()]],
    };
    let mut budget = empty_plan();
    budget.budget = Some(TokenBudget { estimated_tokens: 2048, remaining_budget: 6000 });
    let mut provider = empty_plan();
    provider.providers = Some(ProviderSelectionCandidates {
        providers: vec!["anthropic".to_string()],
        selected_model: Some("anthropic:sonnet".to_string()),
        strategy: None,
        provider_models: StrMap::new(),
    });
    provider.intent = Some("chat".to_string());
    let plans = vec![budget, provider];

    let mut draft = IntentOptimizer::merge("local:model-a", 1, &plans);
    let signals = vec![unknown_signal(0.62)];
    let chosen = IntentOptimizer::select_provider(&draft.candidates, draft.strategy, &signals);
    draft.apply_selection(chosen);
    assert!(draft.execution_graph.is_empty());
    draft.attach_graph(&graph);

    assert_eq!(draft.selected_provider.as_deref(), Some("anthropic"));
    assert_eq!(draft.selected_model, "anthropic:sonnet");
    assert_eq!(draft.estimated_tokens, 2048);
    assert_eq!(draft.execution_graph.len(), 2);
    assert_eq!(draft.execution_graph, vec![vec!["a".to_string()], vec!["b".to_string()]]);
}

#[test]
fn conflicting_intents_are_captured_in_metadata() {
    let mut first = empty_plan();
    first.intent = Some("chat".to_string());
    let mut second = empty_plan();
    second.intent = Some("tools".to_string());
    let draft = IntentOptimizer::merge("local:model-a", 0, &vec![first, second]);
    assert!(draft.metadata.iter().any(|w| w.key == "conflicting_intents"));
}

#[test]
fn agreeing_intents_record_no_conflict() {
    let mut first = empty_plan();
    first.intent = Some("chat".to_string());
    let mut second = empty_plan();
    second.intent = Some("chat".to_string());
    let draft = IntentOptimizer::merge("m", 0, &vec![first, second]);
    assert!(!draft.metadata.iter().any(|w| w.key == "conflicting_intents"));
    assert_eq!(draft.seen_intent.as_deref(), Some("chat"));
    let keys: Vec<&str> = draft.metadata.iter().map(|w| w.key.as_str()).collect();
    assert_eq!(keys, vec!["semantic_intent", "semantic_confidence", "semantic_intent", "semantic_confidence"]);
    assert!(draft.metadata[2].value == MetaValue::SemanticIntent(1));
}

#[test]
fn without_budget_the_estimate_comes_from_the_request() {
    let draft = IntentOptimizer::merge("openai:gpt-4o", 3, &vec![]);
    assert_eq!(draft.estimated_tokens, 768);
    assert_eq!(draft.budget_plan, None);
    assert!(draft.cost_tier == CostTier::Gpt4);
    assert_eq!(draft.selected_provider.as_deref(), Some("openai"));
    assert_eq!(draft.selected_model, "openai:gpt-4o");
    assert!(draft.strategy == RoutingStrategy::Adaptive);
    assert!(draft.candidates.is_empty());
}

#[test]
fn tools_are_sorted_without_duplicates_and_approvals_accumulate() {
    let mut a = empty_plan();
    a.required_tools = Some(RequiredTools { tools: vec!["search".to_string(), "calc".to_string()] });
    a.policy = Some(PolicyDecision { allowed: true, matched_rules: vec!["r1".to_string()], approval_required: true });
    let mut b = empty_plan();
    b.required_tools = Some(RequiredTools { tools: vec!["calc".to_string(), "browse".to_string()] });
    b.approval = Some(ApprovalRequest { reason: "manual".to_string() });
    b.policy = Some(PolicyDecision { allowed: true, matched_rules: vec!["r2".to_string()], approval_required: true });
    b.budget = Some(TokenBudget { estimated_tokens: 10, remaining_budget: 20 });
    b.metadata_keys = vec!["note".to_string()];
    let draft = IntentOptimizer::merge("m", 0, &vec![a, b]);
    assert_eq!(draft.required_tools, vec!["browse", "calc", "search"]);
    let reasons: Vec<&str> = draft.approvals.iter().map(|r| r.reason.as_str()).collect();
    assert_eq!(reasons, vec!["policy requires approval", "manual"]);
    assert_eq!(draft.policies, vec!["r1", "r2"]);
    assert_eq!(draft.budget_plan, Some(1));
    assert_eq!(draft.remaining_budget, Some(20));
    let keys: Vec<&str> = draft.metadata.iter().map(|w| w.key.as_str()).collect();
    assert_eq!(keys, vec!["remaining_budget", "note"]);
    assert!(draft.metadata[1].value == MetaValue::PlanEntry(1, 0));
}

#[test]
fn later_plans_override_models_and_strategy() {
    let mut models = StrMap::new();
    models.insert("a".to_string(), "a-small".to_string());
    let mut p1 = empty_plan();
    p1.providers = Some(ProviderSelectionCandidates {
        providers: vec!["a".to_string(), "b".to_string()],
        selected_model: None,
        strategy: Some("fastest".to_string()),
        provider_models: models,
    });
    let mut models = StrMap::new();
    models.insert("b".to_string(), "b-large".to_string());
    let mut p2 = empty_plan();
    p2.providers = Some(ProviderSelectionCandidates {
        providers: vec![],
        selected_model: None,
        strategy: Some("cheapest".to_string()),
        provider_models: models,
    });
    let mut draft = IntentOptimizer::merge("m", 0, &vec![p1, p2]);
    assert_eq!(draft.candidates, vec!["a", "b"]);
    assert!(draft.strategy == RoutingStrategy::Cheapest);
    let signals = vec![
        CandidateSignal { available: Some(true), latency_p50: Some(10), cost_key: key(0.02), success_key: key(0.9), score_key: key(0.5) },
        CandidateSignal { available: Some(true), latency_p50: Some(99), cost_key: key(0.01), success_key: key(0.9), score_key: key(0.5) },
    ];
    let chosen = IntentOptimizer::select_provider(&draft.candidates, draft.strategy, &signals);
    assert_eq!(chosen, Some(1));
    draft.apply_selection(chosen);
    assert_eq!(draft.selected_provider.as_deref(), Some("b"));
    assert_eq!(draft.selected_model, "b:b-large");
}

#[test]
fn strategies_pick_their_candidate() {
    let names: Vec<String> = vec!["p0".to_string(), "p1".to_string(), "p2".to_string()];
    let signals = vec![
        CandidateSignal { available: Some(false), latency_p50: None, cost_key: key(0.5), success_key: key(0.9), score_key: key(0.7) },
        CandidateSignal { available: None, latency_p50: Some(300), cost_key: key(0.1), success_key: key(0.9), score_key: key(0.7) },
        CandidateSignal { available: Some(true), latency_p50: Some(300), cost_key: key(0.1), success_key: key(0.2), score_key: key(0.1) },
    ];
    let pick = |s: RoutingStrategy| IntentOptimizer::select_provider(&names, s, &signals);
    assert_eq!(pick(RoutingStrategy::FirstAvailable), Some(1));
    assert_eq!(pick(RoutingStrategy::Cheapest), Some(1));
    assert_eq!(pick(RoutingStrategy::Fastest), Some(1));
    assert_eq!(pick(RoutingStrategy::LowestLatency), Some(1));
    assert_eq!(pick(RoutingStrategy::HighestSuccess), Some(1));
    assert_eq!(pick(RoutingStrategy::Balanced), Some(1));
    assert_eq!(pick(RoutingStrategy::Adaptive), Some(1));
    assert_eq!(IntentOptimizer::select_provider(&vec![], RoutingStrategy::Adaptive, &vec![]), None);

    let none_available = vec![
        CandidateSignal { available: Some(false), latency_p50: None, cost_key: 0, success_key: 0, score_key: 0 },
        CandidateSignal { available: Some(false), latency_p50: None, cost_key: 0, success_key: 0, score_key: 0 },
    ];
    let two: Vec<String> = vec!["x".to_string(), "y".to_string()];
    assert_eq!(IntentOptimizer::select_provider(&two, RoutingStrategy::FirstAvailable, &none_available), Some(0));
}

#[test]
fn model_names_pick_their_price_tier() {
    assert!(cost_tier("anthropic:fast-sonnet") == CostTier::Sonnet);
    assert!(cost_tier("openai:gpt-4o") == CostTier::Gpt4);
    assert!(cost_tier("local:llama3") == CostTier::Standard);
}
