use aether::kernel::planning::{CollectStep, PlanCollection, PlanParts, PlanningEngine};
use aether::kernel::scoring::RoutingStrategy;
use aether::wasm::abi::Hook;

#[test]
fn strategy_names_round_trip() {
    let all = [
        RoutingStrategy::Adaptive,
        RoutingStrategy::FirstAvailable,
        RoutingStrategy::Cheapest,
        RoutingStrategy::Fastest,
        RoutingStrategy::LowestLatency,
        RoutingStrategy::HighestSuccess,
        RoutingStrategy::Balanced,
    ];
    for s in all {
        assert!(RoutingStrategy::from_str(s.as_str()) == s);
    }
    assert!(RoutingStrategy::from_str("whatever") == RoutingStrategy::Adaptive);
    assert_eq!(RoutingStrategy::LowestLatency.as_str(), "lowest_latency");
}

#[test]
fn plans_are_logged_under_their_first_part() {
    let none = PlanParts {
        approval: false,
        policy: false,
        providers: false,
        intent: false,
        budget: false,
        required_tools: false,
        identity: false,
    };
    assert_eq!(PlanningEngine::decision(&none), "noop");
    let mut p = none;
    p.identity = true;
    p.budget = true;
    assert_eq!(PlanningEngine::decision(&p), "budget");
    p.policy = true;
    assert_eq!(PlanningEngine::decision(&p), "policy");
    p.approval = true;
    assert_eq!(PlanningEngine::decision(&p), "approval_required");
}

#[test]
fn hooks_have_their_export_names() {
    assert_eq!(Hook::OnRequest.export_name(), "on_request");
    assert_eq!(Hook::OnStreamChunk.export_name(), "on_stream_chunk");
}

#[test]
fn a_planning_pass_asks_each_capability_once_in_order() {
    let mut c = PlanCollection::start(vec!["identity".to_string(), "budget_guard".to_string()]);
    let mut asked = Vec::new();
    while let CollectStep::Plan { capability_id } = c.next_step() {
        let parts = PlanParts {
            approval: false,
            policy: false,
            providers: false,
            intent: false,
            budget: capability_id == "budget_guard",
            required_tools: false,
            identity: false,
        };
        let given = if capability_id == "identity" { "" } else { "custom" };
        let id = c.record(given, &parts);
        asked.push((capability_id, id));
    }
    assert_eq!(
        asked,
        vec![
            ("identity".to_string(), "identity".to_string()),
            ("budget_guard".to_string(), "custom".to_string()),
        ]
    );
    let (log, ids) = c.finish();
    assert_eq!(
        log,
        vec![
            ("identity".to_string(), "noop".to_string()),
            ("budget_guard".to_string(), "budget".to_string()),
        ]
    );
    assert_eq!(ids, vec!["identity", "custom"]);
}
