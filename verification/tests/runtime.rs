use aether::capabilities::{
    auth::IdentityCapability, budget::BudgetCapability, guardrails::GuardrailCapability, policy::PolicyCapability,
    providers::ProviderRoutingCapability, routing::RoutingCapability, tools::ToolMcpCapability,
};
use aether::config::{default_capability_pipeline, AuthConfig};
use aether::wasm::loader::WasmCapability;
use aether::kernel::capability::CapabilityResult;
use aether::kernel::lifecycle::LifecycleHook;
use aether::kernel::manifest::CapabilityManifest;
use aether::kernel::registry::{CapabilityRegistry, RegistryError};
use aether::kernel::runtime::{CapabilityRuntime, RuntimeError};
use aether::kernel::scheduler::{CapabilityScheduler, SchedulerRun, SchedulerStep};

fn manifest(id: &str, provides: &[&str], requires: &[&str]) -> CapabilityManifest {
    CapabilityManifest {
        id: id.to_string(),
        version: "v1".to_string(),
        provides: provides.iter().map(|s| s.to_string()).collect(),
        requires: requires.iter().map(|s| s.to_string()).collect(),
        before: vec![],
        after: vec![],
        tags: vec![],
        permissions: vec![],
        cost: 1,
    }
}

#[test]
fn stops_pipeline_on_deny() {
    let runtime = match CapabilityRuntime::new(vec![manifest("deny", &["deny"], &[])], &vec![]) {
        Ok(rt) => rt,
        Err(_) => panic!("runtime"),
    };
    let mut run = SchedulerRun::for_request(runtime.diagnostics());
    loop {
        match run.next_step() {
            SchedulerStep::Invoke { capability_id } => {
                assert_eq!(capability_id, "deny");
                run.record_result(CapabilityResult::Fail {
                    message: "blocked".to_string(),
                    kind: "deny".to_string(),
                    status_code: 403,
                });
            }
            SchedulerStep::Done => break,
        }
    }
    let (result, events) = run.finish();
    assert!(matches!(result, CapabilityResult::Fail { .. }));
    assert_eq!(events.len(), 1);
}

#[test]
fn responses_walk_the_plan_backwards() {
    let runtime = match CapabilityRuntime::new(
        vec![
            manifest("identity", &["identity"], &[]),
            manifest("policy", &["policy"], &["identity"]),
            manifest("router", &["route"], &["policy"]),
        ],
        &vec![],
    ) {
        Ok(rt) => rt,
        Err(_) => panic!("runtime"),
    };
    let forward = CapabilityScheduler::request_order(runtime.diagnostics());
    let backward = CapabilityScheduler::response_order(runtime.diagnostics());
    assert_eq!(forward, vec!["identity", "policy", "router"]);
    assert_eq!(backward, vec!["router", "policy", "identity"]);

    let mut run = SchedulerRun::for_response(runtime.diagnostics());
    let mut seen = Vec::new();
    while let SchedulerStep::Invoke { capability_id } = run.next_step() {
        seen.push(capability_id);
        run.record_result(CapabilityResult::Continue);
    }
    let (result, events) = run.finish();
    assert!(matches!(result, CapabilityResult::Continue));
    assert_eq!(seen, backward);
    assert_eq!(events.len(), 3);
    assert!(events.iter().all(|e| e.hook == LifecycleHook::OnResponse));
}

#[test]
fn missing_dependencies_are_refused() {
    let r = CapabilityRuntime::new(vec![manifest("policy", &["policy"], &["identity"])], &vec![]);
    assert!(r.is_err());
}

#[test]
fn unknown_pipeline_entries_are_refused() {
    let r = CapabilityRuntime::new(vec![manifest("identity", &["identity"], &[])], &vec!["nope".to_string()]);
    assert!(r.is_err());
}

#[test]
fn registry_refuses_clashing_registrations() {
    let mut registry = CapabilityRegistry::new();
    assert!(registry.register(manifest("a", &["x"], &[])).is_ok());
    match registry.register(manifest("a", &["x"], &[])) {
        Err(RegistryError::DuplicateCapability { id }) => assert_eq!(id, "a"),
        _ => panic!("expected a duplicate"),
    }
    let mut newer = manifest("a", &["x"], &[]);
    newer.version = "v2".to_string();
    match registry.register(newer) {
        Err(RegistryError::IncompatibleVersions { id, existing, incoming }) => {
            assert_eq!(id, "a");
            assert_eq!(existing, "v1");
            assert_eq!(incoming, "v2");
        }
        _ => panic!("expected incompatible versions"),
    }
    match registry.manifests_for_pipeline(&vec!["a".to_string(), "b".to_string()]) {
        Err(RegistryError::UnknownCapability { id }) => assert_eq!(id, "b"),
        _ => panic!("expected an unknown capability"),
    }
    assert_eq!(registry.version("a").map(|v| v.as_str()), Some("v1"));
}

#[test]
fn runtime_errors_name_their_cause() {
    match CapabilityRuntime::new(vec![manifest("policy", &["policy"], &["identity"])], &vec![]) {
        Err(RuntimeError::MissingDependencies { message }) => {
            assert_eq!(message, "missing capability dependencies: capability 'policy' requires 'identity' but no provider is registered")
        }
        _ => panic!("expected missing dependencies"),
    }
    let rt = match CapabilityRuntime::new(vec![manifest("identity", &["identity"], &[])], &vec![]) {
        Ok(rt) => rt,
        Err(_) => panic!("runtime"),
    };
    assert!(rt.ensure_contains("identity").is_ok());
    match rt.ensure_contains("provider_router") {
        Err(RuntimeError::RequiredCapabilityMissing { id }) => assert_eq!(id, "provider_router"),
        _ => panic!("expected a missing capability"),
    }
    assert_eq!(rt.describe(), vec![("identity".to_string(), "v1".to_string())]);
}

#[test]
fn the_default_pipeline_runs_in_the_documented_order() {
    let manifests = vec![
        IdentityCapability::new(AuthConfig { virtual_keys: vec![] }).manifest(),
        PolicyCapability::new(vec![]).manifest(),
        BudgetCapability::new(8_192).manifest(),
        GuardrailCapability::new(vec![]).manifest(),
        RoutingCapability.manifest(),
        ToolMcpCapability.manifest(),
        ProviderRoutingCapability::default().manifest(),
        WasmCapability.manifest(),
    ];
    let rt = match CapabilityRuntime::new(manifests, &default_capability_pipeline()) {
        Ok(rt) => rt,
        Err(_) => panic!("runtime"),
    };
    let groups = &rt.diagnostics().parallel_groups;
    assert_eq!(
        *groups,
        vec![
            vec!["identity".to_string()],
            vec!["policy".to_string()],
            vec!["semantic_router".to_string()],
            vec!["budget_guard".to_string(), "pii_filter".to_string(), "tool_mcp".to_string()],
            vec!["provider_router".to_string()],
            vec!["wasm".to_string()],
        ]
    );
    assert_eq!(
        rt.diagnostics().execution_order,
        vec!["identity", "policy", "semantic_router", "budget_guard", "pii_filter", "tool_mcp", "provider_router", "wasm"]
    );
}
