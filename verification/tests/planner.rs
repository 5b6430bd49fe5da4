use aether::kernel::manifest::CapabilityManifest;
use aether::kernel::planner::{ExecutionPlanner, PlanError};

fn manifest(id: &str, provides: &[&str], requires: &[&str]) -> CapabilityManifest {
    CapabilityManifest {
        id: id.to_string(),
        version: "v1".to_string(),
        provides: provides.iter().map(|s| s.to_string()).collect(),
        requires: requires.iter().map(|s| s.to_string()).collect(),
        before: vec![],
        after: vec![],
        tags: vec![],
        permissions: vec![],
        cost: 1,
    }
}

#[test]
fn computes_topological_order_and_parallel_groups() {
    let manifests = vec![
        manifest("identity", &["identity"], &[]),
        manifest("policy", &["policy"], &["identity"]),
        manifest("provider_router", &["provider.selection"], &["policy"]),
    ];

    let plan = match ExecutionPlanner::build_plan(manifests) {
        Ok(plan) => plan,
        Err(_) => panic!("plan"),
    };
    assert_eq!(plan.execution_order, vec!["identity", "policy", "provider_router"]);
    assert_eq!(plan.parallel_groups.len(), 3);
}

#[test]
fn independent_capabilities_share_a_sorted_group() {
    let manifests = vec![
        manifest("zeta", &["z"], &[]),
        manifest("alpha", &["a"], &[]),
        manifest("mid", &["m"], &["a", "z"]),
    ];
    let plan = match ExecutionPlanner::build_plan(manifests) {
        Ok(plan) => plan,
        Err(_) => panic!("plan"),
    };
    assert_eq!(plan.parallel_groups, vec![vec!["alpha".to_string(), "zeta".to_string()], vec!["mid".to_string()]]);
    assert_eq!(plan.execution_order, vec!["alpha", "zeta", "mid"]);
}

#[test]
fn refuses_cycles() {
    let manifests = vec![manifest("a", &["a"], &["b"]), manifest("b", &["b"], &["a"])];
    assert!(matches!(ExecutionPlanner::build_plan(manifests), Err(PlanError::CyclicGraph)));
}

#[test]
fn refuses_duplicate_ids() {
    let manifests = vec![manifest("a", &["x"], &[]), manifest("a", &["y"], &[])];
    match ExecutionPlanner::build_plan(manifests) {
        Err(PlanError::DuplicateCapability { id }) => assert_eq!(id, "a"),
        _ => panic!("expected a duplicate"),
    }
}

#[test]
fn refuses_unknown_permissions() {
    let mut m = manifest("a", &["x"], &[]);
    m.permissions = vec!["metadata.read".to_string(), "root".to_string()];
    match ExecutionPlanner::build_plan(vec![m]) {
        Err(PlanError::InvalidPermission { capability, permission }) => {
            assert_eq!(capability, "a");
            assert_eq!(permission, "root");
        }
        _ => panic!("expected an invalid permission"),
    }
}

#[test]
fn refuses_unknown_ordering_targets() {
    let mut m = manifest("a", &["x"], &[]);
    m.before = vec!["ghost".to_string()];
    match ExecutionPlanner::build_plan(vec![m]) {
        Err(PlanError::UnknownBefore { capability, target }) => {
            assert_eq!(capability, "a");
            assert_eq!(target, "ghost");
        }
        _ => panic!("expected an unknown before target"),
    }
    let mut m = manifest("a", &["x"], &[]);
    m.after = vec!["ghost".to_string()];
    match ExecutionPlanner::build_plan(vec![m]) {
        Err(PlanError::UnknownAfter { capability, target }) => {
            assert_eq!(capability, "a");
            assert_eq!(target, "ghost");
        }
        _ => panic!("expected an unknown after target"),
    }
}

#[test]
fn after_constraints_order_the_plan() {
    let mut late = manifest("aa_late", &["l"], &[]);
    late.after = vec!["zz_early".to_string()];
    let early = manifest("zz_early", &["e"], &[]);
    let plan = match ExecutionPlanner::build_plan(vec![late, early]) {
        Ok(plan) => plan,
        Err(_) => panic!("plan"),
    };
    assert_eq!(plan.execution_order, vec!["zz_early", "aa_late"]);
    assert_eq!(plan.parallel_groups.len(), 2);
}

#[test]
fn missing_requirements_leave_the_plan_empty() {
    let plan = match ExecutionPlanner::build_plan(vec![manifest("a", &["x"], &["nothing"])]) {
        Ok(plan) => plan,
        Err(_) => panic!("plan"),
    };
    assert!(plan.execution_order.is_empty());
    assert!(plan.parallel_groups.is_empty());
    assert_eq!(plan.missing_dependencies, vec!["capability 'a' requires 'nothing' but no provider is registered"]);
}

fn planned(manifests: Vec<CapabilityManifest>) -> aether::runtime::execution_plan::ExecutionPlan {
    match ExecutionPlanner::build_plan(manifests) {
        Ok(plan) => plan,
        Err(_) => panic!("plan"),
    }
}

fn chain(with_unknown: bool, reversed: bool) -> Vec<CapabilityManifest> {
    let router_needs: &[&str] = if with_unknown { &["a", "z", "unknown"] } else { &["a", "z"] };
    let mut all = vec![
        manifest("identity", &["identity"], &[]),
        manifest("zeta", &["z"], &["identity"]),
        manifest("alpha", &["a"], &["identity"]),
        manifest("router", &["route"], router_needs),
    ];
    if reversed {
        all.reverse();
    }
    all
}

#[test]
fn reordered_manifests_plan_the_same() {
    let first = planned(chain(true, false));
    let second = planned(chain(true, true));
    assert_eq!(first.missing_dependencies, second.missing_dependencies);
    assert_eq!(first.missing_dependencies.len(), 1);
    assert!(first.execution_order.is_empty());
    assert!(second.execution_order.is_empty());

    let first = planned(chain(false, false));
    let second = planned(chain(false, true));
    assert_eq!(first.parallel_groups, second.parallel_groups);
    assert_eq!(first.execution_order, vec!["identity", "alpha", "zeta", "router"]);
    assert_eq!(second.execution_order, vec!["identity", "alpha", "zeta", "router"]);

    let cyclic = vec![manifest("a", &["a"], &["b"]), manifest("b", &["b"], &["a"])];
    let reversed = vec![manifest("b", &["b"], &["a"]), manifest("a", &["a"], &["b"])];
    assert!(ExecutionPlanner::build_plan(cyclic).is_err());
    assert!(ExecutionPlanner::build_plan(reversed).is_err());
}
