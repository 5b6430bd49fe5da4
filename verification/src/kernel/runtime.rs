//! The capability runtime: the registry of manifests and the plan that the
//! pipeline runs.

use vstd::prelude::*;
use crate::kernel::manifest::{CapabilityManifest, same_manifest, strs};
use crate::kernel::planner::{ExecutionPlanner, PlanError, plan_matches, plan_error_matches, manifests_valid, missing_dependencies};
use crate::kernel::registry::{CapabilityRegistry, RegistryError, register_all, registrable, registration_clash, pipeline_manifests_match};
use crate::runtime::execution_plan::ExecutionPlan;
use crate::text::{concat_str, str_eq};

verus! {

/// The parts joined with `sep` between them.
pub open spec fn join(parts: Seq<Seq<char>>, sep: Seq<char>) -> Seq<char>
    decreases parts.len(),
{
    if parts.len() == 0 {
        Seq::empty()
    } else if parts.len() == 1 {
        parts[0]
    } else {
        join(parts.drop_last(), sep) + sep + parts.last()
    }
}

/// Joins strings with a separator.
pub fn join_strings(parts: &Vec<String>, sep: &str) -> (r: String)
    ensures
        r@ == join(strs(parts@), sep@),
{
    let mut r = String::new();
    let mut i: usize = 0;
    while i < parts.len()
        invariant
            i <= parts@.len(),
            r@ == join(strs(parts@).take(i as int), sep@),
        decreases parts@.len() - i,
    {
        let ghost t = strs(parts@).take(i + 1);
        assert(t.drop_last() =~= strs(parts@).take(i as int));
        if i == 0 {
            r = parts[0].clone();
            assert(r@ == t[0]);
        } else {
            let a = concat_str(r.as_str(), sep);
            r = concat_str(a.as_str(), parts[i].as_str());
        }
        i = i + 1;
    }
    assert(strs(parts@).take(parts@.len() as int) =~= strs(parts@));
    r
}

/// Why the runtime could not be built, or lacks a capability.
pub enum RuntimeError {
    Registry(RegistryError),
    Plan(PlanError),
    MissingDependencies { message: String },
    RequiredCapabilityMissing { id: String },
}

/// The manifests that the pipeline selects from the registered `manifests`.
pub open spec fn pipeline_selection(manifests: Seq<CapabilityManifest>, pipeline: Seq<Seq<char>>, ms: Seq<CapabilityManifest>) -> bool {
    if pipeline.len() == 0 {
        &&& ms.len() == manifests.len()
        &&& forall|i: int| 0 <= i < ms.len() ==> same_manifest(#[trigger] ms[i], manifests[i])
    } else {
        pipeline_manifests_match(register_all(Map::empty(), manifests), pipeline, ms)
    }
}

/// The first pipeline entry that names no registered capability.
pub open spec fn first_unknown_in_pipeline(manifests: Seq<CapabilityManifest>, pipeline: Seq<Seq<char>>, id: Seq<char>) -> bool {
    let reg = register_all(Map::empty(), manifests);
    exists|i: int|
        0 <= i < pipeline.len() && !reg.contains_key(#[trigger] pipeline[i])
        && (forall|i2: int| 0 <= i2 < i ==> reg.contains_key(#[trigger] pipeline[i2]))
        && id == pipeline[i]
}

/// The message listing the unprovided requirements.
pub open spec fn missing_summary(ms: Seq<CapabilityManifest>) -> Seq<char> {
    "missing capability dependencies: "@ + join(missing_dependencies(ms), ", "@)
}

/// The registered capabilities and the plan of the pipeline.
pub struct CapabilityRuntime {
    pub registry: CapabilityRegistry,
    pub plan: ExecutionPlan,
}

/// `(id, version)` of each planned capability that is registered.
pub open spec fn describe_spec(reg: Map<Seq<char>, CapabilityManifest>, order: Seq<Seq<char>>) -> Seq<(Seq<char>, Seq<char>)>
    decreases order.len(),
{
    if order.len() == 0 {
        Seq::empty()
    } else if reg.contains_key(order.last()) {
        describe_spec(reg, order.drop_last()).push((reg[order.last()].id@, reg[order.last()].version@))
    } else {
        describe_spec(reg, order.drop_last())
    }
}

impl CapabilityRuntime {
    /// Registers the manifests, selects those of the pipeline (all of them
    /// when it is empty) and plans them; a plan with unprovided
    /// requirements is refused.
    pub fn new(manifests: Vec<CapabilityManifest>, pipeline: &Vec<String>) -> (r: Result<Self, RuntimeError>)
        ensures
            match r {
                Ok(rt) => {
                    &&& registrable(Map::empty(), manifests@)
                    &&& rt.registry@ == register_all(Map::empty(), manifests@)
                    &&& pipeline_selection(manifests@, strs(pipeline@), rt.plan.capabilities@)
                    &&& plan_matches(rt.plan.capabilities@, rt.plan)
                    &&& missing_dependencies(rt.plan.capabilities@).len() == 0
                },
                Err(RuntimeError::Registry(RegistryError::UnknownCapability { id })) =>
                    registrable(Map::empty(), manifests@)
                    && strs(pipeline@).len() > 0
                    && first_unknown_in_pipeline(manifests@, strs(pipeline@), id@),
                Err(RuntimeError::Registry(e)) => registration_clash(Map::empty(), manifests@, e),
                Err(RuntimeError::Plan(e)) => registrable(Map::empty(), manifests@)
                    && exists|ms: Seq<CapabilityManifest>| #[trigger] pipeline_selection(manifests@, strs(pipeline@), ms)
                        && plan_error_matches(ms, e),
                Err(RuntimeError::MissingDependencies { message }) => registrable(Map::empty(), manifests@)
                    && exists|ms: Seq<CapabilityManifest>| #[trigger] pipeline_selection(manifests@, strs(pipeline@), ms)
                        && manifests_valid(ms) && missing_dependencies(ms).len() > 0
                        && message@ == missing_summary(ms),
                Err(RuntimeError::RequiredCapabilityMissing { .. }) => false,
            },
    {
        let ghost all = manifests@;
        let mut registry = CapabilityRegistry::new();
        match registry.register_many(manifests) {
            Ok(_) => {},
            Err(e) => {
                return Err(RuntimeError::Registry(e));
            },
        }
        proof {
            assert(registry.manifests.entries@.len() == all.len());
        }
        let ms = match registry.manifests_for_pipeline(pipeline) {
            Ok(ms) => ms,
            Err(e) => {
                proof {
                    let ps = strs(pipeline@);
                    if pipeline@.len() > 0 {
                        match &e {
                            RegistryError::UnknownCapability { id } => {
                                let i = choose|i: int| 0 <= i < pipeline@.len() && !registry@.contains_key(#[trigger] pipeline@[i]@)
                                    && (forall|i2: int| 0 <= i2 < i ==> registry@.contains_key(#[trigger] pipeline@[i2]@))
                                    && id@ == pipeline@[i]@;
                                assert(ps[i] == pipeline@[i]@);
                                assert forall|i2: int| 0 <= i2 < i implies registry@.contains_key(#[trigger] ps[i2]) by {
                                    assert(ps[i2] == pipeline@[i2]@);
                                }
                            },
                            _ => {},
                        }
                    }
                }
                return Err(RuntimeError::Registry(e));
            },
        };
        proof {
            let ps = strs(pipeline@);
            if pipeline@.len() == 0 {
                assert forall|i: int| 0 <= i < ms@.len() implies same_manifest(#[trigger] ms@[i], all[i]) by {
                    assert(registry.manifests.entries@[0 + i].1 == all[i]);
                }
            }
            assert(pipeline_selection(all, ps, ms@));
        }
        let ghost sel = ms@;
        let plan = match ExecutionPlanner::build_plan(ms) {
            Ok(plan) => plan,
            Err(e) => {
                return Err(RuntimeError::Plan(e));
            },
        };
        if plan.missing_dependencies.len() > 0 {
            let listed = join_strings(&plan.missing_dependencies, ", ");
            let message = concat_str("missing capability dependencies: ", listed.as_str());
            return Err(RuntimeError::MissingDependencies { message });
        }
        Ok(CapabilityRuntime { registry, plan })
    }

    /// `(id, version)` of each capability in execution order.
    pub fn describe(&self) -> (r: Vec<(String, String)>)
        ensures
            r@.map_values(|p: (String, String)| (p.0@, p.1@)) == describe_spec(self.registry@, strs(self.plan.execution_order@)),
    {
        let order = &self.plan.execution_order;
        let mut r: Vec<(String, String)> = Vec::new();
        let mut i: usize = 0;
        while i < order.len()
            invariant
                i <= order@.len(),
                order == &self.plan.execution_order,
                r@.map_values(|p: (String, String)| (p.0@, p.1@)) == describe_spec(self.registry@, strs(order@).take(i as int)),
            decreases order@.len() - i,
        {
            let ghost t = strs(order@).take(i + 1);
            assert(t.drop_last() =~= strs(order@).take(i as int));
            assert(t.last() == order@[i as int]@);
            match self.registry.manifest(order[i].as_str()) {
                Some(m) => {
                    let ghost before = r@;
                    r.push((m.id.clone(), m.version.clone()));
                    assert(r@.map_values(|p: (String, String)| (p.0@, p.1@)) =~= before.map_values(|p: (String, String)| (p.0@, p.1@)).push((m.id@, m.version@)));
                },
                None => {},
            }
            i = i + 1;
        }
        assert(strs(order@).take(order@.len() as int) =~= strs(order@));
        r
    }

    /// The plan the runtime executes.
    pub fn diagnostics(&self) -> (r: &ExecutionPlan)
        ensures
            r == &self.plan,
    {
        &self.plan
    }

    /// Succeeds when the capability `id` is in the execution order.
    pub fn ensure_contains(&self, id: &str) -> (r: Result<(), RuntimeError>)
        ensures
            match r {
                Ok(_) => strs(self.plan.execution_order@).contains(id@),
                Err(RuntimeError::RequiredCapabilityMissing { id: missing }) =>
                    !strs(self.plan.execution_order@).contains(id@) && missing@ == id@,
                Err(_) => false,
            },
    {
        let order = &self.plan.execution_order;
        let mut i: usize = 0;
        while i < order.len()
            invariant
                i <= order@.len(),
                order == &self.plan.execution_order,
                forall|a: int| 0 <= a < i ==> order@[a]@ != id@,
            decreases order@.len() - i,
        {
            if str_eq(order[i].as_str(), id) {
                assert(strs(order@)[i as int] == id@);
                return Ok(());
            }
            i = i + 1;
        }
        assert(!strs(order@).contains(id@)) by {
            if strs(order@).contains(id@) {
                let a = choose|a: int| 0 <= a < strs(order@).len() && strs(order@)[a] == id@;
                assert(order@[a]@ == id@);
            }
        }
        Err(RuntimeError::RequiredCapabilityMissing { id: String::from_str(id) })
    }
}

} // verus!
