//! The record the planning pass keeps of each capability's plan.

use vstd::prelude::*;
use crate::kernel::manifest::strs;

verus! {

/// Which parts a capability's plan holds.
pub struct PlanParts {
    pub approval: bool,
    pub policy: bool,
    pub providers: bool,
    pub intent: bool,
    pub budget: bool,
    pub required_tools: bool,
    pub identity: bool,
}

/// The decision a plan is logged under: its first part present, in the
/// order approval, policy, providers, intent, budget, tools, identity.
pub open spec fn decision_spec(p: PlanParts) -> Seq<char> {
    if p.approval {
        "approval_required"@
    } else if p.policy {
        "policy"@
    } else if p.providers {
        "provider_selection"@
    } else if p.intent {
        "intent"@
    } else if p.budget {
        "budget"@
    } else if p.required_tools {
        "tools"@
    } else if p.identity {
        "identity"@
    } else {
        "noop"@
    }
}

/// Collects the plans of the capabilities in execution order.
pub struct PlanningEngine;

impl PlanningEngine {
    /// The decision a plan with these parts is logged under.
    pub fn decision(p: &PlanParts) -> (r: &'static str)
        ensures
            r@ == decision_spec(*p),
    {
        if p.approval {
            "approval_required"
        } else if p.policy {
            "policy"
        } else if p.providers {
            "provider_selection"
        } else if p.intent {
            "intent"
        } else if p.budget {
            "budget"
        } else if p.required_tools {
            "tools"
        } else if p.identity {
            "identity"
        } else {
            "noop"
        }
    }
}

/// The next move of the planning pass.
pub enum CollectStep {
    /// Ask this capability for its plan and report it.
    Plan { capability_id: String },
    /// Every capability of the order was asked.
    Done,
}

/// The id a plan is kept under: its own, or the id of the capability that
/// made it when it gave none.
pub open spec fn plan_id_spec(given: Seq<char>, capability_id: Seq<char>) -> Seq<char> {
    if given.len() == 0 {
        capability_id
    } else {
        given
    }
}

/// One pass that asks each capability of the execution order for its plan,
/// once and in order, and logs the decision each plan stands for.
pub struct PlanCollection {
    order: Vec<String>,
    position: usize,
    log: Vec<(String, String)>,
    plan_ids: Vec<String>,
}

impl PlanCollection {
    /// The execution order the pass walks.
    pub closed spec fn order_view(&self) -> Seq<Seq<char>> {
        strs(self.order@)
    }

    /// How many plans were recorded.
    pub closed spec fn position_view(&self) -> nat {
        self.position as nat
    }

    /// The decision log so far: `(capability id, decision)`.
    pub closed spec fn log_view(&self) -> Seq<(Seq<char>, Seq<char>)> {
        self.log@.map_values(|e: (String, String)| (e.0@, e.1@))
    }

    /// The ids the recorded plans are kept under.
    pub closed spec fn plan_ids_view(&self) -> Seq<Seq<char>> {
        strs(self.plan_ids@)
    }

    /// Entry `k` of the log and of the plan ids belong to capability `k` of
    /// the order, for each recorded plan.
    pub closed spec fn wf(&self) -> bool {
        &&& self.position <= self.order@.len()
        &&& self.log@.len() == self.position
        &&& self.plan_ids@.len() == self.position
        &&& forall|k: int| 0 <= k < self.position ==> (#[trigger] self.log@[k]).0@ == self.order@[k]@
    }

    /// Starts a pass over `order`.
    pub fn start(order: Vec<String>) -> (r: Self)
        ensures
            r.wf(),
            r.order_view() == strs(order@),
            r.position_view() == 0,
            r.log_view().len() == 0,
            r.plan_ids_view().len() == 0,
    {
        let r = PlanCollection { order, position: 0, log: Vec::new(), plan_ids: Vec::new() };
        assert(r.log_view() =~= Seq::empty());
        assert(r.plan_ids_view() =~= Seq::empty());
        r
    }

    /// The capability to ask next, or `Done`.
    pub fn next_step(&self) -> (r: CollectStep)
        requires
            self.wf(),
        ensures
            if self.position_view() < self.order_view().len() {
                r matches CollectStep::Plan { capability_id }
                    && capability_id@ == self.order_view()[self.position_view() as int]
            } else {
                r is Done
            },
    {
        if self.position < self.order.len() {
            CollectStep::Plan { capability_id: self.order[self.position].clone() }
        } else {
            CollectStep::Done
        }
    }

    /// Records the plan of the capability just asked: `given_id` is the id
    /// the plan carries and `parts` what it holds. Returns the id the plan
    /// is kept under.
    pub fn record(&mut self, given_id: &str, parts: &PlanParts) -> (id: String)
        requires
            old(self).wf(),
            old(self).position_view() < old(self).order_view().len(),
        ensures
            final(self).wf(),
            final(self).order_view() == old(self).order_view(),
            final(self).position_view() == old(self).position_view() + 1,
            ({
                let cap = old(self).order_view()[old(self).position_view() as int];
                &&& id@ == plan_id_spec(given_id@, cap)
                &&& final(self).log_view() == old(self).log_view().push((cap, decision_spec(*parts)))
                &&& final(self).plan_ids_view() == old(self).plan_ids_view().push(id@)
            }),
    {
        let n = self.order.len();
        assert(n == self.order_view().len());
        let cap = self.order[self.position].clone();
        let id = if given_id.unicode_len() == 0 { cap.clone() } else { String::from_str(given_id) };
        let decision = String::from_str(PlanningEngine::decision(parts));
        let ghost log0 = self.log_view();
        let ghost ids0 = self.plan_ids_view();
        self.log.push((cap, decision));
        self.plan_ids.push(id.clone());
        assert(self.position < n);
        self.position = self.position + 1;
        proof {
            assert(self.log_view() =~= log0.push((self.order@[self.position - 1]@, decision_spec(*parts))));
            assert(self.plan_ids_view() =~= ids0.push(id@));
        }
        id
    }

    /// The decision log and the plan ids of a finished pass.
    pub fn finish(self) -> (r: (Vec<(String, String)>, Vec<String>))
        requires
            self.wf(),
            self.position_view() == self.order_view().len(),
        ensures
            r.0@.map_values(|e: (String, String)| (e.0@, e.1@)) == self.log_view(),
            strs(r.1@) == self.plan_ids_view(),
    {
        (self.log, self.plan_ids)
    }
}

/// After a whole pass, the log names every capability of the order once,
/// in order, and there are as many plans as log entries.
pub proof fn lemma_collection_follows_order(c: PlanCollection)
    requires
        c.wf(),
        c.position_view() == c.order_view().len(),
    ensures
        c.log_view().len() == c.order_view().len(),
        c.plan_ids_view().len() == c.order_view().len(),
        forall|k: int| 0 <= k < c.order_view().len() ==> (#[trigger] c.log_view()[k]).0 == c.order_view()[k],
{
}

} // verus!
