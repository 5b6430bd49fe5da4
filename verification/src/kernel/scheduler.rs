//! Runs the planned capabilities one by one: groups in plan order for
//! requests, the reverse order for responses, halting at the first result
//! that stops the pipeline.

use vstd::prelude::*;
use crate::kernel::capability::{CapabilityResult, stops};
use crate::kernel::lifecycle::{LifecycleEvent, LifecycleHook};
use crate::kernel::manifest::strs;
use crate::runtime::execution_plan::{ExecutionPlan, flatten_group_ids, group_strs, flatten_groups};

verus! {

/// Orders the invocations of the planned capabilities.
pub struct CapabilityScheduler;

impl CapabilityScheduler {
    /// The capability ids of the groups in plan order, each group in its
    /// own order.
    pub fn request_order(plan: &ExecutionPlan) -> (order: Vec<String>)
        ensures
            strs(order@) == flatten_groups(group_strs(plan.parallel_groups@)),
    {
        flatten_group_ids(&plan.parallel_groups)
    }

    /// The groups from last to first, each walked from last to first: the
    /// request order reversed.
    pub fn response_order(plan: &ExecutionPlan) -> (order: Vec<String>)
        ensures
            strs(order@) == flatten_groups(group_strs(plan.parallel_groups@)).reverse(),
    {
        let forward = flatten_group_ids(&plan.parallel_groups);
        let n = forward.len();
        let mut order: Vec<String> = Vec::new();
        let mut i: usize = 0;
        while i < n
            invariant
                n == forward@.len(),
                i <= n,
                strs(order@) == strs(forward@).reverse().take(i as int),
            decreases n - i,
        {
            let ghost prev = strs(order@);
            let c = forward[n - 1 - i].clone();
            assert(c@ == strs(forward@).reverse()[i as int]);
            order.push(c);
            assert(strs(order@) =~= prev.push(c@));
            assert(strs(forward@).reverse().take(i + 1) =~= strs(forward@).reverse().take(i as int).push(c@));
            i = i + 1;
        }
        assert(strs(forward@).reverse().take(n as int) =~= strs(forward@).reverse());
        order
    }
}

/// One step of running the pipeline.
pub enum SchedulerStep {
    /// Invoke the hook of this capability and report its result.
    Invoke { capability_id: String },
    /// The pipeline is over; collect the outcome.
    Done,
}

/// The state of one pass of the pipeline over a request or a response.
pub struct SchedulerRun {
    order: Vec<String>,
    hook: LifecycleHook,
    position: usize,
    events: Vec<LifecycleEvent>,
    stopped: Option<CapabilityResult>,
}

impl SchedulerRun {
    /// The capability ids this pass walks through.
    pub closed spec fn order_view(&self) -> Seq<Seq<char>> {
        strs(self.order@)
    }

    pub closed spec fn hook_view(&self) -> LifecycleHook {
        self.hook
    }

    /// How many capabilities have been invoked.
    pub closed spec fn position_view(&self) -> nat {
        self.position as nat
    }

    /// The invocations so far: `(capability id, hook)`.
    pub closed spec fn events_view(&self) -> Seq<(Seq<char>, LifecycleHook)> {
        self.events@.map_values(|e: LifecycleEvent| (e.capability_id@, e.hook))
    }

    /// The result that halted the pass, if any.
    pub closed spec fn stopped_view(&self) -> Option<CapabilityResult> {
        self.stopped
    }

    /// The invocations are the first `position` capabilities of the order,
    /// each with this pass's hook.
    pub closed spec fn wf(&self) -> bool {
        &&& self.position <= self.order@.len()
        &&& self.events@.len() == self.position
        &&& forall|k: int| 0 <= k < self.position ==>
            (#[trigger] self.events@[k]).capability_id@ == self.order@[k]@ && self.events@[k].hook == self.hook
    }

    fn start(order: Vec<String>, hook: LifecycleHook) -> (r: Self)
        ensures
            r.wf(),
            r.order_view() == strs(order@),
            r.hook_view() == hook,
            r.position_view() == 0,
            r.events_view().len() == 0,
            r.stopped_view() is None,
    {
        SchedulerRun { order, hook, position: 0, events: Vec::new(), stopped: None }
    }

    /// A pass over a request: the plan's groups in order.
    pub fn for_request(plan: &ExecutionPlan) -> (r: Self)
        ensures
            r.wf(),
            r.order_view() == flatten_groups(group_strs(plan.parallel_groups@)),
            r.hook_view() == LifecycleHook::OnRequest,
            r.position_view() == 0,
            r.events_view().len() == 0,
            r.stopped_view() is None,
    {
        Self::start(CapabilityScheduler::request_order(plan), LifecycleHook::OnRequest)
    }

    /// A pass over a response: the request order reversed.
    pub fn for_response(plan: &ExecutionPlan) -> (r: Self)
        ensures
            r.wf(),
            r.order_view() == flatten_groups(group_strs(plan.parallel_groups@)).reverse(),
            r.hook_view() == LifecycleHook::OnResponse,
            r.position_view() == 0,
            r.events_view().len() == 0,
            r.stopped_view() is None,
    {
        Self::start(CapabilityScheduler::response_order(plan), LifecycleHook::OnResponse)
    }

    /// The next capability to invoke, recording its invocation; `Done`
    /// once a result halted the pass or every capability ran.
    pub fn next_step(&mut self) -> (r: SchedulerStep)
        requires
            old(self).wf(),
        ensures
            final(self).wf(),
            final(self).order_view() == old(self).order_view(),
            final(self).hook_view() == old(self).hook_view(),
            final(self).stopped_view() == old(self).stopped_view(),
            if old(self).stopped_view() is Some || old(self).position_view() == old(self).order_view().len() {
                &&& r is Done
                &&& final(self).position_view() == old(self).position_view()
                &&& final(self).events_view() == old(self).events_view()
            } else {
                &&& r matches SchedulerStep::Invoke { capability_id }
                    && capability_id@ == old(self).order_view()[old(self).position_view() as int]
                &&& final(self).position_view() == old(self).position_view() + 1
                &&& final(self).events_view() == old(self).events_view().push(
                    (old(self).order_view()[old(self).position_view() as int], old(self).hook_view()))
            },
    {
        if self.stopped.is_some() || self.position == self.order.len() {
            return SchedulerStep::Done;
        }
        let id = self.order[self.position].clone();
        let ghost before = self.events@;
        self.events.push(LifecycleEvent { capability_id: self.order[self.position].clone(), hook: self.hook });
        self.position = self.position + 1;
        proof {
            assert(self.events@.map_values(|e: LifecycleEvent| (e.capability_id@, e.hook)) =~=
                before.map_values(|e: LifecycleEvent| (e.capability_id@, e.hook)).push((id@, self.hook)));
        }
        SchedulerStep::Invoke { capability_id: id }
    }

    /// Reports the result of the capability just invoked; a result that
    /// stops the pipeline ends the pass.
    pub fn record_result(&mut self, result: CapabilityResult)
        requires
            old(self).wf(),
        ensures
            final(self).wf(),
            final(self).order_view() == old(self).order_view(),
            final(self).hook_view() == old(self).hook_view(),
            final(self).position_view() == old(self).position_view(),
            final(self).events_view() == old(self).events_view(),
            final(self).stopped_view() == if old(self).stopped_view() is None && stops(result) {
                Some(result)
            } else {
                old(self).stopped_view()
            },
    {
        if self.stopped.is_none() && result.should_stop() {
            self.stopped = Some(result);
        }
    }

    /// The outcome of the pass: the halting result, or `Continue` when
    /// every capability ran; and the invocations made.
    pub fn finish(self) -> (r: (CapabilityResult, Vec<LifecycleEvent>))
        requires
            self.wf(),
        ensures
            r.0 == match self.stopped_view() {
                Some(x) => x,
                None => CapabilityResult::Continue,
            },
            r.1@.map_values(|e: LifecycleEvent| (e.capability_id@, e.hook)) == self.events_view(),
    {
        let result = match self.stopped {
            Some(x) => x,
            None => CapabilityResult::Continue,
        };
        (result, self.events)
    }
}

/// The invocations of a pass are always the first capabilities of its
/// order, each with the pass's hook.
pub proof fn lemma_events_follow_order(run: SchedulerRun)
    requires
        run.wf(),
    ensures
        run.events_view().len() == run.position_view(),
        run.position_view() <= run.order_view().len(),
        forall|k: int| 0 <= k < run.events_view().len() ==>
            (#[trigger] run.events_view()[k]) == (run.order_view()[k], run.hook_view()),
{
}

} // verus!
