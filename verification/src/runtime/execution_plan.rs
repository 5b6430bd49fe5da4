//! The outcome of planning: which capabilities run, in which order, and in
//! which groups of mutually independent capabilities.

use vstd::prelude::*;
use crate::kernel::manifest::{CapabilityManifest, strs};

verus! {

/// The execution plan built from the registered manifests.
pub struct ExecutionPlan {
    pub capabilities: Vec<CapabilityManifest>,
    pub execution_order: Vec<String>,
    pub missing_dependencies: Vec<String>,
    pub parallel_groups: Vec<Vec<String>>,
}

/// The characters of each string of each group.
pub open spec fn group_strs(g: Seq<Vec<String>>) -> Seq<Seq<Seq<char>>> {
    g.map_values(|v: Vec<String>| v@.map_values(|s: String| s@))
}

/// All groups one after the other.
pub open spec fn flatten_groups(g: Seq<Seq<Seq<char>>>) -> Seq<Seq<char>>
    decreases g.len(),
{
    if g.len() == 0 {
        Seq::empty()
    } else {
        flatten_groups(g.drop_last()) + g.last()
    }
}

impl ExecutionPlan {
    /// The plan with nothing in it.
    pub fn empty() -> (p: Self)
        ensures
            p.capabilities@.len() == 0,
            p.execution_order@.len() == 0,
            p.missing_dependencies@.len() == 0,
            p.parallel_groups@.len() == 0,
    {
        ExecutionPlan {
            capabilities: Vec::new(),
            execution_order: Vec::new(),
            missing_dependencies: Vec::new(),
            parallel_groups: Vec::new(),
        }
    }
}

/// The ids of all groups, one group after the other.
pub(crate) fn flatten_group_ids(groups: &Vec<Vec<String>>) -> (order: Vec<String>)
    ensures
        strs(order@) == flatten_groups(group_strs(groups@)),
{
    let mut order: Vec<String> = Vec::new();
    let mut k: usize = 0;
    while k < groups.len()
        invariant
            k <= groups@.len(),
            strs(order@) == flatten_groups(group_strs(groups@).take(k as int)),
        decreases groups@.len() - k,
    {
        let ghost base = strs(order@);
        let group = &groups[k];
        let mut t: usize = 0;
        while t < group.len()
            invariant
                k < groups@.len(),
                group == &groups@[k as int],
                t <= group@.len(),
                strs(order@) == base + strs(group@).take(t as int),
            decreases group@.len() - t,
        {
            let ghost prev = strs(order@);
            let c = group[t].clone();
            assert(c@ == group@[t as int]@);
            order.push(c);
            assert(strs(order@) =~= prev.push(c@));
            assert(strs(group@).take(t + 1) =~= strs(group@).take(t as int).push(c@));
            t = t + 1;
        }
        proof {
            let gs = group_strs(groups@);
            assert(gs.take(k + 1).drop_last() =~= gs.take(k as int));
            assert(strs(group@).take(t as int) =~= gs[k as int]);
        }
        k = k + 1;
    }
    assert(group_strs(groups@).take(groups@.len() as int) =~= group_strs(groups@));
    order
}

} // verus!
