//! Merging what the capabilities planned for a request into one intent, and
//! choosing its provider by the routing strategy.

use vstd::prelude::*;
use crate::kernel::manifest::{clone_strings, strings_contain, strs};
use crate::kernel::planner::{insert_sorted, sorted_strict};
use crate::kernel::scoring::{strategy_from, RoutingStrategy};
use crate::runtime::planner_result::{ApprovalRequest, PolicyDecision, ProviderSelectionCandidates, RequiredTools};
use crate::runtime::execution_plan::{ExecutionPlan, group_strs};
use crate::strmap::StrMap;
use crate::text::{concat_str, contains_seq, contains_str, split_once_char, split_once_spec};

verus! {

/// The token side of a budget estimate.
pub struct TokenBudget {
    pub estimated_tokens: u64,
    pub remaining_budget: u64,
}

/// What one capability planned for a request, as far as the merge reads it.
pub struct PlanOutline {
    pub policy: Option<PolicyDecision>,
    pub approval: Option<ApprovalRequest>,
    pub budget: Option<TokenBudget>,
    pub intent: Option<String>,
    pub providers: Option<ProviderSelectionCandidates>,
    pub required_tools: Option<RequiredTools>,
    /// The keys of the capability's own metadata, in the order they are copied.
    pub metadata_keys: Vec<String>,
}

/// The value a metadata write stores; plan values are named by their index.
#[derive(Clone, Copy, PartialEq, Eq, Structural, Debug)]
pub enum MetaValue {
    RemainingBudget(u64),
    EmptyList,
    SemanticIntent(usize),
    SemanticConfidence(usize),
    PlanEntry(usize, usize),
}

/// One write into the intent's metadata; `keep_existing` writes only when
/// the key is absent.
pub struct MetaWrite {
    pub key: String,
    pub value: MetaValue,
    pub keep_existing: bool,
}

/// The price tier of a model.
#[derive(Clone, Copy, PartialEq, Eq, Structural, Debug)]
pub enum CostTier {
    Sonnet,
    Gpt4,
    Standard,
}

/// The metadata writes as plain values.
pub open spec fn meta_view(s: Seq<MetaWrite>) -> Seq<(Seq<char>, MetaValue, bool)> {
    s.map_values(|w: MetaWrite| (w.key@, w.value, w.keep_existing))
}

/// The reasons of approval requests.
pub open spec fn reasons(s: Seq<ApprovalRequest>) -> Seq<Seq<char>> {
    s.map_values(|a: ApprovalRequest| a.reason@)
}

pub open spec fn opt_view(o: Option<String>) -> Option<Seq<char>> {
    match o {
        Some(s) => Some(s@),
        None => None,
    }
}

/// The tier that prices a model: "sonnet" first, then "gpt-4".
pub open spec fn cost_tier_of(model: Seq<char>) -> CostTier {
    if contains_seq(model, "sonnet"@) {
        CostTier::Sonnet
    } else if contains_seq(model, "gpt-4"@) {
        CostTier::Gpt4
    } else {
        CostTier::Standard
    }
}

/// The price tier of `model`.
pub fn cost_tier(model: &str) -> (r: CostTier)
    ensures
        r == cost_tier_of(model@),
{
    if contains_str(model, "sonnet") {
        CostTier::Sonnet
    } else if contains_str(model, "gpt-4") {
        CostTier::Gpt4
    } else {
        CostTier::Standard
    }
}

// ---------------------------------------------------------------------------
// What the first `n` plans determine
// ---------------------------------------------------------------------------

/// The intent of the last of the first `n` plans that classified one.
pub open spec fn last_intent(plans: Seq<PlanOutline>, n: nat) -> Option<Seq<char>>
    decreases n,
{
    if n == 0 {
        None
    } else {
        match plans[n - 1].intent {
            Some(x) => Some(x@),
            None => last_intent(plans, (n - 1) as nat),
        }
    }
}

/// The index of the last of the first `n` plans with a budget estimate.
pub open spec fn last_budget(plans: Seq<PlanOutline>, n: nat) -> Option<int>
    decreases n,
{
    if n == 0 {
        None
    } else if plans[n - 1].budget is Some {
        Some(n - 1)
    } else {
        last_budget(plans, (n - 1) as nat)
    }
}

/// The approvals one plan asks for: one for a policy that wants approval
/// where the plan brings none, then the plan's own.
pub open spec fn plan_approvals(p: PlanOutline) -> Seq<Seq<char>> {
    let from_policy: Seq<Seq<char>> = match p.policy {
        Some(d) => if d.approval_required && p.approval is None {
            seq!["policy requires approval"@]
        } else {
            seq![]
        },
        None => seq![],
    };
    let own: Seq<Seq<char>> = match p.approval {
        Some(a) => seq![a.reason@],
        None => seq![],
    };
    from_policy + own
}

pub open spec fn approvals_upto(plans: Seq<PlanOutline>, n: nat) -> Seq<Seq<char>>
    decreases n,
{
    if n == 0 {
        seq![]
    } else {
        approvals_upto(plans, (n - 1) as nat) + plan_approvals(plans[n - 1])
    }
}

/// The policy rules matched by the first `n` plans, in order.
pub open spec fn policies_upto(plans: Seq<PlanOutline>, n: nat) -> Seq<Seq<char>>
    decreases n,
{
    if n == 0 {
        seq![]
    } else {
        policies_upto(plans, (n - 1) as nat) + match plans[n - 1].policy {
            Some(d) => strs(d.matched_rules@),
            None => seq![],
        }
    }
}

/// Whether plan `p` names a nonempty list of providers.
pub open spec fn names_providers(p: PlanOutline) -> bool {
    p.providers is Some && p.providers->0.providers@.len() > 0
}

/// The providers named by the last of the first `n` plans that names any.
pub open spec fn candidates_upto(plans: Seq<PlanOutline>, n: nat) -> Seq<Seq<char>>
    decreases n,
{
    if n == 0 {
        seq![]
    } else if names_providers(plans[n - 1]) {
        strs(plans[n - 1].providers->0.providers@)
    } else {
        candidates_upto(plans, (n - 1) as nat)
    }
}

/// The model of each provider; a later plan overrides an earlier one.
pub open spec fn models_upto(plans: Seq<PlanOutline>, n: nat) -> Map<Seq<char>, String>
    decreases n,
{
    if n == 0 {
        Map::empty()
    } else {
        match plans[n - 1].providers {
            Some(c) => models_upto(plans, (n - 1) as nat).union_prefer_right(c.provider_models@),
            None => models_upto(plans, (n - 1) as nat),
        }
    }
}

/// The model chosen by the last plan that chose one, else the requested one.
pub open spec fn model_upto(plans: Seq<PlanOutline>, n: nat, requested: Seq<char>) -> Seq<char>
    decreases n,
{
    if n == 0 {
        requested
    } else {
        match plans[n - 1].providers {
            Some(c) => match c.selected_model {
                Some(m) => m@,
                None => model_upto(plans, (n - 1) as nat, requested),
            },
            None => model_upto(plans, (n - 1) as nat, requested),
        }
    }
}

/// The strategy named by the last plan that named one, else `Adaptive`.
pub open spec fn strategy_upto(plans: Seq<PlanOutline>, n: nat) -> RoutingStrategy
    decreases n,
{
    if n == 0 {
        RoutingStrategy::Adaptive
    } else {
        match plans[n - 1].providers {
            Some(c) => match c.strategy {
                Some(s) => strategy_from(s@),
                None => strategy_upto(plans, (n - 1) as nat),
            },
            None => strategy_upto(plans, (n - 1) as nat),
        }
    }
}

/// The tools required by any of the first `n` plans.
pub open spec fn tools_upto(plans: Seq<PlanOutline>, n: nat) -> Set<Seq<char>>
    decreases n,
{
    if n == 0 {
        Set::empty()
    } else {
        tools_upto(plans, (n - 1) as nat).union(
            match plans[n - 1].required_tools {
                Some(t) => strs(t.tools@).to_set(),
                None => Set::empty(),
            },
        )
    }
}

/// The metadata writes of plan `p` at index `i`, where `prev` is the intent
/// seen before it: the remaining budget; a conflict marker when the intent
/// differs from the one before, then the intent and its confidence; then the
/// plan's own entries.
pub open spec fn plan_writes(p: PlanOutline, i: int, prev: Option<Seq<char>>) -> Seq<(Seq<char>, MetaValue, bool)> {
    let budget: Seq<(Seq<char>, MetaValue, bool)> = match p.budget {
        Some(b) => seq![("remaining_budget"@, MetaValue::RemainingBudget(b.remaining_budget), false)],
        None => seq![],
    };
    let intent: Seq<(Seq<char>, MetaValue, bool)> = match p.intent {
        Some(x) => {
            let conflict: Seq<(Seq<char>, MetaValue, bool)> = match prev {
                Some(q) => if q != x@ {
                    seq![("conflicting_intents"@, MetaValue::EmptyList, true)]
                } else {
                    seq![]
                },
                None => seq![],
            };
            conflict + seq![
                ("semantic_intent"@, MetaValue::SemanticIntent(i as usize), false),
                ("semantic_confidence"@, MetaValue::SemanticConfidence(i as usize), false),
            ]
        },
        None => seq![],
    };
    let entries = Seq::new(
        p.metadata_keys@.len(),
        |k: int| (p.metadata_keys@[k]@, MetaValue::PlanEntry(i as usize, k as usize), false),
    );
    budget + intent + entries
}

pub open spec fn writes_upto(plans: Seq<PlanOutline>, n: nat) -> Seq<(Seq<char>, MetaValue, bool)>
    decreases n,
{
    if n == 0 {
        seq![]
    } else {
        writes_upto(plans, (n - 1) as nat) + plan_writes(
            plans[n - 1],
            n - 1,
            last_intent(plans, (n - 1) as nat),
        )
    }
}

/// The intent of a request before its provider is chosen.
pub struct IntentDraft {
    pub selected_provider: Option<String>,
    pub selected_model: String,
    pub estimated_tokens: u64,
    /// The plan whose budget estimate stands; with none, the cost is
    /// estimated from the requested model's tier.
    pub budget_plan: Option<usize>,
    pub cost_tier: CostTier,
    pub remaining_budget: Option<u64>,
    pub required_tools: Vec<String>,
    pub approvals: Vec<ApprovalRequest>,
    pub policies: Vec<String>,
    pub seen_intent: Option<String>,
    pub candidates: Vec<String>,
    pub candidate_models: StrMap<String>,
    pub strategy: RoutingStrategy,
    pub metadata: Vec<MetaWrite>,
    /// The groups of the execution plan the intent carries out.
    pub execution_graph: Vec<Vec<String>>,
}

/// The provider named before the first ':' of the requested model.
pub open spec fn provider_of(model: Seq<char>) -> Option<Seq<char>> {
    match split_once_spec(model, ':') {
        Some(parts) => Some(parts.0),
        None => None,
    }
}

/// `d` is the merge of the first `n` plans of a request for `model` with
/// `count` messages.
pub open spec fn draft_after(d: IntentDraft, model: Seq<char>, count: nat, plans: Seq<PlanOutline>, n: nat) -> bool {
    &&& opt_view(d.selected_provider) == provider_of(model)
    &&& d.cost_tier == cost_tier_of(model)
    &&& d.selected_model@ == model_upto(plans, n, model)
    &&& d.estimated_tokens as int == match last_budget(plans, n) {
        Some(j) => plans[j].budget->0.estimated_tokens as int,
        None => (count * 256) as int,
    }
    &&& d.remaining_budget == match last_budget(plans, n) {
        Some(j) => Some(plans[j].budget->0.remaining_budget),
        None => None,
    }
    &&& match d.budget_plan {
        Some(j) => last_budget(plans, n) == Some(j as int),
        None => last_budget(plans, n) is None,
    }
    &&& sorted_strict(strs(d.required_tools@))
    &&& strs(d.required_tools@).to_set() == tools_upto(plans, n)
    &&& reasons(d.approvals@) == approvals_upto(plans, n)
    &&& strs(d.policies@) == policies_upto(plans, n)
    &&& opt_view(d.seen_intent) == last_intent(plans, n)
    &&& strs(d.candidates@) == candidates_upto(plans, n)
    &&& d.candidate_models@ == models_upto(plans, n)
    &&& d.strategy == strategy_upto(plans, n)
    &&& meta_view(d.metadata@) == writes_upto(plans, n)
}

/// The budget writes of one plan: a plan with a budget estimate first writes
/// "remaining_budget" with its remaining budget, and every remaining-budget
/// value a plan writes is its own remaining budget; a plan without an
/// estimate writes none.
pub proof fn lemma_plan_budget_write(p: PlanOutline, i: int, prev: Option<Seq<char>>)
    ensures
        p.budget is Some ==> plan_writes(p, i, prev).len() > 0 && plan_writes(p, i, prev)[0] == (
        "remaining_budget"@,
        MetaValue::RemainingBudget(p.budget->0.remaining_budget),
        false,
        ),
        forall|k: int|
            0 <= k < plan_writes(p, i, prev).len() && (#[trigger] plan_writes(p, i, prev)[k]).1 is RemainingBudget
                ==> p.budget is Some && plan_writes(p, i, prev)[k].1 == MetaValue::RemainingBudget(
                p.budget->0.remaining_budget,
            ),
{
}

/// The remaining-budget writes of the merged plans: each carries the
/// remaining budget of a plan that made a budget estimate, and each such
/// plan's remaining budget is written under "remaining_budget".
pub proof fn lemma_budget_writes_upto(plans: Seq<PlanOutline>, n: nat)
    requires
        n <= plans.len(),
    ensures
        forall|k: int|
            0 <= k < writes_upto(plans, n).len() && (#[trigger] writes_upto(plans, n)[k]).1 is RemainingBudget
                ==> exists|j: int|
                0 <= j < n && (#[trigger] plans[j]).budget is Some && writes_upto(plans, n)[k].1
                    == MetaValue::RemainingBudget(plans[j].budget->0.remaining_budget),
        forall|j: int|
            0 <= j < n && (#[trigger] plans[j]).budget is Some ==> exists|k: int|
                0 <= k < writes_upto(plans, n).len() && #[trigger] writes_upto(plans, n)[k] == (
                "remaining_budget"@,
                MetaValue::RemainingBudget(plans[j].budget->0.remaining_budget),
                false,
                ),
    decreases n,
{
    if n > 0 {
        let m = (n - 1) as nat;
        lemma_budget_writes_upto(plans, m);
        let w0 = writes_upto(plans, m);
        let pw = plan_writes(plans[m as int], m as int, last_intent(plans, m));
        let w = writes_upto(plans, n);
        assert(w == w0 + pw);
        lemma_plan_budget_write(plans[m as int], m as int, last_intent(plans, m));
        assert forall|k: int| 0 <= k < w.len() && (#[trigger] w[k]).1 is RemainingBudget implies exists|j: int|
            0 <= j < n && (#[trigger] plans[j]).budget is Some && w[k].1 == MetaValue::RemainingBudget(
                plans[j].budget->0.remaining_budget,
            ) by {
            if k < w0.len() {
                assert(w[k] == w0[k]);
                let j = choose|j: int|
                    0 <= j < m && (#[trigger] plans[j]).budget is Some && w0[k].1 == MetaValue::RemainingBudget(
                        plans[j].budget->0.remaining_budget,
                    );
                assert(plans[j].budget is Some);
            } else {
                assert(w[k] == pw[k - w0.len()]);
                assert(plans[m as int].budget is Some);
            }
        }
        assert forall|j: int| 0 <= j < n && (#[trigger] plans[j]).budget is Some implies exists|k: int|
            0 <= k < w.len() && #[trigger] w[k] == (
                "remaining_budget"@,
                MetaValue::RemainingBudget(plans[j].budget->0.remaining_budget),
                false,
            ) by {
            if j < m {
                let k = choose|k: int|
                    0 <= k < w0.len() && #[trigger] w0[k] == (
                        "remaining_budget"@,
                        MetaValue::RemainingBudget(plans[j].budget->0.remaining_budget),
                        false,
                    );
                assert(w[k] == w0[k]);
            } else {
                assert(w[w0.len() as int] == pw[0]);
            }
        }
    }
}

proof fn lemma_last_budget(plans: Seq<PlanOutline>, n: nat)
    requires
        n <= plans.len(),
    ensures
        match last_budget(plans, n) {
            Some(j) => 0 <= j < n && plans[j].budget is Some && forall|j2: int|
                j < j2 < n ==> (#[trigger] plans[j2]).budget is None,
            None => forall|j: int| 0 <= j < n ==> (#[trigger] plans[j]).budget is None,
        },
    decreases n,
{
    if n > 0 {
        lemma_last_budget(plans, (n - 1) as nat);
    }
}

/// The merged draft's token estimate and remaining budget are those of the
/// last plan with a budget estimate; with no such plan the estimate is 256
/// tokens per message and no remaining budget is known.
pub proof fn lemma_draft_budget(d: IntentDraft, model: Seq<char>, count: nat, plans: Seq<PlanOutline>)
    requires
        draft_after(d, model, count, plans, plans.len()),
    ensures
        (forall|j: int| 0 <= j < plans.len() ==> (#[trigger] plans[j]).budget is None) ==> d.estimated_tokens
            == count * 256 && d.remaining_budget is None,
        forall|j: int|
            0 <= j < plans.len() && (#[trigger] plans[j]).budget is Some && (forall|j2: int|
                j < j2 < plans.len() ==> (#[trigger] plans[j2]).budget is None) ==> d.estimated_tokens
                == plans[j].budget->0.estimated_tokens && d.remaining_budget == Some(
                plans[j].budget->0.remaining_budget,
            ),
{
    lemma_last_budget(plans, plans.len());
    assert forall|j: int|
        0 <= j < plans.len() && (#[trigger] plans[j]).budget is Some && (forall|j2: int|
            j < j2 < plans.len() ==> (#[trigger] plans[j2]).budget is None) implies d.estimated_tokens
        == plans[j].budget->0.estimated_tokens && d.remaining_budget == Some(plans[j].budget->0.remaining_budget) by {
        match last_budget(plans, plans.len()) {
            Some(j1) => {
                if j1 < j {
                    assert(plans[j].budget is None);
                } else if j < j1 {
                    assert(plans[j1].budget is None);
                }
            },
            None => {
                assert(plans[j].budget is None);
            },
        }
    }
}

/// Appends copies of `src` to `dst`.
fn append_strings(dst: &mut Vec<String>, src: &Vec<String>)
    ensures
        strs(final(dst)@) == strs(old(dst)@) + strs(src@),
{
    let ghost start = strs(dst@);
    let mut i: usize = 0;
    while i < src.len()
        invariant
            i <= src@.len(),
            strs(dst@) == start + strs(src@).take(i as int),
        decreases src@.len() - i,
    {
        let ghost before = strs(dst@);
        dst.push(src[i].clone());
        assert(strs(dst@) =~= before.push(src@[i as int]@));
        assert(strs(src@).take(i + 1) =~= strs(src@).take(i as int).push(src@[i as int]@));
        i = i + 1;
        assert(strs(dst@) =~= start + strs(src@).take(i as int));
    }
    assert(strs(src@).take(src@.len() as int) =~= strs(src@));
}

/// Adds the tools of `new` to the sorted, duplicate-free `tools`.
fn add_tools(tools: &mut Vec<String>, new: &Vec<String>)
    requires
        sorted_strict(strs(old(tools)@)),
    ensures
        sorted_strict(strs(final(tools)@)),
        strs(final(tools)@).to_set() == strs(old(tools)@).to_set().union(strs(new@).to_set()),
{
    let ghost start = strs(tools@).to_set();
    let mut i: usize = 0;
    while i < new.len()
        invariant
            i <= new@.len(),
            sorted_strict(strs(tools@)),
            strs(tools@).to_set() == start.union(strs(new@).take(i as int).to_set()),
        decreases new@.len() - i,
    {
        let ghost before = strs(tools@).to_set();
        let t = &new[i];
        if !strings_contain(tools, t.as_str()) {
            insert_sorted(tools, t.clone());
            assert(strs(tools@).to_set() =~= before.insert(t@));
        } else {
            assert(before.contains(t@));
            assert(before.insert(t@) =~= before);
        }
        assert(strs(new@).take(i + 1) =~= strs(new@).take(i as int).push(t@));
        assert(strs(new@).take(i + 1).to_set() =~= strs(new@).take(i as int).to_set().insert(t@)) by {
            strs(new@).take(i as int).lemma_push_to_set_commute(t@);
        }
        i = i + 1;
        assert(strs(tools@).to_set() =~= start.union(strs(new@).take(i as int).to_set()));
    }
    assert(strs(new@).take(new@.len() as int) =~= strs(new@));
}

/// Copies the entries of `src` into `dst`, the values of `src` winning.
fn extend_models(dst: &mut StrMap<String>, src: &StrMap<String>)
    ensures
        final(dst)@ == old(dst)@.union_prefer_right(src@),
{
    let ghost start = dst@;
    let ghost keys = src.key_seq();
    let mut i: usize = 0;
    while i < src.entries.len()
        invariant
            i <= src.entries@.len(),
            keys == src.key_seq(),
            dst@ == start.union_prefer_right(src@.restrict(keys.take(i as int).to_set())),
        decreases src.entries@.len() - i,
    {
        let k = &src.entries[i].0;
        let ghost prev_keys = keys.take(i as int).to_set();
        proof {
            assert(keys[i as int] == k@);
            assert(src@.contains_key(k@)) by {
                assert(crate::strmap::has_key(src.entries@, k@));
            }
        }
        match src.get(k.as_str()) {
            Some(v) => {
                dst.insert(k.clone(), v.clone());
            },
            None => {},
        }
        i = i + 1;
        proof {
            assert(keys.take(i as int) =~= keys.take(i - 1).push(k@));
            keys.take(i - 1).lemma_push_to_set_commute(k@);
            assert(dst@ =~= start.union_prefer_right(src@.restrict(keys.take(i as int).to_set())));
        }
    }
    proof {
        assert(keys.take(src.entries@.len() as int) =~= keys);
        assert(src@.restrict(keys.to_set()) =~= src@) by {
            assert forall|k: Seq<char>| src@.contains_key(k) implies keys.to_set().contains(k) by {
                let j = choose|j: int| 0 <= j < src.entries@.len() && src.entries@[j].0@ == k;
                assert(keys[j] == k);
            }
        }
    }
}

/// The metadata writes of plan `p` at index `i`, after intent `prev`.
fn plan_writes_exec(p: &PlanOutline, i: usize, prev: &Option<String>) -> (r: Vec<MetaWrite>)
    ensures
        meta_view(r@) == plan_writes(*p, i as int, opt_view(*prev)),
{
    let mut r: Vec<MetaWrite> = Vec::new();
    match &p.budget {
        Some(b) => {
            r.push(MetaWrite {
                key: String::from_str("remaining_budget"),
                value: MetaValue::RemainingBudget(b.remaining_budget),
                keep_existing: false,
            });
        },
        None => {},
    }
    let ghost after_budget = meta_view(r@);
    match &p.intent {
        Some(x) => {
            match prev {
                Some(q) => {
                    if !crate::text::str_eq(q.as_str(), x.as_str()) {
                        r.push(MetaWrite {
                            key: String::from_str("conflicting_intents"),
                            value: MetaValue::EmptyList,
                            keep_existing: true,
                        });
                    }
                },
                None => {},
            }
            r.push(MetaWrite {
                key: String::from_str("semantic_intent"),
                value: MetaValue::SemanticIntent(i),
                keep_existing: false,
            });
            r.push(MetaWrite {
                key: String::from_str("semantic_confidence"),
                value: MetaValue::SemanticConfidence(i),
                keep_existing: false,
            });
        },
        None => {},
    }
    let ghost after_intent = meta_view(r@);
    let mut k: usize = 0;
    while k < p.metadata_keys.len()
        invariant
            k <= p.metadata_keys@.len(),
            meta_view(r@) == after_intent + Seq::new(
                k as nat,
                |j: int| (p.metadata_keys@[j]@, MetaValue::PlanEntry(i, j as usize), false),
            ),
        decreases p.metadata_keys@.len() - k,
    {
        let ghost before = meta_view(r@);
        r.push(MetaWrite { key: p.metadata_keys[k].clone(), value: MetaValue::PlanEntry(i, k), keep_existing: false });
        assert(meta_view(r@) =~= before.push((p.metadata_keys@[k as int]@, MetaValue::PlanEntry(i, k), false)));
        assert(((k as int) as usize) == k);
        k = k + 1;
        assert(meta_view(r@) =~= after_intent + Seq::new(
            k as nat,
            |j: int| (p.metadata_keys@[j]@, MetaValue::PlanEntry(i, j as usize), false),
        ));
    }
    assert(meta_view(r@) =~= plan_writes(*p, i as int, opt_view(*prev)));
    r
}

/// Adds the approvals and matched policy rules of plan `p`.
fn absorb_policy(approvals: &mut Vec<ApprovalRequest>, policies: &mut Vec<String>, p: &PlanOutline)
    ensures
        reasons(final(approvals)@) == reasons(old(approvals)@) + plan_approvals(*p),
        strs(final(policies)@) == strs(old(policies)@) + match p.policy {
            Some(d) => strs(d.matched_rules@),
            None => seq![],
        },
{
    let ghost a0 = reasons(approvals@);
    match &p.policy {
        Some(d) => {
            append_strings(policies, &d.matched_rules);
            if d.approval_required && p.approval.is_none() {
                approvals.push(ApprovalRequest { reason: String::from_str("policy requires approval") });
            }
        },
        None => {
            assert(strs(policies@) =~= strs(policies@) + seq![]);
        },
    }
    let ghost a1 = reasons(approvals@);
    match &p.approval {
        Some(a) => {
            approvals.push(a.duplicate());
            assert(reasons(approvals@) =~= a1.push(a.reason@));
        },
        None => {},
    }
    assert(reasons(approvals@) =~= a0 + plan_approvals(*p));
}

/// Takes the providers, models and strategy that plan `p` names.
fn absorb_providers(
    candidates: &mut Vec<String>,
    models: &mut StrMap<String>,
    selected_model: &mut String,
    strategy: &mut RoutingStrategy,
    p: &PlanOutline,
)
    ensures
        strs(final(candidates)@) == if names_providers(*p) {
            strs(p.providers->0.providers@)
        } else {
            strs(old(candidates)@)
        },
        final(models)@ == match p.providers {
            Some(c) => old(models)@.union_prefer_right(c.provider_models@),
            None => old(models)@,
        },
        final(selected_model)@ == match p.providers {
            Some(c) => match c.selected_model {
                Some(m) => m@,
                None => old(selected_model)@,
            },
            None => old(selected_model)@,
        },
        *final(strategy) == match p.providers {
            Some(c) => match c.strategy {
                Some(st) => strategy_from(st@),
                None => *old(strategy),
            },
            None => *old(strategy),
        },
{
    match &p.providers {
        Some(c) => {
            if c.providers.len() > 0 {
                *candidates = clone_strings(&c.providers);
            }
            extend_models(models, &c.provider_models);
            match &c.selected_model {
                Some(m) => {
                    *selected_model = m.clone();
                },
                None => {},
            }
            match &c.strategy {
                Some(st) => {
                    *strategy = RoutingStrategy::from_str(st.as_str());
                },
                None => {},
            }
        },
        None => {},
    }
}

/// Takes the budget estimate of plan `i`, if it has one.
fn absorb_budget(
    estimated_tokens: &mut u64,
    budget_plan: &mut Option<usize>,
    remaining_budget: &mut Option<u64>,
    p: &PlanOutline,
    i: usize,
)
    ensures
        match p.budget {
            Some(b) => *final(estimated_tokens) == b.estimated_tokens && *final(budget_plan) == Some(i)
                && *final(remaining_budget) == Some(b.remaining_budget),
            None => *final(estimated_tokens) == *old(estimated_tokens) && *final(budget_plan) == *old(budget_plan)
                && *final(remaining_budget) == *old(remaining_budget),
        },
{
    match &p.budget {
        Some(b) => {
            *estimated_tokens = b.estimated_tokens;
            *budget_plan = Some(i);
            *remaining_budget = Some(b.remaining_budget);
        },
        None => {},
    }
}

impl IntentDraft {
    /// Folds plan `i` into a draft that holds the merge of the plans before it.
    fn absorb(&mut self, plans: &Vec<PlanOutline>, i: usize, Ghost(model): Ghost<Seq<char>>, Ghost(count): Ghost<nat>)
        requires
            i < plans@.len(),
            draft_after(*old(self), model, count, plans@, i as nat),
        ensures
            draft_after(*final(self), model, count, plans@, (i + 1) as nat),
            final(self).execution_graph == old(self).execution_graph,
    {
        let ghost ps = plans@;
        let ghost n1 = (i + 1) as nat;
        let p = &plans[i];
        let mut writes = plan_writes_exec(p, i, &self.seen_intent);
        self.metadata.append(&mut writes);
        absorb_policy(&mut self.approvals, &mut self.policies, p);
        absorb_budget(&mut self.estimated_tokens, &mut self.budget_plan, &mut self.remaining_budget, p, i);
        match &p.intent {
            Some(x) => {
                self.seen_intent = Some(x.clone());
            },
            None => {},
        }
        absorb_providers(&mut self.candidates, &mut self.candidate_models, &mut self.selected_model, &mut self.strategy, p);
        let ghost t0 = strs(self.required_tools@).to_set();
        match &p.required_tools {
            Some(t) => add_tools(&mut self.required_tools, &t.tools),
            None => {
                assert(t0.union(Set::empty()) =~= t0);
            },
        }
        proof {
            assert(reasons(self.approvals@) == approvals_upto(ps, n1));
            assert(strs(self.policies@) == policies_upto(ps, n1));
            assert(strs(self.required_tools@).to_set() == tools_upto(ps, n1));
            assert(meta_view(self.metadata@) =~= writes_upto(ps, n1));
            assert(self.candidate_models@ == models_upto(ps, n1));
        }
    }
}

/// Merges the plans of the capabilities and chooses the provider.
pub struct IntentOptimizer;

impl IntentOptimizer {
    /// Merges, in order, what the capabilities planned for a request for
    /// `request_model` with `message_count` messages.
    pub fn merge(request_model: &str, message_count: usize, plans: &Vec<PlanOutline>) -> (r: IntentDraft)
        requires
            message_count * 256 <= u64::MAX,
        ensures
            draft_after(r, request_model@, message_count as nat, plans@, plans@.len()),
            r.execution_graph@.len() == 0,
    {
        let selected_provider = match split_once_char(request_model, ':') {
            Some((p, _)) => Some(p),
            None => None,
        };
        let mut d = IntentDraft {
            selected_provider,
            selected_model: String::from_str(request_model),
            estimated_tokens: message_count as u64 * 256,
            budget_plan: None,
            cost_tier: cost_tier(request_model),
            remaining_budget: None,
            required_tools: Vec::new(),
            approvals: Vec::new(),
            policies: Vec::new(),
            seen_intent: None,
            candidates: Vec::new(),
            candidate_models: StrMap::new(),
            strategy: RoutingStrategy::Adaptive,
            metadata: Vec::new(),
            execution_graph: Vec::new(),
        };
        proof {
            assert(strs(d.required_tools@).to_set() =~= Set::empty());
            assert(reasons(d.approvals@) =~= seq![]);
            assert(strs(d.policies@) =~= seq![]);
            assert(strs(d.candidates@) =~= seq![]);
            assert(meta_view(d.metadata@) =~= seq![]);
        }
        let mut i: usize = 0;
        while i < plans.len()
            invariant
                i <= plans@.len(),
                message_count * 256 <= u64::MAX,
                draft_after(d, request_model@, message_count as nat, plans@, i as nat),
                d.execution_graph@.len() == 0,
            decreases plans@.len() - i,
        {
            d.absorb(plans, i, Ghost(request_model@), Ghost(message_count as nat));
            i = i + 1;
        }
        d
    }
}

/// What the routing strategies compare of one candidate. The float
/// measurements arrive as keys that order as `f64::total_cmp` does.
pub struct CandidateSignal {
    /// Whether the provider is available; `None` when nothing is known of it.
    pub available: Option<bool>,
    /// The median latency; `None` when nothing is known of the provider.
    pub latency_p50: Option<u64>,
    pub cost_key: i64,
    pub success_key: i64,
    pub score_key: i64,
}

/// A provider nothing is known of counts as available.
pub open spec fn counts_available(s: CandidateSignal) -> bool {
    match s.available {
        Some(a) => a,
        None => true,
    }
}

/// A provider nothing is known of counts as the slowest.
pub open spec fn latency_key(s: CandidateSignal) -> int {
    match s.latency_p50 {
        Some(l) => l as int,
        None => u64::MAX as int,
    }
}

pub open spec fn cost_keys(s: Seq<CandidateSignal>) -> Seq<int> {
    s.map_values(|c: CandidateSignal| c.cost_key as int)
}

pub open spec fn latency_keys(s: Seq<CandidateSignal>) -> Seq<int> {
    s.map_values(|c: CandidateSignal| latency_key(c))
}

pub open spec fn success_keys(s: Seq<CandidateSignal>) -> Seq<int> {
    s.map_values(|c: CandidateSignal| c.success_key as int)
}

pub open spec fn score_keys(s: Seq<CandidateSignal>) -> Seq<int> {
    s.map_values(|c: CandidateSignal| c.score_key as int)
}

/// `i` holds the first of the smallest keys.
pub open spec fn first_min(keys: Seq<int>, i: int) -> bool {
    &&& 0 <= i < keys.len()
    &&& forall|j: int| 0 <= j < keys.len() ==> keys[i] <= #[trigger] keys[j]
    &&& forall|j: int| 0 <= j < i ==> keys[i] < #[trigger] keys[j]
}

/// `i` holds the last of the largest keys.
pub open spec fn last_max(keys: Seq<int>, i: int) -> bool {
    &&& 0 <= i < keys.len()
    &&& forall|j: int| 0 <= j < keys.len() ==> #[trigger] keys[j] <= keys[i]
    &&& forall|j: int| i < j < keys.len() ==> #[trigger] keys[j] < keys[i]
}

/// `i` is the first candidate that counts as available, or the first
/// candidate when none does.
pub open spec fn first_available(s: Seq<CandidateSignal>, i: int) -> bool {
    &&& 0 <= i < s.len()
    &&& forall|j: int| 0 <= j < i ==> !counts_available(#[trigger] s[j])
    &&& (counts_available(s[i]) || (i == 0 && forall|j: int| 0 <= j < s.len() ==> !counts_available(#[trigger] s[j])))
}

/// Candidate `i` is the one `strategy` chooses.
pub open spec fn chosen_by(strategy: RoutingStrategy, s: Seq<CandidateSignal>, i: int) -> bool {
    match strategy {
        RoutingStrategy::FirstAvailable => first_available(s, i),
        RoutingStrategy::Cheapest => first_min(cost_keys(s), i),
        RoutingStrategy::Fastest | RoutingStrategy::LowestLatency => first_min(latency_keys(s), i),
        RoutingStrategy::HighestSuccess => last_max(success_keys(s), i),
        RoutingStrategy::Balanced | RoutingStrategy::Adaptive => last_max(score_keys(s), i),
    }
}

/// The candidate a strategy chooses is, read off the signals themselves:
/// the first available one (the first of all when none is); the first
/// cheapest; the first with the lowest median latency, an unknown latency
/// counting as `u64::MAX`; the last with the highest success; the last
/// with the highest score.
pub proof fn lemma_choice_on_signals(strategy: RoutingStrategy, s: Seq<CandidateSignal>, i: int)
    requires
        chosen_by(strategy, s, i),
    ensures
        0 <= i < s.len(),
        strategy is FirstAvailable ==> forall|j: int| 0 <= j < i ==> (#[trigger] s[j]).available == Some(false),
        strategy is FirstAvailable ==> s[i].available != Some(false) || (i == 0 && forall|j: int|
            0 <= j < s.len() ==> (#[trigger] s[j]).available == Some(false)),
        strategy is Cheapest ==> forall|j: int| 0 <= j < s.len() ==> s[i].cost_key <= (#[trigger] s[j]).cost_key,
        strategy is Cheapest ==> forall|j: int| 0 <= j < i ==> s[i].cost_key < (#[trigger] s[j]).cost_key,
        strategy is Fastest || strategy is LowestLatency ==> forall|j: int|
            0 <= j < s.len() ==> (match s[i].latency_p50 {
                Some(l) => l as int,
                None => u64::MAX as int,
            }) <= (match (#[trigger] s[j]).latency_p50 {
                Some(l) => l as int,
                None => u64::MAX as int,
            }),
        strategy is Fastest || strategy is LowestLatency ==> forall|j: int|
            0 <= j < i ==> (match s[i].latency_p50 {
                Some(l) => l as int,
                None => u64::MAX as int,
            }) < (match (#[trigger] s[j]).latency_p50 {
                Some(l) => l as int,
                None => u64::MAX as int,
            }),
        strategy is HighestSuccess ==> forall|j: int| 0 <= j < s.len() ==> (#[trigger] s[j]).success_key <= s[i].success_key,
        strategy is HighestSuccess ==> forall|j: int| i < j < s.len() ==> (#[trigger] s[j]).success_key < s[i].success_key,
        strategy is Balanced || strategy is Adaptive ==> forall|j: int|
            0 <= j < s.len() ==> (#[trigger] s[j]).score_key <= s[i].score_key,
        strategy is Balanced || strategy is Adaptive ==> forall|j: int|
            i < j < s.len() ==> (#[trigger] s[j]).score_key < s[i].score_key,
{
    match strategy {
        RoutingStrategy::FirstAvailable => {},
        RoutingStrategy::Cheapest => {
            let ks = cost_keys(s);
            assert forall|j: int| 0 <= j < s.len() implies s[i].cost_key <= (#[trigger] s[j]).cost_key by {
                assert(ks[i] <= ks[j]);
            }
            assert forall|j: int| 0 <= j < i implies s[i].cost_key < (#[trigger] s[j]).cost_key by {
                assert(ks[i] < ks[j]);
            }
        },
        RoutingStrategy::Fastest | RoutingStrategy::LowestLatency => {
            let ks = latency_keys(s);
            assert forall|j: int| 0 <= j < s.len() implies latency_key(s[i]) <= latency_key(#[trigger] s[j]) by {
                assert(ks[i] <= ks[j]);
            }
            assert forall|j: int| 0 <= j < i implies latency_key(s[i]) < latency_key(#[trigger] s[j]) by {
                assert(ks[i] < ks[j]);
            }
        },
        RoutingStrategy::HighestSuccess => {
            let ks = success_keys(s);
            assert forall|j: int| 0 <= j < s.len() implies (#[trigger] s[j]).success_key <= s[i].success_key by {
                assert(ks[j] <= ks[i]);
            }
            assert forall|j: int| i < j < s.len() implies (#[trigger] s[j]).success_key < s[i].success_key by {
                assert(ks[j] < ks[i]);
            }
        },
        RoutingStrategy::Balanced | RoutingStrategy::Adaptive => {
            let ks = score_keys(s);
            assert forall|j: int| 0 <= j < s.len() implies (#[trigger] s[j]).score_key <= s[i].score_key by {
                assert(ks[j] <= ks[i]);
            }
            assert forall|j: int| i < j < s.len() implies (#[trigger] s[j]).score_key < s[i].score_key by {
                assert(ks[j] < ks[i]);
            }
        },
    }
}

/// The index of the first smallest key.
fn position_of_first_min(keys: &Vec<i128>) -> (r: usize)
    requires
        keys@.len() > 0,
    ensures
        first_min(keys@.map_values(|k: i128| k as int), r as int),
{
    let ghost ks = keys@.map_values(|k: i128| k as int);
    let mut best: usize = 0;
    let mut i: usize = 1;
    while i < keys.len()
        invariant
            ks == keys@.map_values(|k: i128| k as int),
            1 <= i <= keys@.len(),
            best < i,
            forall|j: int| 0 <= j < i ==> ks[best as int] <= #[trigger] ks[j],
            forall|j: int| 0 <= j < best ==> ks[best as int] < #[trigger] ks[j],
        decreases keys@.len() - i,
    {
        if keys[i] < keys[best] {
            best = i;
        }
        i = i + 1;
    }
    best
}

/// The index of the last largest key.
fn position_of_last_max(keys: &Vec<i128>) -> (r: usize)
    requires
        keys@.len() > 0,
    ensures
        last_max(keys@.map_values(|k: i128| k as int), r as int),
{
    let ghost ks = keys@.map_values(|k: i128| k as int);
    let mut best: usize = 0;
    let mut i: usize = 1;
    while i < keys.len()
        invariant
            ks == keys@.map_values(|k: i128| k as int),
            1 <= i <= keys@.len(),
            best < i,
            forall|j: int| 0 <= j < i ==> #[trigger] ks[j] <= ks[best as int],
            forall|j: int| best < j < i ==> #[trigger] ks[j] < ks[best as int],
        decreases keys@.len() - i,
    {
        if keys[i] >= keys[best] {
            best = i;
        }
        i = i + 1;
    }
    best
}

impl IntentOptimizer {
    /// The index of the candidate that `strategy` chooses, by the signals of
    /// the candidates in order; `None` when there is no candidate.
    pub fn select_provider(candidates: &Vec<String>, strategy: RoutingStrategy, signals: &Vec<CandidateSignal>) -> (r: Option<usize>)
        requires
            signals@.len() == candidates@.len(),
        ensures
            match r {
                Some(i) => chosen_by(strategy, signals@, i as int),
                None => candidates@.len() == 0,
            },
    {
        if candidates.len() == 0 {
            return None;
        }
        let ghost s = signals@;
        match strategy {
            RoutingStrategy::FirstAvailable => {
                let mut i: usize = 0;
                while i < signals.len()
                    invariant
                        s == signals@,
                        strategy == RoutingStrategy::FirstAvailable,
                        s.len() > 0,
                        i <= s.len(),
                        forall|j: int| 0 <= j < i ==> !counts_available(#[trigger] s[j]),
                    decreases s.len() - i,
                {
                    let ok = match signals[i].available {
                        Some(a) => a,
                        None => true,
                    };
                    if ok {
                        return Some(i);
                    }
                    i = i + 1;
                }
                Some(0)
            },
            _ => {
                let mut keys: Vec<i128> = Vec::new();
                let mut i: usize = 0;
                while i < signals.len()
                    invariant
                        s == signals@,
                        i <= s.len(),
                        keys@.len() == i,
                        forall|j: int| 0 <= j < i ==> (#[trigger] keys@[j]) as int == match strategy {
                            RoutingStrategy::Cheapest => s[j].cost_key as int,
                            RoutingStrategy::Fastest | RoutingStrategy::LowestLatency => latency_key(s[j]),
                            RoutingStrategy::HighestSuccess => s[j].success_key as int,
                            _ => s[j].score_key as int,
                        },
                    decreases s.len() - i,
                {
                    let c = &signals[i];
                    let k: i128 = match strategy {
                        RoutingStrategy::Cheapest => c.cost_key as i128,
                        RoutingStrategy::Fastest | RoutingStrategy::LowestLatency => match c.latency_p50 {
                            Some(l) => l as i128,
                            None => u64::MAX as i128,
                        },
                        RoutingStrategy::HighestSuccess => c.success_key as i128,
                        _ => c.score_key as i128,
                    };
                    keys.push(k);
                    i = i + 1;
                }
                let ghost ks = keys@.map_values(|k: i128| k as int);
                match strategy {
                    RoutingStrategy::Cheapest | RoutingStrategy::Fastest | RoutingStrategy::LowestLatency => {
                        let best = position_of_first_min(&keys);
                        proof {
                            if strategy == RoutingStrategy::Cheapest {
                                assert(ks =~= cost_keys(s));
                            } else {
                                assert(ks =~= latency_keys(s));
                            }
                        }
                        Some(best)
                    },
                    _ => {
                        let best = position_of_last_max(&keys);
                        proof {
                            if strategy == RoutingStrategy::HighestSuccess {
                                assert(ks =~= success_keys(s));
                            } else {
                                assert(ks =~= score_keys(s));
                            }
                        }
                        Some(best)
                    },
                }
            },
        }
    }
}

impl IntentDraft {
    /// Routes the draft to candidate `chosen`: it becomes the provider, and
    /// the model becomes `provider:model` where the plans named a model for it.
    pub fn apply_selection(&mut self, chosen: Option<usize>)
        requires
            match chosen {
                Some(i) => i < old(self).candidates@.len(),
                None => true,
            },
        ensures
            match chosen {
                Some(i) => {
                    let p = old(self).candidates@[i as int]@;
                    &&& opt_view(final(self).selected_provider) == Some(p)
                    &&& final(self).selected_model@ == if old(self).candidate_models@.contains_key(p) {
                        p + ":"@ + old(self).candidate_models@[p]@
                    } else {
                        old(self).selected_model@
                    }
                },
                None => {
                    &&& final(self).selected_provider == old(self).selected_provider
                    &&& final(self).selected_model == old(self).selected_model
                },
            },
            final(self).estimated_tokens == old(self).estimated_tokens,
            final(self).budget_plan == old(self).budget_plan,
            final(self).cost_tier == old(self).cost_tier,
            final(self).remaining_budget == old(self).remaining_budget,
            final(self).required_tools == old(self).required_tools,
            final(self).approvals == old(self).approvals,
            final(self).policies == old(self).policies,
            final(self).seen_intent == old(self).seen_intent,
            final(self).candidates == old(self).candidates,
            final(self).candidate_models == old(self).candidate_models,
            final(self).strategy == old(self).strategy,
            final(self).metadata == old(self).metadata,
            final(self).execution_graph == old(self).execution_graph,
    {
        match chosen {
            Some(i) => {
                let provider = self.candidates[i].clone();
                match self.candidate_models.get(provider.as_str()) {
                    Some(model) => {
                        let with_colon = concat_str(provider.as_str(), ":");
                        self.selected_model = concat_str(with_colon.as_str(), model.as_str());
                    },
                    None => {},
                }
                self.selected_provider = Some(provider);
            },
            None => {},
        }
    }
}

/// A copy of the groups of an execution plan.
fn copy_groups(g: &Vec<Vec<String>>) -> (r: Vec<Vec<String>>)
    ensures
        group_strs(r@) == group_strs(g@),
{
    let mut r: Vec<Vec<String>> = Vec::new();
    let mut i: usize = 0;
    while i < g.len()
        invariant
            i <= g@.len(),
            r@.len() == i,
            group_strs(r@) == group_strs(g@).take(i as int),
        decreases g@.len() - i,
    {
        let group = clone_strings(&g[i]);
        let ghost before = r@;
        r.push(group);
        proof {
            assert(r@ == before.push(group));
            assert forall|k: int| 0 <= k <= i implies #[trigger] group_strs(r@)[k] == group_strs(g@)[k] by {
                if k < i {
                    assert(r@[k] == before[k]);
                    assert(group_strs(before)[k] == group_strs(g@).take(i as int)[k]);
                } else {
                    assert(r@[k]@ == g@[k]@);
                }
            }
        }
        i = i + 1;
        assert(group_strs(r@) =~= group_strs(g@).take(i as int));
    }
    assert(group_strs(g@).take(g@.len() as int) =~= group_strs(g@));
    r
}

impl IntentDraft {
    /// Hands the draft the groups of the execution plan it will carry out;
    /// nothing else of the draft changes.
    pub fn attach_graph(&mut self, graph: &ExecutionPlan)
        ensures
            group_strs(final(self).execution_graph@) == group_strs(graph.parallel_groups@),
            final(self).selected_provider == old(self).selected_provider,
            final(self).selected_model == old(self).selected_model,
            final(self).estimated_tokens == old(self).estimated_tokens,
            final(self).budget_plan == old(self).budget_plan,
            final(self).cost_tier == old(self).cost_tier,
            final(self).remaining_budget == old(self).remaining_budget,
            final(self).required_tools == old(self).required_tools,
            final(self).approvals == old(self).approvals,
            final(self).policies == old(self).policies,
            final(self).seen_intent == old(self).seen_intent,
            final(self).candidates == old(self).candidates,
            final(self).candidate_models == old(self).candidate_models,
            final(self).strategy == old(self).strategy,
            final(self).metadata == old(self).metadata,
    {
        self.execution_graph = copy_groups(&graph.parallel_groups);
    }
}

} // verus!
