//! Planning looks at the manifests as a collection: handing the same
//! manifests over in another order changes neither whether a plan exists
//! nor its groups and order.

use vstd::prelude::*;
use crate::kernel::manifest::{CapabilityManifest, strs};
use crate::kernel::planner::{
    closed_under_dependencies, depends_on, has_bad_permission, has_cycle, has_unknown_after,
    has_unknown_before, known_id, layering_prefix, lemma_lex_irreflexive, lemma_lex_transitive,
    manifests_valid, missing_dependencies, missing_in, missing_upto, placed, plan_matches, plannable,
    provided, ready_id, ready_in, sorted_strict, unknown_after_at, unknown_before_at, valid_layering,
};
use crate::runtime::execution_plan::{ExecutionPlan, group_strs};
use crate::text::lex_lt;

verus! {

/// Each manifest of `a` occurs in `b` and the other way round.
spec fn same_members(a: Seq<CapabilityManifest>, b: Seq<CapabilityManifest>) -> bool {
    forall|m: CapabilityManifest| #[trigger] a.contains(m) <==> b.contains(m)
}

/// A position of `s` that holds `m`.
spec fn position_of(s: Seq<CapabilityManifest>, m: CapabilityManifest) -> int {
    choose|j: int| 0 <= j < s.len() && s[j] == m
}

proof fn lemma_members(a: Seq<CapabilityManifest>, b: Seq<CapabilityManifest>)
    requires
        a.to_multiset() == b.to_multiset(),
    ensures
        same_members(a, b),
        same_members(b, a),
        a.len() == b.len(),
{
    vstd::seq_lib::to_multiset_len(a);
    vstd::seq_lib::to_multiset_len(b);
    assert forall|m: CapabilityManifest| #[trigger] a.contains(m) <==> b.contains(m) by {
        vstd::seq_lib::to_multiset_contains(a, m);
        vstd::seq_lib::to_multiset_contains(b, m);
    }
}

proof fn lemma_position(a: Seq<CapabilityManifest>, b: Seq<CapabilityManifest>, i: int)
    requires
        same_members(a, b),
        0 <= i < a.len(),
    ensures
        0 <= position_of(b, a[i]) < b.len(),
        b[position_of(b, a[i])] == a[i],
{
    assert(a.contains(a[i]));
}

proof fn lemma_provided_transfer(a: Seq<CapabilityManifest>, b: Seq<CapabilityManifest>, r: Seq<char>)
    requires
        same_members(a, b),
        provided(a, r),
    ensures
        provided(b, r),
{
    let i = choose|i: int| 0 <= i < a.len() && strs(a[i].provides@).contains(r);
    lemma_position(a, b, i);
}

proof fn lemma_known_transfer(a: Seq<CapabilityManifest>, b: Seq<CapabilityManifest>, t: Seq<char>)
    requires
        same_members(a, b),
        known_id(a, t),
    ensures
        known_id(b, t),
{
    let i = choose|i: int| 0 <= i < a.len() && a[i].id@ == t;
    lemma_position(a, b, i);
}

/// Whether one capability depends on another is read off the two manifests.
proof fn lemma_depends_transfer(
    a: Seq<CapabilityManifest>,
    i: int,
    j: int,
    b: Seq<CapabilityManifest>,
    i2: int,
    j2: int,
)
    requires
        a[i] == b[i2],
        a[j] == b[j2],
    ensures
        depends_on(a, i, j) == depends_on(b, i2, j2),
{
    reveal(depends_on);
}

proof fn lemma_valid_transfer(a: Seq<CapabilityManifest>, b: Seq<CapabilityManifest>)
    requires
        a.to_multiset() == b.to_multiset(),
        manifests_valid(a),
    ensures
        manifests_valid(b),
{
    lemma_members(a, b);
    assert(a.no_duplicates()) by {
        assert forall|i: int, j: int| 0 <= i < a.len() && 0 <= j < a.len() && i != j implies a[i] != a[j] by {
            if a[i] == a[j] {
                if i < j {
                    assert(a[i].id@ == a[j].id@);
                } else {
                    assert(a[j].id@ == a[i].id@);
                }
            }
        }
    }
    a.lemma_multiset_has_no_duplicates();
    b.lemma_multiset_has_no_duplicates_conv();
    assert forall|i: int, j: int| 0 <= i < j < b.len() implies b[i].id@ != b[j].id@ by {
        lemma_position(b, a, i);
        lemma_position(b, a, j);
        let p = position_of(a, b[i]);
        let q = position_of(a, b[j]);
        if b[i].id@ == b[j].id@ {
            assert(b[i] != b[j]);
            if p < q {
                assert(a[p].id@ == a[q].id@);
            } else {
                assert(a[q].id@ == a[p].id@);
            }
        }
    }
    assert forall|i: int| 0 <= i < b.len() implies !has_bad_permission(#[trigger] b[i]) by {
        lemma_position(b, a, i);
        assert(a[position_of(a, b[i])] == b[i]);
    }
    assert forall|i: int| 0 <= i < b.len() implies !has_unknown_before(b, #[trigger] b[i]) && !has_unknown_after(
        b,
        b[i],
    ) by {
        lemma_position(b, a, i);
        let p = position_of(a, b[i]);
        if has_unknown_before(b, b[i]) {
            let k = choose|k: int| unknown_before_at(b, b[i], k);
            if known_id(a, b[i].before@[k]@) {
                lemma_known_transfer(a, b, b[i].before@[k]@);
            }
            assert(unknown_before_at(a, a[p], k));
        }
        if has_unknown_after(b, b[i]) {
            let k = choose|k: int| unknown_after_at(b, b[i], k);
            if known_id(a, b[i].after@[k]@) {
                lemma_known_transfer(a, b, b[i].after@[k]@);
            }
            assert(unknown_after_at(a, a[p], k));
        }
    }
}

proof fn lemma_cycle_transfer(a: Seq<CapabilityManifest>, b: Seq<CapabilityManifest>)
    requires
        same_members(a, b),
        same_members(b, a),
        has_cycle(a),
    ensures
        has_cycle(b),
{
    let s = choose|s: Set<int>| #[trigger] closed_under_dependencies(a, s);
    let s2 = Set::new(|j2: int| 0 <= j2 < b.len() && exists|j: int| s.contains(j) && b[j2] == a[j]);
    let j0 = choose|j: int| s.contains(j);
    lemma_position(a, b, j0);
    assert(s2.contains(position_of(b, a[j0])));
    assert forall|j2: int| #[trigger] s2.contains(j2) implies 0 <= j2 < b.len() && exists|i2: int|
        s2.contains(i2) && depends_on(b, i2, j2) by {
        let j = choose|j: int| s.contains(j) && b[j2] == a[j];
        let i = choose|i: int| s.contains(i) && depends_on(a, i, j);
        lemma_position(a, b, i);
        let i2 = position_of(b, a[i]);
        assert(s2.contains(i2));
        lemma_depends_transfer(a, i, j, b, i2, j2);
    }
    assert(closed_under_dependencies(b, s2));
}

proof fn lemma_ready_transfer(a: Seq<CapabilityManifest>, b: Seq<CapabilityManifest>, done: Set<Seq<char>>, j: int)
    requires
        same_members(a, b),
        same_members(b, a),
        ready_in(a, done, j),
    ensures
        ready_in(b, done, position_of(b, a[j])),
{
    lemma_position(a, b, j);
    let j2 = position_of(b, a[j]);
    assert forall|i2: int| 0 <= i2 < b.len() && depends_on(b, i2, j2) implies done.contains(
        #[trigger] b[i2].id@,
    ) by {
        lemma_position(b, a, i2);
        let i = position_of(a, b[i2]);
        lemma_depends_transfer(a, i, j, b, i2, j2);
    }
}

proof fn lemma_ready_id_transfer(a: Seq<CapabilityManifest>, b: Seq<CapabilityManifest>, done: Set<Seq<char>>)
    requires
        same_members(a, b),
        same_members(b, a),
    ensures
        forall|v: Seq<char>| ready_id(a, done, v) <==> ready_id(b, done, v),
{
    assert forall|v: Seq<char>| ready_id(a, done, v) <==> ready_id(b, done, v) by {
        if ready_id(a, done, v) {
            let j = choose|j: int| ready_in(a, done, j) && #[trigger] a[j].id@ == v;
            lemma_ready_transfer(a, b, done, j);
            lemma_position(a, b, j);
            assert(b[position_of(b, a[j])].id@ == v);
        }
        if ready_id(b, done, v) {
            let j = choose|j: int| ready_in(b, done, j) && #[trigger] b[j].id@ == v;
            lemma_ready_transfer(b, a, done, j);
            lemma_position(b, a, j);
            assert(a[position_of(a, b[j])].id@ == v);
        }
    }
}

proof fn lemma_layering_transfer(a: Seq<CapabilityManifest>, b: Seq<CapabilityManifest>, g: Seq<Seq<Seq<char>>>)
    requires
        same_members(a, b),
        same_members(b, a),
        valid_layering(a, g),
    ensures
        valid_layering(b, g),
{
    assert forall|k: int| 0 <= k < g.len() implies forall|v: Seq<char>| (#[trigger] g[k]).contains(v) <==> ready_id(
        b,
        placed(g.take(k)),
        v,
    ) by {
        lemma_ready_id_transfer(a, b, placed(g.take(k)));
    }
    assert forall|j: int| !ready_in(b, placed(g), j) by {
        if ready_in(b, placed(g), j) {
            lemma_ready_transfer(b, a, placed(g), j);
        }
    }
}

// ---------------------------------------------------------------------------
// A valid layering is unique
// ---------------------------------------------------------------------------

proof fn lemma_sorted_first_least(x: Seq<Seq<char>>, p: int)
    requires
        sorted_strict(x),
        0 < p < x.len(),
    ensures
        lex_lt(x[0], x[p]),
        x[p] != x[0],
{
    lemma_lex_irreflexive(x[0]);
}

/// Two strictly sorted sequences with the same members are equal.
proof fn lemma_sorted_unique(x: Seq<Seq<char>>, y: Seq<Seq<char>>)
    requires
        sorted_strict(x),
        sorted_strict(y),
        forall|v: Seq<char>| x.contains(v) <==> y.contains(v),
    ensures
        x == y,
    decreases x.len(),
{
    if x.len() == 0 || y.len() == 0 {
        if x.len() > 0 {
            assert(x.contains(x[0]));
        }
        if y.len() > 0 {
            assert(y.contains(y[0]));
        }
        assert(x =~= y);
    } else {
        assert(x.contains(x[0]));
        assert(y.contains(y[0]));
        let p = choose|p: int| 0 <= p < x.len() && x[p] == y[0];
        let q = choose|q: int| 0 <= q < y.len() && y[q] == x[0];
        if x[0] != y[0] {
            lemma_sorted_first_least(x, p);
            lemma_sorted_first_least(y, q);
            lemma_lex_transitive(x[0], y[0], x[0]);
            lemma_lex_irreflexive(x[0]);
        }
        let x1 = x.drop_first();
        let y1 = y.drop_first();
        assert forall|v: Seq<char>| x1.contains(v) <==> y1.contains(v) by {
            if x1.contains(v) {
                let a = choose|a: int| 0 <= a < x1.len() && x1[a] == v;
                lemma_sorted_first_least(x, a + 1);
                assert(x.contains(v));
                let c = choose|c: int| 0 <= c < y.len() && y[c] == v;
                assert(c != 0);
                assert(y1[c - 1] == v);
            }
            if y1.contains(v) {
                let a = choose|a: int| 0 <= a < y1.len() && y1[a] == v;
                lemma_sorted_first_least(y, a + 1);
                assert(y.contains(v));
                let c = choose|c: int| 0 <= c < x.len() && x[c] == v;
                assert(c != 0);
                assert(x1[c - 1] == v);
            }
        }
        assert(sorted_strict(x1));
        assert(sorted_strict(y1));
        lemma_sorted_unique(x1, y1);
        assert(x =~= y) by {
            assert forall|i: int| 0 <= i < x.len() implies x[i] == y[i] by {
                if i > 0 {
                    assert(x[i] == x1[i - 1]);
                    assert(y[i] == y1[i - 1]);
                }
            }
        }
    }
}

proof fn lemma_layers_agree(ms: Seq<CapabilityManifest>, g1: Seq<Seq<Seq<char>>>, g2: Seq<Seq<Seq<char>>>, k: int)
    requires
        layering_prefix(ms, g1),
        layering_prefix(ms, g2),
        0 <= k <= g1.len(),
        k <= g2.len(),
    ensures
        g1.take(k) == g2.take(k),
    decreases k,
{
    if k > 0 {
        lemma_layers_agree(ms, g1, g2, k - 1);
        assert(g1.take(k - 1) =~= g1.take(k).take(k - 1));
        let x = g1[k - 1];
        let y = g2[k - 1];
        assert forall|v: Seq<char>| x.contains(v) <==> y.contains(v) by {}
        lemma_sorted_unique(x, y);
        assert(g1.take(k) =~= g1.take(k - 1).push(x));
        assert(g2.take(k) =~= g2.take(k - 1).push(y));
    }
}

proof fn lemma_layering_shorter(ms: Seq<CapabilityManifest>, g1: Seq<Seq<Seq<char>>>, g2: Seq<Seq<Seq<char>>>)
    requires
        valid_layering(ms, g1),
        layering_prefix(ms, g2),
    ensures
        g2.len() <= g1.len(),
{
    if g2.len() > g1.len() {
        let k = g1.len() as int;
        lemma_layers_agree(ms, g1, g2, k);
        assert(g1.take(k) =~= g1);
        assert(g2[k].contains(g2[k][0]));
        let j = choose|j: int| ready_in(ms, placed(g2.take(k)), j) && #[trigger] ms[j].id@ == g2[k][0];
        assert(ready_in(ms, placed(g1), j));
    }
}

/// The manifests have one valid layering at most.
proof fn lemma_layering_unique(ms: Seq<CapabilityManifest>, g1: Seq<Seq<Seq<char>>>, g2: Seq<Seq<Seq<char>>>)
    requires
        valid_layering(ms, g1),
        valid_layering(ms, g2),
    ensures
        g1 == g2,
{
    lemma_layering_shorter(ms, g1, g2);
    lemma_layering_shorter(ms, g2, g1);
    let k = g1.len() as int;
    lemma_layers_agree(ms, g1, g2, k);
    assert(g1.take(k) =~= g1);
    assert(g2.take(k) =~= g2);
}

// ---------------------------------------------------------------------------
// Missing requirements
// ---------------------------------------------------------------------------

proof fn lemma_missing_in_env(
    a: Seq<CapabilityManifest>,
    b: Seq<CapabilityManifest>,
    cap: Seq<char>,
    reqs: Seq<Seq<char>>,
)
    requires
        same_members(a, b),
        same_members(b, a),
    ensures
        missing_in(a, cap, reqs) == missing_in(b, cap, reqs),
    decreases reqs.len(),
{
    if reqs.len() > 0 {
        lemma_missing_in_env(a, b, cap, reqs.drop_last());
        if provided(a, reqs.last()) {
            lemma_provided_transfer(a, b, reqs.last());
        }
        if provided(b, reqs.last()) {
            lemma_provided_transfer(b, a, reqs.last());
        }
    }
}

/// The reports for the manifests `xs`, in their order, where `env` decides
/// what is provided.
spec fn reports_for(env: Seq<CapabilityManifest>, xs: Seq<CapabilityManifest>) -> Seq<Seq<char>>
    decreases xs.len(),
{
    if xs.len() == 0 {
        Seq::empty()
    } else {
        reports_for(env, xs.drop_last()) + missing_in(env, xs.last().id@, strs(xs.last().requires@))
    }
}

proof fn lemma_reports_upto(ms: Seq<CapabilityManifest>, n: int)
    requires
        0 <= n <= ms.len(),
    ensures
        missing_upto(ms, n) == reports_for(ms, ms.take(n)),
    decreases n,
{
    if n > 0 {
        lemma_reports_upto(ms, n - 1);
        assert(ms.take(n).drop_last() =~= ms.take(n - 1));
        assert(ms.take(n).last() == ms[n - 1]);
    } else {
        assert(ms.take(n).len() == 0);
    }
}

proof fn lemma_reports_env(a: Seq<CapabilityManifest>, b: Seq<CapabilityManifest>, xs: Seq<CapabilityManifest>)
    requires
        same_members(a, b),
        same_members(b, a),
    ensures
        reports_for(a, xs) == reports_for(b, xs),
    decreases xs.len(),
{
    if xs.len() > 0 {
        lemma_reports_env(a, b, xs.drop_last());
        lemma_missing_in_env(a, b, xs.last().id@, strs(xs.last().requires@));
    }
}

proof fn lemma_reports_concat(env: Seq<CapabilityManifest>, x: Seq<CapabilityManifest>, y: Seq<CapabilityManifest>)
    ensures
        reports_for(env, x + y) == reports_for(env, x) + reports_for(env, y),
    decreases y.len(),
{
    if y.len() == 0 {
        assert(x + y =~= x);
        assert(reports_for(env, x) + reports_for(env, y) =~= reports_for(env, x));
    } else {
        lemma_reports_concat(env, x, y.drop_last());
        assert((x + y).drop_last() =~= x + y.drop_last());
        assert((x + y).last() == y.last());
        let f = missing_in(env, y.last().id@, strs(y.last().requires@));
        assert((reports_for(env, x) + reports_for(env, y.drop_last())) + f =~= reports_for(env, x) + (
        reports_for(env, y.drop_last()) + f));
    }
}

/// Reports are the same, each as often, for the same manifests in any order.
proof fn lemma_reports_reordered(env: Seq<CapabilityManifest>, xs: Seq<CapabilityManifest>, ys: Seq<CapabilityManifest>)
    requires
        xs.to_multiset() == ys.to_multiset(),
    ensures
        reports_for(env, xs).to_multiset() == reports_for(env, ys).to_multiset(),
    decreases xs.len(),
{
    broadcast use vstd::multiset::group_multiset_axioms;
    vstd::seq_lib::to_multiset_len(xs);
    vstd::seq_lib::to_multiset_len(ys);
    if xs.len() == 0 {
        assert(ys =~= xs);
    } else {
        let x = xs.last();
        let xs0 = xs.drop_last();
        assert(xs0.push(x) =~= xs);
        vstd::seq_lib::to_multiset_build(xs0, x);
        vstd::seq_lib::to_multiset_contains(xs, x);
        vstd::seq_lib::to_multiset_contains(ys, x);
        assert(xs.contains(x)) by {
            assert(xs[xs.len() - 1] == x);
        }
        let i = choose|i: int| 0 <= i < ys.len() && ys[i] == x;
        let ys0 = ys.remove(i);
        vstd::seq_lib::to_multiset_remove(ys, i);
        assert(xs0.to_multiset() =~= ys0.to_multiset());
        lemma_reports_reordered(env, xs0, ys0);
        let l = ys.take(i);
        let r = ys.skip(i + 1);
        let one = seq![x];
        assert(ys =~= (l + one) + r);
        assert(ys0 =~= l + r);
        lemma_reports_concat(env, l + one, r);
        lemma_reports_concat(env, l, one);
        lemma_reports_concat(env, l, r);
        let f = missing_in(env, x.id@, strs(x.requires@));
        assert(one.drop_last() =~= Seq::<CapabilityManifest>::empty());
        assert(one.last() == x);
        assert(reports_for(env, one.drop_last()) =~= Seq::<Seq<char>>::empty());
        assert(reports_for(env, one) =~= f);
        let rl = reports_for(env, l);
        let rr = reports_for(env, r);
        vstd::seq_lib::lemma_multiset_commutative(reports_for(env, xs0), f);
        vstd::seq_lib::lemma_multiset_commutative(rl + f, rr);
        vstd::seq_lib::lemma_multiset_commutative(rl, f);
        vstd::seq_lib::lemma_multiset_commutative(rl, rr);
        assert(reports_for(env, xs).to_multiset() =~= reports_for(env, ys).to_multiset());
    }
}

proof fn lemma_missing_reordered(a: Seq<CapabilityManifest>, b: Seq<CapabilityManifest>)
    requires
        a.to_multiset() == b.to_multiset(),
    ensures
        missing_dependencies(a).to_multiset() == missing_dependencies(b).to_multiset(),
        missing_dependencies(a).len() == missing_dependencies(b).len(),
{
    lemma_members(a, b);
    lemma_reports_upto(a, a.len() as int);
    lemma_reports_upto(b, b.len() as int);
    assert(a.take(a.len() as int) =~= a);
    assert(b.take(b.len() as int) =~= b);
    lemma_reports_env(a, b, a);
    lemma_reports_reordered(b, a, b);
    vstd::seq_lib::to_multiset_len(missing_dependencies(a));
    vstd::seq_lib::to_multiset_len(missing_dependencies(b));
}

// ---------------------------------------------------------------------------
// The laws
// ---------------------------------------------------------------------------

/// Planning the same manifests in another order succeeds exactly when the
/// given order does, and reports the same missing requirements, each as
/// often, though perhaps in another order.
pub proof fn lemma_plannable_ignores_order(ms: Seq<CapabilityManifest>, reordered: Seq<CapabilityManifest>)
    requires
        reordered.to_multiset() == ms.to_multiset(),
    ensures
        plannable(reordered) == plannable(ms),
        missing_dependencies(reordered).to_multiset() == missing_dependencies(ms).to_multiset(),
{
    lemma_members(ms, reordered);
    lemma_missing_reordered(ms, reordered);
    if manifests_valid(ms) {
        lemma_valid_transfer(ms, reordered);
    }
    if manifests_valid(reordered) {
        lemma_valid_transfer(reordered, ms);
    }
    if has_cycle(ms) {
        lemma_cycle_transfer(ms, reordered);
    }
    if has_cycle(reordered) {
        lemma_cycle_transfer(reordered, ms);
    }
}

/// Plans of the same manifests given in two orders have the same groups and
/// the same execution order; they hold the same capabilities and report the
/// same missing requirements, each as often.
pub proof fn lemma_plan_ignores_manifest_order(
    ms: Seq<CapabilityManifest>,
    reordered: Seq<CapabilityManifest>,
    plan: ExecutionPlan,
    replan: ExecutionPlan,
)
    requires
        reordered.to_multiset() == ms.to_multiset(),
        plan_matches(ms, plan),
        plan_matches(reordered, replan),
    ensures
        group_strs(replan.parallel_groups@) == group_strs(plan.parallel_groups@),
        strs(replan.execution_order@) == strs(plan.execution_order@),
        replan.capabilities@.to_multiset() == plan.capabilities@.to_multiset(),
        strs(replan.missing_dependencies@).to_multiset() == strs(plan.missing_dependencies@).to_multiset(),
{
    lemma_members(ms, reordered);
    lemma_missing_reordered(ms, reordered);
    let g1 = group_strs(plan.parallel_groups@);
    let g2 = group_strs(replan.parallel_groups@);
    if missing_dependencies(ms).len() > 0 {
        assert(g1 =~= g2);
        assert(strs(plan.execution_order@) =~= strs(replan.execution_order@));
    } else {
        lemma_layering_transfer(reordered, ms, g2);
        lemma_layering_unique(ms, g1, g2);
        assert(strs(plan.missing_dependencies@) =~= strs(replan.missing_dependencies@));
    }
}

} // verus!
