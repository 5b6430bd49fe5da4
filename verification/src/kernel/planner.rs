//! Dependency-aware execution planning: validates the manifests, derives
//! the dependency graph and layers it into groups of capabilities whose
//! dependencies have all run.

use vstd::prelude::*;
use crate::kernel::manifest::{CapabilityManifest, strs, strings_contain};
use crate::runtime::execution_plan::{ExecutionPlan, flatten_group_ids, group_strs, flatten_groups};
use crate::text::{lex_lt, lex_less, concat_str, str_eq};

verus! {

// ---------------------------------------------------------------------------
// Lexicographic order
// ---------------------------------------------------------------------------

pub proof fn lemma_lex_irreflexive(a: Seq<char>)
    ensures
        !lex_lt(a, a),
    decreases a.len(),
{
    if a.len() > 0 {
        lemma_lex_irreflexive(a.drop_first());
    }
}

pub proof fn lemma_lex_total(a: Seq<char>, b: Seq<char>)
    requires
        a != b,
    ensures
        lex_lt(a, b) || lex_lt(b, a),
    decreases a.len(),
{
    if a.len() > 0 && b.len() > 0 && a[0] == b[0] {
        if a.drop_first() == b.drop_first() {
            assert(a =~= seq![a[0]] + a.drop_first());
            assert(b =~= seq![b[0]] + b.drop_first());
        }
        lemma_lex_total(a.drop_first(), b.drop_first());
    } else if a.len() == 0 && b.len() == 0 {
        assert(a =~= b);
    }
}

pub proof fn lemma_lex_transitive(a: Seq<char>, b: Seq<char>, c: Seq<char>)
    requires
        lex_lt(a, b),
        lex_lt(b, c),
    ensures
        lex_lt(a, c),
    decreases a.len(),
{
    if a.len() > 0 && b.len() > 0 && c.len() > 0 && a[0] == b[0] && b[0] == c[0] {
        lemma_lex_transitive(a.drop_first(), b.drop_first(), c.drop_first());
    }
}

/// Strictly increasing in lexicographic order.
pub open spec fn sorted_strict(g: Seq<Seq<char>>) -> bool {
    forall|p: int, q: int| 0 <= p < q < g.len() ==> lex_lt(#[trigger] g[p], #[trigger] g[q])
}

/// Inserts `x` at its place in a strictly sorted vector that lacks it.
pub(crate) fn insert_sorted(g: &mut Vec<String>, x: String)
    requires
        sorted_strict(strs(old(g)@)),
        !strs(old(g)@).contains(x@),
    ensures
        sorted_strict(strs(final(g)@)),
        final(g)@.len() == old(g)@.len() + 1,
        forall|v: Seq<char>| #[trigger] strs(final(g)@).contains(v) <==> (strs(old(g)@).contains(v) || v == x@),
{
    let ghost old_g = strs(g@);
    let mut pos: usize = 0;
    let mut found = false;
    while pos < g.len() && !found
        invariant
            strs(g@) == old_g,
            sorted_strict(old_g),
            !old_g.contains(x@),
            pos <= g.len(),
            forall|p: int| 0 <= p < pos ==> lex_lt(#[trigger] old_g[p], x@),
            found ==> pos < g.len() && lex_lt(x@, old_g[pos as int]),
        decreases (g.len() - pos) * 2 + (if found { 0int } else { 1int }),
    {
        if lex_less(x.as_str(), g[pos].as_str()) {
            found = true;
            continue;
        }
        proof {
            assert(old_g[pos as int] == g@[pos as int]@);
            if old_g[pos as int] == x@ {
                assert(old_g.contains(x@));
            }
            lemma_lex_total(old_g[pos as int], x@);
        }
        pos = pos + 1;
    }
    g.insert(pos, x);
    proof {
        let ng = strs(g@);
        assert(ng =~= old_g.insert(pos as int, x@));
        assert forall|p: int, q: int| 0 <= p < q < ng.len() implies lex_lt(#[trigger] ng[p], #[trigger] ng[q]) by {
            if q < pos {
            } else if q == pos {
            } else if p < pos {
                if q - 1 > pos {
                    lemma_lex_transitive(x@, old_g[pos as int], old_g[q - 1]);
                }
                lemma_lex_transitive(old_g[p], x@, old_g[q - 1]);
            } else if p == pos {
                if q - 1 > pos {
                    lemma_lex_transitive(x@, old_g[pos as int], old_g[q - 1]);
                }
            } else {
            }
        }
        assert forall|v: Seq<char>| #[trigger] ng.contains(v) <==> (old_g.contains(v) || v == x@) by {
            if ng.contains(v) {
                let i = choose|i: int| 0 <= i < ng.len() && ng[i] == v;
                if i < pos {
                    assert(old_g[i] == v);
                } else if i > pos {
                    assert(old_g[i - 1] == v);
                }
            }
            if old_g.contains(v) {
                let i = choose|i: int| 0 <= i < old_g.len() && old_g[i] == v;
                if i < pos {
                    assert(ng[i] == v);
                } else {
                    assert(ng[i + 1] == v);
                }
            }
            if v == x@ {
                assert(ng[pos as int] == v);
            }
        }
    }
}


// ---------------------------------------------------------------------------
// Manifest validation
// ---------------------------------------------------------------------------

/// The permissions a capability may declare.
pub open spec fn allowed_permission(p: Seq<char>) -> bool {
    ||| p == "identity.read"@
    ||| p == "policy.enforce"@
    ||| p == "budget.manage"@
    ||| p == "provider.route"@
    ||| p == "metadata.read"@
    ||| p == "metadata.write"@
    ||| p == "tools.use"@
    ||| p == "plugins.execute"@
    ||| p == "guardrails.scan"@
}

fn is_allowed_permission(p: &str) -> (r: bool)
    ensures
        r == allowed_permission(p@),
{
    str_eq(p, "identity.read") || str_eq(p, "policy.enforce") || str_eq(p, "budget.manage")
        || str_eq(p, "provider.route") || str_eq(p, "metadata.read") || str_eq(p, "metadata.write")
        || str_eq(p, "tools.use") || str_eq(p, "plugins.execute") || str_eq(p, "guardrails.scan")
}

/// Manifest `j` repeats the id of an earlier manifest.
pub open spec fn duplicate_at(ms: Seq<CapabilityManifest>, j: int) -> bool {
    0 <= j < ms.len() && exists|i: int| 0 <= i < j && ms[i].id@ == #[trigger] ms[j].id@
}

/// No two manifests share an id.
pub open spec fn unique_ids(ms: Seq<CapabilityManifest>) -> bool {
    forall|i: int, j: int| 0 <= i < j < ms.len() ==> ms[i].id@ != ms[j].id@
}

/// Permission `k` of `m` is not among the allowed ones.
pub open spec fn bad_permission_at(m: CapabilityManifest, k: int) -> bool {
    0 <= k < m.permissions@.len() && !allowed_permission(m.permissions@[k]@)
}

pub open spec fn has_bad_permission(m: CapabilityManifest) -> bool {
    exists|k: int| bad_permission_at(m, k)
}

/// Some manifest carries the id `t`.
pub open spec fn known_id(ms: Seq<CapabilityManifest>, t: Seq<char>) -> bool {
    exists|i: int| 0 <= i < ms.len() && ms[i].id@ == t
}

/// `before` entry `k` of `m` names no manifest.
pub open spec fn unknown_before_at(ms: Seq<CapabilityManifest>, m: CapabilityManifest, k: int) -> bool {
    0 <= k < m.before@.len() && !known_id(ms, m.before@[k]@)
}

/// `after` entry `k` of `m` names no manifest.
pub open spec fn unknown_after_at(ms: Seq<CapabilityManifest>, m: CapabilityManifest, k: int) -> bool {
    0 <= k < m.after@.len() && !known_id(ms, m.after@[k]@)
}

pub open spec fn has_unknown_before(ms: Seq<CapabilityManifest>, m: CapabilityManifest) -> bool {
    exists|k: int| unknown_before_at(ms, m, k)
}

pub open spec fn has_unknown_after(ms: Seq<CapabilityManifest>, m: CapabilityManifest) -> bool {
    exists|k: int| unknown_after_at(ms, m, k)
}

/// Ids are unique, permissions allowed and ordering targets known.
pub open spec fn manifests_valid(ms: Seq<CapabilityManifest>) -> bool {
    &&& unique_ids(ms)
    &&& forall|i: int| 0 <= i < ms.len() ==> !has_bad_permission(#[trigger] ms[i])
    &&& forall|i: int| 0 <= i < ms.len() ==> !has_unknown_before(ms, #[trigger] ms[i]) && !has_unknown_after(ms, ms[i])
}

/// Why planning was refused.
pub enum PlanError {
    DuplicateCapability { id: String },
    InvalidPermission { capability: String, permission: String },
    UnknownBefore { capability: String, target: String },
    UnknownAfter { capability: String, target: String },
    CyclicGraph,
}

/// The error that the manifests `ms` call for, in the order in which the
/// planner checks them.
pub open spec fn plan_error_matches(ms: Seq<CapabilityManifest>, e: PlanError) -> bool {
    match e {
        PlanError::DuplicateCapability { id } => exists|j: int|
            #![trigger ms[j]]
            duplicate_at(ms, j) && (forall|j2: int| 0 <= j2 < j ==> !duplicate_at(ms, j2))
                && id@ == ms[j].id@,
        PlanError::InvalidPermission { capability, permission } => unique_ids(ms) && exists|i: int, k: int|
            #![trigger ms[i], bad_permission_at(ms[i], k)]
            0 <= i < ms.len() && bad_permission_at(ms[i], k)
                && (forall|i2: int| 0 <= i2 < i ==> !has_bad_permission(#[trigger] ms[i2]))
                && (forall|k2: int| 0 <= k2 < k ==> !bad_permission_at(ms[i], k2))
                && capability@ == ms[i].id@ && permission@ == ms[i].permissions@[k]@,
        PlanError::UnknownBefore { capability, target } => unique_ids(ms)
            && (forall|i: int| 0 <= i < ms.len() ==> !has_bad_permission(#[trigger] ms[i]))
            && exists|i: int, k: int|
            #![trigger ms[i], unknown_before_at(ms, ms[i], k)]
            0 <= i < ms.len() && unknown_before_at(ms, ms[i], k)
                && (forall|i2: int| 0 <= i2 < i ==> !has_unknown_before(ms, #[trigger] ms[i2]) && !has_unknown_after(ms, ms[i2]))
                && (forall|k2: int| 0 <= k2 < k ==> !unknown_before_at(ms, ms[i], k2))
                && capability@ == ms[i].id@ && target@ == ms[i].before@[k]@,
        PlanError::UnknownAfter { capability, target } => unique_ids(ms)
            && (forall|i: int| 0 <= i < ms.len() ==> !has_bad_permission(#[trigger] ms[i]))
            && exists|i: int, k: int|
            #![trigger ms[i], unknown_after_at(ms, ms[i], k)]
            0 <= i < ms.len() && unknown_after_at(ms, ms[i], k) && !has_unknown_before(ms, ms[i])
                && (forall|i2: int| 0 <= i2 < i ==> !has_unknown_before(ms, #[trigger] ms[i2]) && !has_unknown_after(ms, ms[i2]))
                && (forall|k2: int| 0 <= k2 < k ==> !unknown_after_at(ms, ms[i], k2))
                && capability@ == ms[i].id@ && target@ == ms[i].after@[k]@,
        PlanError::CyclicGraph => manifests_valid(ms) && missing_dependencies(ms).len() == 0 && has_cycle(ms),
    }
}

fn find_duplicate(ms: &Vec<CapabilityManifest>) -> (r: Option<usize>)
    ensures
        match r {
            Some(j) => duplicate_at(ms@, j as int) && forall|j2: int| 0 <= j2 < j ==> !duplicate_at(ms@, j2),
            None => unique_ids(ms@),
        },
{
    let mut j: usize = 0;
    while j < ms.len()
        invariant
            j <= ms.len(),
            forall|a: int, b: int| 0 <= a < b < j ==> ms@[a].id@ != ms@[b].id@,
        decreases ms.len() - j,
    {
        let mut i: usize = 0;
        while i < j
            invariant
                j < ms.len(),
                i <= j,
                forall|a: int, b: int| 0 <= a < b < j ==> ms@[a].id@ != ms@[b].id@,
                forall|a: int| 0 <= a < i ==> ms@[a].id@ != ms@[j as int].id@,
            decreases j - i,
        {
            if str_eq(ms[i].id.as_str(), ms[j].id.as_str()) {
                proof {
                    assert forall|j2: int| 0 <= j2 < j implies !duplicate_at(ms@, j2) by {
                        if duplicate_at(ms@, j2) {
                            let a = choose|a: int| 0 <= a < j2 && ms@[a].id@ == #[trigger] ms@[j2].id@;
                            assert(ms@[a].id@ != ms@[j2].id@);
                        }
                    }
                }
                return Some(j);
            }
            i = i + 1;
        }
        j = j + 1;
    }
    None
}

fn first_bad_permission(m: &CapabilityManifest) -> (r: Option<usize>)
    ensures
        match r {
            Some(k) => bad_permission_at(*m, k as int) && forall|k2: int| 0 <= k2 < k ==> !bad_permission_at(*m, k2),
            None => !has_bad_permission(*m),
        },
{
    let mut k: usize = 0;
    while k < m.permissions.len()
        invariant
            k <= m.permissions@.len(),
            forall|k2: int| 0 <= k2 < k ==> !bad_permission_at(*m, k2),
        decreases m.permissions@.len() - k,
    {
        if !is_allowed_permission(m.permissions[k].as_str()) {
            return Some(k);
        }
        k = k + 1;
    }
    None
}

fn is_known_id(ms: &Vec<CapabilityManifest>, t: &str) -> (r: bool)
    ensures
        r == known_id(ms@, t@),
{
    let mut i: usize = 0;
    while i < ms.len()
        invariant
            i <= ms.len(),
            forall|a: int| 0 <= a < i ==> ms@[a].id@ != t@,
        decreases ms.len() - i,
    {
        if str_eq(ms[i].id.as_str(), t) {
            return true;
        }
        i = i + 1;
    }
    false
}

fn first_unknown_target(ms: &Vec<CapabilityManifest>, targets: &Vec<String>) -> (r: Option<usize>)
    ensures
        match r {
            Some(k) => k < targets@.len() && !known_id(ms@, targets@[k as int]@)
                && forall|k2: int| 0 <= k2 < k ==> known_id(ms@, targets@[k2]@),
            None => forall|k2: int| 0 <= k2 < targets@.len() ==> known_id(ms@, targets@[k2]@),
        },
{
    let mut k: usize = 0;
    while k < targets.len()
        invariant
            k <= targets@.len(),
            forall|k2: int| 0 <= k2 < k ==> known_id(ms@, targets@[k2]@),
        decreases targets@.len() - k,
    {
        if !is_known_id(ms, targets[k].as_str()) {
            return Some(k);
        }
        k = k + 1;
    }
    None
}

fn check_manifests(ms: &Vec<CapabilityManifest>) -> (r: Result<(), PlanError>)
    ensures
        r is Ok <==> manifests_valid(ms@),
        match r {
            Ok(_) => true,
            Err(e) => plan_error_matches(ms@, e) && !(e is CyclicGraph),
        },
{
    match find_duplicate(ms) {
        Some(j) => {
            return Err(PlanError::DuplicateCapability { id: ms[j].id.clone() });
        },
        None => {},
    }
    let mut i: usize = 0;
    while i < ms.len()
        invariant
            i <= ms.len(),
            unique_ids(ms@),
            forall|i2: int| 0 <= i2 < i ==> !has_bad_permission(#[trigger] ms@[i2]),
        decreases ms.len() - i,
    {
        match first_bad_permission(&ms[i]) {
            Some(k) => {
                let e = PlanError::InvalidPermission {
                    capability: ms[i].id.clone(),
                    permission: ms[i].permissions[k].clone(),
                };
                assert(plan_error_matches(ms@, e)) by {
                    assert(bad_permission_at(ms@[i as int], k as int));
                }
                return Err(e);
            },
            None => {},
        }
        i = i + 1;
    }
    let mut i: usize = 0;
    while i < ms.len()
        invariant
            i <= ms.len(),
            unique_ids(ms@),
            forall|i2: int| 0 <= i2 < ms.len() ==> !has_bad_permission(#[trigger] ms@[i2]),
            forall|i2: int| 0 <= i2 < i ==> !has_unknown_before(ms@, #[trigger] ms@[i2]) && !has_unknown_after(ms@, ms@[i2]),
        decreases ms.len() - i,
    {
        match first_unknown_target(ms, &ms[i].before) {
            Some(k) => {
                let e = PlanError::UnknownBefore { capability: ms[i].id.clone(), target: ms[i].before[k].clone() };
                assert(plan_error_matches(ms@, e)) by {
                    assert(unknown_before_at(ms@, ms@[i as int], k as int));
                }
                return Err(e);
            },
            None => {},
        }
        match first_unknown_target(ms, &ms[i].after) {
            Some(k) => {
                let e = PlanError::UnknownAfter { capability: ms[i].id.clone(), target: ms[i].after[k].clone() };
                assert(plan_error_matches(ms@, e)) by {
                    assert(unknown_after_at(ms@, ms@[i as int], k as int));
                }
                return Err(e);
            },
            None => {},
        }
        i = i + 1;
    }
    Ok(())
}

// ---------------------------------------------------------------------------
// Missing dependencies
// ---------------------------------------------------------------------------

/// Some manifest provides `r`.
pub open spec fn provided(ms: Seq<CapabilityManifest>, r: Seq<char>) -> bool {
    exists|i: int| 0 <= i < ms.len() && strs(ms[i].provides@).contains(r)
}

/// The report for a requirement that nothing provides.
pub open spec fn missing_message(cap: Seq<char>, req: Seq<char>) -> Seq<char> {
    "capability '"@ + cap + "' requires '"@ + req + "' but no provider is registered"@
}

/// The reports for the requirements `reqs` of capability `cap`.
pub open spec fn missing_in(ms: Seq<CapabilityManifest>, cap: Seq<char>, reqs: Seq<Seq<char>>) -> Seq<Seq<char>>
    decreases reqs.len(),
{
    if reqs.len() == 0 {
        Seq::empty()
    } else if provided(ms, reqs.last()) {
        missing_in(ms, cap, reqs.drop_last())
    } else {
        missing_in(ms, cap, reqs.drop_last()).push(missing_message(cap, reqs.last()))
    }
}

/// The reports for the first `n` manifests.
pub open spec fn missing_upto(ms: Seq<CapabilityManifest>, n: int) -> Seq<Seq<char>>
    decreases n,
{
    if n <= 0 {
        Seq::empty()
    } else {
        missing_upto(ms, n - 1) + missing_in(ms, ms[n - 1].id@, strs(ms[n - 1].requires@))
    }
}

/// Every requirement that no manifest provides, manifest by manifest.
pub open spec fn missing_dependencies(ms: Seq<CapabilityManifest>) -> Seq<Seq<char>> {
    missing_upto(ms, ms.len() as int)
}

fn is_provided(ms: &Vec<CapabilityManifest>, r: &str) -> (b: bool)
    ensures
        b == provided(ms@, r@),
{
    let mut i: usize = 0;
    while i < ms.len()
        invariant
            i <= ms.len(),
            forall|a: int| 0 <= a < i ==> !strs(ms@[a].provides@).contains(r@),
        decreases ms.len() - i,
    {
        if strings_contain(&ms[i].provides, r) {
            return true;
        }
        i = i + 1;
    }
    false
}

fn missing_report(cap: &str, req: &str) -> (s: String)
    ensures
        s@ == missing_message(cap@, req@),
{
    let a = concat_str("capability '", cap);
    let b = concat_str(a.as_str(), "' requires '");
    let c = concat_str(b.as_str(), req);
    let d = concat_str(c.as_str(), "' but no provider is registered");
    d
}

fn collect_missing(ms: &Vec<CapabilityManifest>) -> (r: Vec<String>)
    ensures
        strs(r@) == missing_dependencies(ms@),
{
    let mut out: Vec<String> = Vec::new();
    let mut i: usize = 0;
    while i < ms.len()
        invariant
            i <= ms.len(),
            strs(out@) == missing_upto(ms@, i as int),
        decreases ms.len() - i,
    {
        let reqs = &ms[i].requires;
        let ghost base = strs(out@);
        let mut k: usize = 0;
        while k < reqs.len()
            invariant
                i < ms.len(),
                reqs == &ms@[i as int].requires,
                k <= reqs@.len(),
                strs(out@) == base + missing_in(ms@, ms@[i as int].id@, strs(reqs@).take(k as int)),
            decreases reqs@.len() - k,
        {
            let ghost before = strs(out@);
            assert(strs(reqs@).take(k + 1).drop_last() =~= strs(reqs@).take(k as int));
            assert(strs(reqs@).take(k + 1).last() == reqs@[k as int]@);
            if !is_provided(ms, reqs[k].as_str()) {
                let msg = missing_report(ms[i].id.as_str(), reqs[k].as_str());
                out.push(msg);
                assert(strs(out@) =~= before.push(missing_message(ms@[i as int].id@, reqs@[k as int]@)));
            }
            k = k + 1;
        }
        assert(strs(reqs@).take(reqs@.len() as int) =~= strs(reqs@));
        i = i + 1;
    }
    out
}

// ---------------------------------------------------------------------------
// Dependency graph
// ---------------------------------------------------------------------------

/// Capability `i` must run before capability `j`: `j` requires something
/// `i` provides, `i` declares it runs before `j`, or `j` declares it runs
/// after `i`.
#[verifier::opaque]
pub open spec fn depends_on(ms: Seq<CapabilityManifest>, i: int, j: int) -> bool {
    ||| exists|r: Seq<char>| strs(ms[j].requires@).contains(r) && strs(ms[i].provides@).contains(r)
    ||| strs(ms[i].before@).contains(ms[j].id@)
    ||| strs(ms[j].after@).contains(ms[i].id@)
}

/// `adj[i][j]` tells whether `j` depends on `i`.
pub open spec fn is_dependency_matrix(ms: Seq<CapabilityManifest>, adj: Seq<Vec<bool>>) -> bool {
    &&& adj.len() == ms.len()
    &&& forall|i: int| 0 <= i < ms.len() ==> (#[trigger] adj[i])@.len() == ms.len()
    &&& forall|i: int, j: int| 0 <= i < ms.len() && 0 <= j < ms.len() ==> adj[i]@[j] == depends_on(ms, i, j)
}

fn shares_requirement(needed: &Vec<String>, offered: &Vec<String>) -> (b: bool)
    ensures
        b == exists|r: Seq<char>| strs(needed@).contains(r) && strs(offered@).contains(r),
{
    let mut k: usize = 0;
    while k < needed.len()
        invariant
            k <= needed@.len(),
            forall|a: int| 0 <= a < k ==> !strs(offered@).contains(#[trigger] needed@[a]@),
        decreases needed@.len() - k,
    {
        if strings_contain(offered, needed[k].as_str()) {
            assert(strs(needed@)[k as int] == needed@[k as int]@);
            return true;
        }
        k = k + 1;
    }
    assert forall|r: Seq<char>| !(strs(needed@).contains(r) && strs(offered@).contains(r)) by {
        if strs(needed@).contains(r) {
            let a = choose|a: int| 0 <= a < strs(needed@).len() && strs(needed@)[a] == r;
            assert(needed@[a]@ == r);
        }
    }
    false
}

fn dependency_matrix(ms: &Vec<CapabilityManifest>) -> (adj: Vec<Vec<bool>>)
    ensures
        is_dependency_matrix(ms@, adj@),
{
    let n = ms.len();
    let mut adj: Vec<Vec<bool>> = Vec::new();
    let mut i: usize = 0;
    while i < n
        invariant
            n == ms@.len(),
            i <= n,
            adj@.len() == i,
            forall|a: int| 0 <= a < i ==> (#[trigger] adj@[a])@.len() == n,
            forall|a: int, b: int| 0 <= a < i && 0 <= b < n ==> adj@[a]@[b] == depends_on(ms@, a, b),
        decreases n - i,
    {
        let mut row: Vec<bool> = Vec::new();
        let mut j: usize = 0;
        while j < n
            invariant
                n == ms@.len(),
                i < n,
                j <= n,
                row@.len() == j,
                forall|b: int| 0 <= b < j ==> row@[b] == depends_on(ms@, i as int, b),
            decreases n - j,
        {
            let d = shares_requirement(&ms[j].requires, &ms[i].provides)
                || strings_contain(&ms[i].before, ms[j].id.as_str())
                || strings_contain(&ms[j].after, ms[i].id.as_str());
            proof {
                reveal(depends_on);
            }
            row.push(d);
            j = j + 1;
        }
        adj.push(row);
        i = i + 1;
    }
    adj
}


// ---------------------------------------------------------------------------
// Layering
// ---------------------------------------------------------------------------

/// Every id that appears in some group.
pub open spec fn placed(g: Seq<Seq<Seq<char>>>) -> Set<Seq<char>> {
    Set::new(|v: Seq<char>| exists|k: int| 0 <= k < g.len() && #[trigger] g[k].contains(v))
}

/// Capability `j` has not run yet and all it depends on has.
pub open spec fn ready_in(ms: Seq<CapabilityManifest>, done: Set<Seq<char>>, j: int) -> bool {
    &&& 0 <= j < ms.len()
    &&& !done.contains(ms[j].id@)
    &&& forall|i: int| 0 <= i < ms.len() && depends_on(ms, i, j) ==> done.contains(#[trigger] ms[i].id@)
}

/// `v` is the id of a capability that is ready once `done` has run.
pub open spec fn ready_id(ms: Seq<CapabilityManifest>, done: Set<Seq<char>>, v: Seq<char>) -> bool {
    exists|j: int| ready_in(ms, done, j) && #[trigger] ms[j].id@ == v
}

/// Each group is, in sorted order, exactly the capabilities that are ready
/// once the earlier groups have run.
pub open spec fn layering_prefix(ms: Seq<CapabilityManifest>, g: Seq<Seq<Seq<char>>>) -> bool {
    forall|k: int| 0 <= k < g.len() ==> {
        &&& (#[trigger] g[k]).len() > 0
        &&& sorted_strict(g[k])
        &&& forall|v: Seq<char>| g[k].contains(v) <==> ready_id(ms, placed(g.take(k)), v)
    }
}

/// The groups are the layers of the dependency graph, taken until no
/// capability is ready any more.
pub open spec fn valid_layering(ms: Seq<CapabilityManifest>, g: Seq<Seq<Seq<char>>>) -> bool {
    &&& layering_prefix(ms, g)
    &&& forall|j: int| !ready_in(ms, placed(g), j)
}

/// Every capability is in some group.
pub open spec fn covers_all(ms: Seq<CapabilityManifest>, g: Seq<Seq<Seq<char>>>) -> bool {
    forall|j: int| 0 <= j < ms.len() ==> placed(g).contains(#[trigger] ms[j].id@)
}

/// Some non-empty set of capabilities each depends on another member of
/// the set, so the dependencies go round in a cycle.
pub open spec fn has_cycle(ms: Seq<CapabilityManifest>) -> bool {
    exists|s: Set<int>| #[trigger] closed_under_dependencies(ms, s)
}

/// `s` is non-empty and each member depends on a member of `s`.
pub open spec fn closed_under_dependencies(ms: Seq<CapabilityManifest>, s: Set<int>) -> bool {
    &&& exists|j: int| s.contains(j)
    &&& forall|j: int| #[trigger] s.contains(j) ==> 0 <= j < ms.len() && exists|i: int| s.contains(i) && depends_on(ms, i, j)
}

/// Number of `true` entries.
pub open spec fn count_true(s: Seq<bool>) -> nat
    decreases s.len(),
{
    if s.len() == 0 {
        0
    } else {
        count_true(s.drop_last()) + if s.last() { 1nat } else { 0nat }
    }
}

proof fn lemma_count_bounded(s: Seq<bool>)
    ensures
        count_true(s) <= s.len(),
    decreases s.len(),
{
    if s.len() > 0 {
        lemma_count_bounded(s.drop_last());
    }
}

proof fn lemma_count_grows(a: Seq<bool>, b: Seq<bool>, w: int)
    requires
        a.len() == b.len(),
        forall|j: int| 0 <= j < a.len() && a[j] ==> b[j],
        0 <= w < a.len(),
        !a[w],
        b[w],
    ensures
        count_true(a) < count_true(b),
    decreases a.len(),
{
    if w == a.len() - 1 {
        lemma_count_mono(a.drop_last(), b.drop_last());
    } else {
        lemma_count_grows(a.drop_last(), b.drop_last(), w);
    }
}

proof fn lemma_count_mono(a: Seq<bool>, b: Seq<bool>)
    requires
        a.len() == b.len(),
        forall|j: int| 0 <= j < a.len() && a[j] ==> b[j],
    ensures
        count_true(a) <= count_true(b),
    decreases a.len(),
{
    if a.len() > 0 {
        lemma_count_mono(a.drop_last(), b.drop_last());
    }
}

proof fn lemma_placed_push(g: Seq<Seq<Seq<char>>>, x: Seq<Seq<char>>, v: Seq<char>)
    ensures
        placed(g.push(x)).contains(v) == (placed(g).contains(v) || x.contains(v)),
{
    let h = g.push(x);
    if placed(h).contains(v) {
        let k = choose|k: int| 0 <= k < h.len() && #[trigger] h[k].contains(v);
        if k < g.len() {
            assert(g[k].contains(v));
        }
    }
    if placed(g).contains(v) {
        let k = choose|k: int| 0 <= k < g.len() && #[trigger] g[k].contains(v);
        assert(h[k].contains(v));
    }
    if x.contains(v) {
        assert(h[g.len() as int].contains(v));
    }
}

proof fn lemma_ready_id_unique(ms: Seq<CapabilityManifest>, done: Set<Seq<char>>, j: int)
    requires
        unique_ids(ms),
        0 <= j < ms.len(),
    ensures
        ready_id(ms, done, ms[j].id@) == ready_in(ms, done, j),
{
    if ready_id(ms, done, ms[j].id@) {
        let j2 = choose|j2: int| ready_in(ms, done, j2) && #[trigger] ms[j2].id@ == ms[j].id@;
        if j2 != j {
            if j2 < j { assert(ms[j2].id@ != ms[j].id@); } else { assert(ms[j].id@ != ms[j2].id@); }
        }
    }
}

/// Which capabilities are ready once those marked in `scheduled` have run.
fn ready_flags(ms: &Vec<CapabilityManifest>, adj: &Vec<Vec<bool>>, scheduled: &Vec<bool>, Ghost(done): Ghost<Set<Seq<char>>>) -> (r: (Vec<bool>, bool))
    requires
        is_dependency_matrix(ms@, adj@),
        scheduled@.len() == ms@.len(),
        forall|a: int| 0 <= a < ms@.len() ==> (scheduled@[a] <==> done.contains(#[trigger] ms@[a].id@)),
    ensures
        r.0@.len() == ms@.len(),
        forall|a: int| 0 <= a < ms@.len() ==> (r.0@[a] <==> ready_in(ms@, done, a)),
        r.1 <==> exists|a: int| 0 <= a < ms@.len() && r.0@[a],
{
    let n = ms.len();
    let mut ready: Vec<bool> = Vec::new();
    let mut any = false;
    let mut j: usize = 0;
    while j < n
        invariant
            n == ms@.len(),
            is_dependency_matrix(ms@, adj@),
            scheduled@.len() == n,
            forall|a: int| 0 <= a < n ==> (scheduled@[a] <==> done.contains(#[trigger] ms@[a].id@)),
            j <= n,
            ready@.len() == j,
            forall|a: int| 0 <= a < j ==> (ready@[a] <==> ready_in(ms@, done, a)),
            any <==> exists|a: int| 0 <= a < j && ready@[a],
        decreases n - j,
    {
        let mut ok = !scheduled[j];
        let mut i: usize = 0;
        while i < n && ok
            invariant
                n == ms@.len(),
                is_dependency_matrix(ms@, adj@),
                scheduled@.len() == n,
                j < n,
                i <= n,
                ok ==> forall|a: int| 0 <= a < i && adj@[a]@[j as int] ==> scheduled@[a],
                ok ==> !scheduled@[j as int],
                !ok ==> !scheduled@[j as int] ==> exists|a: int| 0 <= a < n && adj@[a]@[j as int] && !scheduled@[a],
            decreases n - i,
        {
            if adj[i][j] && !scheduled[i] {
                ok = false;
            }
            i = i + 1;
        }
        proof {
            if ok {
                assert forall|a: int| 0 <= a < n && depends_on(ms@, a, j as int) implies done.contains(#[trigger] ms@[a].id@) by {
                    assert(adj@[a]@[j as int]);
                }
            } else if !scheduled@[j as int] {
                let a = choose|a: int| 0 <= a < n && adj@[a]@[j as int] && !scheduled@[a];
                assert(depends_on(ms@, a, j as int));
                assert(!done.contains(ms@[a].id@));
            }
        }
        let ghost prev = ready@;
        ready.push(ok);
        if ok {
            any = true;
        }
        proof {
            assert(ready@[j as int] == ok);
            assert forall|a: int| 0 <= a < j implies ready@[a] == prev[a] by {}
            if ok {
                assert(ready@[j as int]);
            } else {
                assert((exists|a: int| 0 <= a < j + 1 && ready@[a]) ==> (exists|a: int| 0 <= a < j && prev[a])) by {
                    if exists|a: int| 0 <= a < j + 1 && ready@[a] {
                        let a = choose|a: int| 0 <= a < j + 1 && ready@[a];
                        assert(a < j);
                        assert(prev[a]);
                    }
                }
                assert((exists|a: int| 0 <= a < j && prev[a]) ==> (exists|a: int| 0 <= a < j + 1 && ready@[a])) by {
                    if exists|a: int| 0 <= a < j && prev[a] {
                        let a = choose|a: int| 0 <= a < j && prev[a];
                        assert(ready@[a]);
                    }
                }
            }
        }
        j = j + 1;
    }
    assert((exists|a: int| 0 <= a < ms@.len() && ready@[a]) == (exists|a: int| 0 <= a < j && ready@[a]));
    (ready, any)
}

/// The ids of the flagged capabilities, sorted.
fn sorted_group(ms: &Vec<CapabilityManifest>, ready: &Vec<bool>) -> (group: Vec<String>)
    requires
        unique_ids(ms@),
        ready@.len() == ms@.len(),
    ensures
        sorted_strict(strs(group@)),
        forall|v: Seq<char>| #[trigger] strs(group@).contains(v) <==> exists|a: int| 0 <= a < ms@.len() && ready@[a] && ms@[a].id@ == v,
{
    let n = ms.len();
    let mut group: Vec<String> = Vec::new();
    let mut j: usize = 0;
    while j < n
        invariant
            n == ms@.len(),
            unique_ids(ms@),
            ready@.len() == n,
            j <= n,
            sorted_strict(strs(group@)),
            forall|v: Seq<char>| #[trigger] strs(group@).contains(v) <==> exists|a: int| 0 <= a < j && ready@[a] && ms@[a].id@ == v,
        decreases n - j,
    {
        if ready[j] {
            proof {
                if strs(group@).contains(ms@[j as int].id@) {
                    let a = choose|a: int| 0 <= a < j && ready@[a] && ms@[a].id@ == ms@[j as int].id@;
                    assert(ms@[a].id@ != ms@[j as int].id@);
                }
            }
            insert_sorted(&mut group, ms[j].id.clone());
            proof {
                assert forall|v: Seq<char>| #[trigger] strs(group@).contains(v) <==> exists|a: int| 0 <= a < j + 1 && ready@[a] && ms@[a].id@ == v by {
                    if v == ms@[j as int].id@ {
                        assert(ready@[j as int]);
                    }
                    if exists|a: int| 0 <= a < j + 1 && ready@[a] && ms@[a].id@ == v {
                        let a = choose|a: int| 0 <= a < j + 1 && ready@[a] && ms@[a].id@ == v;
                        if a < j {
                        }
                    }
                }
            }
        } else {
            proof {
                assert forall|v: Seq<char>| #[trigger] strs(group@).contains(v) <==> exists|a: int| 0 <= a < j + 1 && ready@[a] && ms@[a].id@ == v by {
                    if exists|a: int| 0 <= a < j + 1 && ready@[a] && ms@[a].id@ == v {
                        let a = choose|a: int| 0 <= a < j + 1 && ready@[a] && ms@[a].id@ == v;
                        assert(a < j);
                    }
                }
            }
        }
        j = j + 1;
    }
    group
}

/// Marks the flagged capabilities as scheduled.
fn mark_scheduled(scheduled: &Vec<bool>, ready: &Vec<bool>) -> (r: Vec<bool>)
    requires
        ready@.len() == scheduled@.len(),
    ensures
        r@.len() == scheduled@.len(),
        forall|a: int| 0 <= a < ready@.len() ==> #[trigger] r@[a] == (scheduled@[a] || ready@[a]),
{
    let n = ready.len();
    let mut r: Vec<bool> = Vec::new();
    let mut j: usize = 0;
    while j < n
        invariant
            n == ready@.len(),
            scheduled@.len() == n,
            j <= n,
            r@.len() == j,
            forall|a: int| 0 <= a < j ==> #[trigger] r@[a] == (scheduled@[a] || ready@[a]),
        decreases n - j,
    {
        r.push(scheduled[j] || ready[j]);
        j = j + 1;
    }
    r
}

/// Appending the group of ready capabilities keeps the layering invariants.
proof fn lemma_push_layer(
    ms: Seq<CapabilityManifest>,
    g: Seq<Seq<Seq<char>>>,
    x: Seq<Seq<char>>,
    ready: Seq<bool>,
    sched_before: Seq<bool>,
    sched_after: Seq<bool>,
)
    requires
        unique_ids(ms),
        ready.len() == ms.len(),
        sched_before.len() == ms.len(),
        sched_after.len() == ms.len(),
        forall|a: int| 0 <= a < ms.len() ==> (sched_before[a] <==> placed(g).contains(#[trigger] ms[a].id@)),
        forall|a: int| 0 <= a < ms.len() ==> (ready[a] <==> ready_in(ms, placed(g), a)),
        forall|a: int| 0 <= a < ms.len() ==> sched_after[a] == (sched_before[a] || ready[a]),
        exists|a: int| 0 <= a < ms.len() && ready[a],
        forall|v: Seq<char>| placed(g).contains(v) ==> known_id(ms, v),
        layering_prefix(ms, g),
        sorted_strict(x),
        forall|v: Seq<char>| #[trigger] x.contains(v) <==> exists|a: int| 0 <= a < ms.len() && ready[a] && ms[a].id@ == v,
    ensures
        layering_prefix(ms, g.push(x)),
        forall|a: int| 0 <= a < ms.len() ==> (sched_after[a] <==> placed(g.push(x)).contains(#[trigger] ms[a].id@)),
        forall|v: Seq<char>| placed(g.push(x)).contains(v) ==> known_id(ms, v),
{
    let n = ms.len();
    let done = placed(g);
    let g2 = g.push(x);
    let w = choose|a: int| 0 <= a < ms.len() && ready[a];
    assert(g2.take(g.len() as int) =~= g);
    assert forall|v: Seq<char>| #[trigger] x.contains(v) <==> ready_id(ms, done, v) by {
        if x.contains(v) {
            let a = choose|a: int| 0 <= a < n && ready[a] && ms[a].id@ == v;
            assert(ready_in(ms, done, a));
        }
        if ready_id(ms, done, v) {
            let a = choose|a: int| ready_in(ms, done, a) && #[trigger] ms[a].id@ == v;
            assert(ready[a]);
        }
    }
    assert(x.contains(ms[w].id@));
    assert(x.len() > 0);
    assert forall|k: int| 0 <= k < g2.len() implies {
        &&& (#[trigger] g2[k]).len() > 0
        &&& sorted_strict(g2[k])
        &&& forall|v: Seq<char>| g2[k].contains(v) <==> ready_id(ms, placed(g2.take(k)), v)
    } by {
        if k < g.len() {
            assert(g2.take(k) =~= g.take(k));
            assert(g2[k] == g[k]);
        }
    }
    assert forall|a: int| 0 <= a < n implies (sched_after[a] <==> placed(g2).contains(#[trigger] ms[a].id@)) by {
        lemma_placed_push(g, x, ms[a].id@);
        if x.contains(ms[a].id@) {
            let b = choose|b: int| 0 <= b < n && ready[b] && ms[b].id@ == ms[a].id@;
            if b != a {
                if b < a { assert(ms[b].id@ != ms[a].id@); } else { assert(ms[a].id@ != ms[b].id@); }
            }
        }
        if ready[a] {
            assert(x.contains(ms[a].id@));
        }
    }
    assert forall|v: Seq<char>| placed(g2).contains(v) implies known_id(ms, v) by {
        lemma_placed_push(g, x, v);
        if x.contains(v) {
            let a = choose|a: int| 0 <= a < n && ready[a] && ms[a].id@ == v;
        }
    }
}

/// Capabilities that never became ready witness a cycle.
proof fn lemma_unplaced_cycle(ms: Seq<CapabilityManifest>, g: Seq<Seq<Seq<char>>>, scheduled: Seq<bool>, w: int)
    requires
        scheduled.len() == ms.len(),
        forall|a: int| 0 <= a < ms.len() ==> (scheduled[a] <==> placed(g).contains(#[trigger] ms[a].id@)),
        forall|j: int| !ready_in(ms, placed(g), j),
        0 <= w < ms.len(),
        !scheduled[w],
    ensures
        has_cycle(ms),
{
    let n = ms.len();
    let done = placed(g);
    let s = Set::new(|a: int| 0 <= a < n && !scheduled[a]);
    assert(s.contains(w));
    assert forall|a: int| #[trigger] s.contains(a) implies 0 <= a < n && exists|i: int| s.contains(i) && depends_on(ms, i, a) by {
        assert(!ready_in(ms, done, a));
        assert(!done.contains(ms[a].id@));
        let i = choose|i: int| 0 <= i < n && depends_on(ms, i, a) && !done.contains(#[trigger] ms[i].id@);
        assert(!scheduled[i]);
        assert(s.contains(i));
    }
    assert(closed_under_dependencies(ms, s));
}

/// After the last layer, either every capability is placed or the unplaced
/// ones witness a cycle.
proof fn lemma_completeness(ms: Seq<CapabilityManifest>, g: Seq<Seq<Seq<char>>>, scheduled: Seq<bool>, complete: bool)
    requires
        scheduled.len() == ms.len(),
        forall|a: int| 0 <= a < ms.len() ==> (scheduled[a] <==> placed(g).contains(#[trigger] ms[a].id@)),
        forall|j: int| !ready_in(ms, placed(g), j),
        complete <==> forall|a: int| 0 <= a < ms.len() ==> scheduled[a],
    ensures
        complete == covers_all(ms, g),
        !complete ==> has_cycle(ms),
{
    let n = ms.len();
    if !complete {
        let w = choose|a: int| 0 <= a < n && !scheduled[a];
        lemma_unplaced_cycle(ms, g, scheduled, w);
        assert(!placed(g).contains(ms[w].id@));
    } else {
        assert forall|a: int| 0 <= a < n implies placed(g).contains(#[trigger] ms[a].id@) by {
            assert(scheduled[a]);
        }
    }
}

/// Computes the layers of the dependency graph given by `adj`.
fn layer(ms: &Vec<CapabilityManifest>, adj: &Vec<Vec<bool>>) -> (r: (Vec<Vec<String>>, bool))
    requires
        unique_ids(ms@),
        is_dependency_matrix(ms@, adj@),
    ensures
        valid_layering(ms@, group_strs(r.0@)),
        r.1 == covers_all(ms@, group_strs(r.0@)),
        !r.1 ==> has_cycle(ms@),
        forall|v: Seq<char>| placed(group_strs(r.0@)).contains(v) ==> known_id(ms@, v),
{
    let n = ms.len();
    let mut scheduled: Vec<bool> = Vec::new();
    let mut j: usize = 0;
    while j < n
        invariant
            j <= n,
            scheduled@.len() == j,
            forall|a: int| 0 <= a < j ==> !scheduled@[a],
        decreases n - j,
    {
        scheduled.push(false);
        j = j + 1;
    }
    let mut groups: Vec<Vec<String>> = Vec::new();
    proof {
        assert forall|v: Seq<char>| !placed(group_strs(groups@)).contains(v) by {}
    }
    loop
        invariant
            n == ms@.len(),
            unique_ids(ms@),
            is_dependency_matrix(ms@, adj@),
            scheduled@.len() == n,
            forall|a: int| 0 <= a < n ==> (scheduled@[a] <==> placed(group_strs(groups@)).contains(#[trigger] ms@[a].id@)),
            forall|v: Seq<char>| placed(group_strs(groups@)).contains(v) ==> known_id(ms@, v),
            layering_prefix(ms@, group_strs(groups@)),
        ensures
            scheduled@.len() == n,
            forall|a: int| 0 <= a < n ==> (scheduled@[a] <==> placed(group_strs(groups@)).contains(#[trigger] ms@[a].id@)),
            forall|v: Seq<char>| placed(group_strs(groups@)).contains(v) ==> known_id(ms@, v),
            valid_layering(ms@, group_strs(groups@)),
        decreases n - count_true(scheduled@),
    {
        let ghost g = group_strs(groups@);
        let ghost done = placed(g);
        let (ready, any) = ready_flags(ms, adj, &scheduled, Ghost(done));
        if !any {
            proof {
                assert forall|a: int| !ready_in(ms@, done, a) by {
                    if 0 <= a < n {
                        assert(!ready@[a]);
                    }
                }
            }
            break;
        }
        let group = sorted_group(ms, &ready);
        let ghost before = scheduled@;
        scheduled = mark_scheduled(&scheduled, &ready);
        proof {
            let w = choose|a: int| 0 <= a < n && ready@[a];
            lemma_count_grows(before, scheduled@, w);
            lemma_count_bounded(scheduled@);
            lemma_push_layer(ms@, g, strs(group@), ready@, before, scheduled@);
        }
        groups.push(group);
        proof {
            assert(group_strs(groups@) =~= g.push(strs(group@)));
        }
    }
    // Whether every capability was placed.
    let mut complete = true;
    let mut j: usize = 0;
    while j < n
        invariant
            n == ms@.len(),
            scheduled@.len() == n,
            j <= n,
            complete <==> forall|a: int| 0 <= a < j ==> scheduled@[a],
        decreases n - j,
    {
        if !scheduled[j] {
            complete = false;
        }
        j = j + 1;
    }
    proof {
        lemma_completeness(ms@, group_strs(groups@), scheduled@, complete);
    }
    (groups, complete)
}


// ---------------------------------------------------------------------------
// Planning
// ---------------------------------------------------------------------------

/// Builds execution plans from capability manifests.
pub struct ExecutionPlanner;

/// What a successful plan holds for the manifests `ms`.
pub open spec fn plan_matches(ms: Seq<CapabilityManifest>, plan: ExecutionPlan) -> bool {
    let g = group_strs(plan.parallel_groups@);
    &&& manifests_valid(ms)
    &&& plan.capabilities@ == ms
    &&& if missing_dependencies(ms).len() > 0 {
        &&& strs(plan.missing_dependencies@) == missing_dependencies(ms)
        &&& plan.execution_order@.len() == 0
        &&& plan.parallel_groups@.len() == 0
    } else {
        &&& plan.missing_dependencies@.len() == 0
        &&& valid_layering(ms, g)
        &&& covers_all(ms, g)
        &&& strs(plan.execution_order@) == flatten_groups(g)
    }
}

/// The manifests can be planned: they are valid and, unless a requirement
/// goes unprovided, their dependencies have no cycle.
pub open spec fn plannable(ms: Seq<CapabilityManifest>) -> bool {
    &&& manifests_valid(ms)
    &&& (missing_dependencies(ms).len() > 0 || !has_cycle(ms))
}

proof fn lemma_error_not_plannable(ms: Seq<CapabilityManifest>, e: PlanError)
    requires
        plan_error_matches(ms, e),
    ensures
        !plannable(ms),
{
    match e {
        PlanError::DuplicateCapability { .. } => {
            let j = choose|j: int| #![trigger ms[j]] duplicate_at(ms, j) && (forall|j2: int| 0 <= j2 < j ==> !duplicate_at(ms, j2));
            let i = choose|i: int| 0 <= i < j && ms[i].id@ == #[trigger] ms[j].id@;
            assert(!unique_ids(ms));
        },
        PlanError::InvalidPermission { .. } => {
            let (i, k) = choose|i: int, k: int| #![trigger ms[i], bad_permission_at(ms[i], k)]
                0 <= i < ms.len() && bad_permission_at(ms[i], k);
            assert(has_bad_permission(ms[i]));
        },
        PlanError::UnknownBefore { .. } => {
            let (i, k) = choose|i: int, k: int| #![trigger ms[i], unknown_before_at(ms, ms[i], k)]
                0 <= i < ms.len() && unknown_before_at(ms, ms[i], k);
            assert(has_unknown_before(ms, ms[i]));
        },
        PlanError::UnknownAfter { .. } => {
            let (i, k) = choose|i: int, k: int| #![trigger ms[i], unknown_after_at(ms, ms[i], k)]
                0 <= i < ms.len() && unknown_after_at(ms, ms[i], k);
            assert(has_unknown_after(ms, ms[i]));
        },
        PlanError::CyclicGraph => {},
    }
}

proof fn lemma_plan_plannable(ms: Seq<CapabilityManifest>, plan: ExecutionPlan)
    requires
        plan_matches(ms, plan),
    ensures
        plannable(ms),
{
    if missing_dependencies(ms).len() == 0 {
        lemma_complete_layering_is_acyclic(ms, group_strs(plan.parallel_groups@));
    }
}

impl ExecutionPlanner {
    /// Validates the manifests and layers their dependency graph.
    ///
    /// The checks run in this order: duplicate ids, permissions outside the
    /// allowed list, `before`/`after` targets that name no capability. Then
    /// requirements that nothing provides are reported in the plan, with no
    /// order; otherwise the capabilities are grouped into layers (each
    /// group sorted) and a graph that cannot be layered is refused as cyclic.
    pub fn build_plan(manifests: Vec<CapabilityManifest>) -> (r: Result<ExecutionPlan, PlanError>)
        ensures
            match r {
                Ok(plan) => plan_matches(manifests@, plan),
                Err(e) => plan_error_matches(manifests@, e),
            },
            r is Ok <==> plannable(manifests@),
    {
        let ghost ms = manifests@;
        let r = Self::plan_of(manifests);
        proof {
            if r is Ok {
                lemma_plan_plannable(ms, r->Ok_0);
            } else {
                lemma_error_not_plannable(ms, r->Err_0);
            }
        }
        r
    }

    fn plan_of(manifests: Vec<CapabilityManifest>) -> (r: Result<ExecutionPlan, PlanError>)
        ensures
            match r {
                Ok(plan) => plan_matches(manifests@, plan),
                Err(e) => plan_error_matches(manifests@, e),
            },
    {
        match check_manifests(&manifests) {
            Err(e) => {
                return Err(e);
            },
            Ok(_) => {},
        }
        let missing = collect_missing(&manifests);
        if missing.len() > 0 {
            let mut plan = ExecutionPlan::empty();
            plan.missing_dependencies = missing;
            plan.capabilities = manifests;
            return Ok(plan);
        }
        let adj = dependency_matrix(&manifests);
        let (groups, complete) = layer(&manifests, &adj);
        if !complete {
            return Err(PlanError::CyclicGraph);
        }
        let order = flatten_group_ids(&groups);
        Ok(ExecutionPlan {
            capabilities: manifests,
            execution_order: order,
            missing_dependencies: Vec::new(),
            parallel_groups: groups,
        })
    }
}

// ---------------------------------------------------------------------------
// Laws of planning
// ---------------------------------------------------------------------------

proof fn lemma_least_group(g: Seq<Seq<Seq<char>>>, p: spec_fn(int) -> bool, k0: int) -> (k: int)
    requires
        0 <= k0 < g.len(),
        p(k0),
    ensures
        0 <= k <= k0,
        p(k),
        forall|k2: int| 0 <= k2 < k ==> !#[trigger] p(k2),
    decreases k0,
{
    if exists|k2: int| 0 <= k2 < k0 && #[trigger] p(k2) {
        let k2 = choose|k2: int| 0 <= k2 < k0 && #[trigger] p(k2);
        lemma_least_group(g, p, k2)
    } else {
        k0
    }
}

proof fn lemma_placed_take(g: Seq<Seq<Seq<char>>>, k: int, v: Seq<char>)
    requires
        0 <= k <= g.len(),
        placed(g.take(k)).contains(v),
    ensures
        exists|k2: int| 0 <= k2 < k && #[trigger] g[k2].contains(v),
{
    let t = g.take(k);
    let k2 = choose|k2: int| 0 <= k2 < t.len() && #[trigger] t[k2].contains(v);
    assert(g[k2].contains(v));
}

/// A capability in layer `k` has each capability it depends on in an
/// earlier layer: dependencies run before their dependents.
pub proof fn lemma_dependencies_run_first(ms: Seq<CapabilityManifest>, g: Seq<Seq<Seq<char>>>, i: int, j: int, k: int)
    requires
        unique_ids(ms),
        valid_layering(ms, g),
        0 <= i < ms.len(),
        0 <= j < ms.len(),
        depends_on(ms, i, j),
        0 <= k < g.len(),
        g[k].contains(ms[j].id@),
    ensures
        exists|k2: int| 0 <= k2 < k && #[trigger] g[k2].contains(ms[i].id@),
{
    assert(ready_id(ms, placed(g.take(k)), ms[j].id@));
    lemma_ready_id_unique(ms, placed(g.take(k)), j);
    assert(placed(g.take(k)).contains(ms[i].id@));
    lemma_placed_take(g, k, ms[i].id@);
}

/// A layering that places every capability leaves no cycle of
/// dependencies: the planner refuses exactly the cyclic graphs.
pub proof fn lemma_complete_layering_is_acyclic(ms: Seq<CapabilityManifest>, g: Seq<Seq<Seq<char>>>)
    requires
        unique_ids(ms),
        valid_layering(ms, g),
        covers_all(ms, g),
    ensures
        !has_cycle(ms),
{
    if has_cycle(ms) {
        let s = choose|s: Set<int>| #[trigger] closed_under_dependencies(ms, s);
        let j0 = choose|j: int| s.contains(j);
        assert(placed(g).contains(ms[j0].id@));
        let k0 = choose|k: int| 0 <= k < g.len() && #[trigger] g[k].contains(ms[j0].id@);
        let p = |k: int| exists|j: int| s.contains(j) && #[trigger] g[k].contains(ms[j].id@);
        assert(p(k0));
        let k = lemma_least_group(g, p, k0);
        let j = choose|j: int| s.contains(j) && #[trigger] g[k].contains(ms[j].id@);
        let i = choose|i: int| s.contains(i) && depends_on(ms, i, j);
        lemma_dependencies_run_first(ms, g, i, j, k);
        let k2 = choose|k2: int| 0 <= k2 < k && #[trigger] g[k2].contains(ms[i].id@);
        assert(p(k2));
    }
}

/// Read off the manifests: when a plan orders the capabilities, capability
/// `i` runs in a strictly earlier group than capability `j` whenever `i`
/// declares it runs before `j`, `j` declares it runs after `i`, or `j`
/// requires something `i` provides.
pub proof fn lemma_declared_order_respected(ms: Seq<CapabilityManifest>, plan: ExecutionPlan, i: int, j: int)
    requires
        plan_matches(ms, plan),
        missing_dependencies(ms).len() == 0,
        0 <= i < ms.len(),
        0 <= j < ms.len(),
        strs(ms[i].before@).contains(ms[j].id@) || strs(ms[j].after@).contains(ms[i].id@) || exists|r: Seq<char>|
            strs(ms[j].requires@).contains(r) && strs(ms[i].provides@).contains(r),
    ensures
        exists|ki: int, kj: int|
            0 <= ki < kj < plan.parallel_groups@.len() && #[trigger] group_strs(plan.parallel_groups@)[ki].contains(
                ms[i].id@,
            ) && #[trigger] group_strs(plan.parallel_groups@)[kj].contains(ms[j].id@),
{
    let g = group_strs(plan.parallel_groups@);
    assert(depends_on(ms, i, j)) by {
        reveal(depends_on);
    }
    assert(placed(g).contains(ms[j].id@));
    let kj = choose|k: int| 0 <= k < g.len() && #[trigger] g[k].contains(ms[j].id@);
    lemma_dependencies_run_first(ms, g, i, j, kj);
    let ki = choose|k2: int| 0 <= k2 < kj && #[trigger] g[k2].contains(ms[i].id@);
    assert(g[ki].contains(ms[i].id@) && g[kj].contains(ms[j].id@));
}

} // verus!
