//! Fixed-window rate limiting, globally and per API key.

use vstd::prelude::*;
use dashmap::DashMap;

verus! {

#[verifier::external_type_specification]
#[verifier::external_body]
#[verifier::reject_recursive_types(K)]
#[verifier::reject_recursive_types(V)]
#[verifier::reject_recursive_types(S)]
pub struct ExDashMap<K, V, S>(DashMap<K, V, S>);

/// A table of request counters: id to (window start, count).
pub type WindowTable = DashMap<String, (u64, u64)>;

/// The windows a counter table holds: for each id, the start of its window
/// (nanoseconds on the limiter's clock) and the requests counted in it.
pub uninterp spec fn window_table(m: WindowTable) -> Map<Seq<char>, (u64, u64)>;

/// The table with no windows.
pub open spec fn no_windows() -> Map<Seq<char>, (u64, u64)> {
    Map::empty()
}

/// Calls `DashMap::new`: an empty table.
#[verifier::external_body]
fn new_table() -> (m: WindowTable)
    ensures
        window_table(m) == no_windows(),
{
    DashMap::new()
}

/// Calls `DashMap::get` and copies the value out of the guard: the window
/// of `id`, if the table has one.
#[verifier::external_body]
fn window_of(m: &WindowTable, id: &str) -> (r: Option<(u64, u64)>)
    ensures
        r == if window_table(*m).contains_key(id@) { Some(window_table(*m)[id@]) } else { None },
{
    m.get(id).map(|w| *w)
}

/// Calls `DashMap::insert`: the window of `id` becomes `w`.
#[verifier::external_body]
fn set_window(m: &mut WindowTable, id: String, w: (u64, u64))
    ensures
        window_table(*final(m)) == window_table(*old(m)).insert(id@, w),
{
    m.insert(id, w);
}

/// The length of a window: one minute, in nanoseconds.
pub const WINDOW_NANOS: u64 = 60_000_000_000;

/// One request against a window with limit `limit`: the window restarts
/// once a minute has passed since its start; the request passes while
/// fewer than `limit` were counted, and is then counted.
pub open spec fn window_step(w: Option<(u64, u64)>, now: u64, limit: u64) -> ((u64, u64), bool) {
    let (start, count) = match w {
        Some(x) => x,
        None => (now, 0u64),
    };
    let elapsed = if now >= start { now - start } else { 0 };
    let (start, count) = if elapsed >= WINDOW_NANOS { (now, 0u64) } else { (start, count) };
    if count >= limit {
        ((start, count), false)
    } else {
        ((start, (count + 1) as u64), true)
    }
}

/// The table after a request for `id`, and whether it passed; a limit of
/// zero lets everything pass and counts nothing.
pub open spec fn bump_spec(table: Map<Seq<char>, (u64, u64)>, id: Seq<char>, limit: u64, now: u64) -> (Map<Seq<char>, (u64, u64)>, bool) {
    if limit == 0 {
        (table, true)
    } else {
        let w = if table.contains_key(id) { Some(table[id]) } else { None };
        let (nw, ok) = window_step(w, now, limit);
        (table.insert(id, nw), ok)
    }
}

/// The windows after a request with `key` at `now`, and whether it passed:
/// it must pass the global limit and then, when it carries a key, the limit
/// of that key; a request refused globally leaves the key windows alone.
pub open spec fn check_spec(
    global: Map<Seq<char>, (u64, u64)>,
    keys: Map<Seq<char>, (u64, u64)>,
    limits: (u64, u64),
    key: Option<Seq<char>>,
    now: u64,
) -> (Map<Seq<char>, (u64, u64)>, Map<Seq<char>, (u64, u64)>, bool) {
    let (g, gok) = bump_spec(global, "global"@, limits.0, now);
    if !gok {
        (g, keys, false)
    } else {
        match key {
            Some(k) => {
                let (t, kok) = bump_spec(keys, k, limits.1, now);
                (g, t, kok)
            },
            None => (g, keys, true),
        }
    }
}

/// Counts requests per minute, globally and per key.
pub struct RateLimiter {
    global_per_minute: u64,
    per_key_per_minute: u64,
    global: WindowTable,
    per_key: WindowTable,
}

fn bump(map: &mut WindowTable, id: &str, limit: u64, now: u64) -> (ok: bool)
    ensures
        (window_table(*final(map)), ok) == bump_spec(window_table(*old(map)), id@, limit, now),
{
    if limit == 0 {
        return true;
    }
    let (mut start, mut count) = match window_of(map, id) {
        Some(w) => w,
        None => (now, 0),
    };
    let elapsed = if now >= start { now - start } else { 0 };
    if elapsed >= WINDOW_NANOS {
        start = now;
        count = 0;
    }
    if count >= limit {
        set_window(map, String::from_str(id), (start, count));
        return false;
    }
    set_window(map, String::from_str(id), (start, count + 1));
    true
}

impl RateLimiter {
    /// The per-minute limits; 0 disables a limit.
    pub closed spec fn limits(&self) -> (u64, u64) {
        (self.global_per_minute, self.per_key_per_minute)
    }

    /// The global window, under the id `global`.
    pub closed spec fn global_windows(&self) -> Map<Seq<char>, (u64, u64)> {
        window_table(self.global)
    }

    /// The window of each key.
    pub closed spec fn key_windows(&self) -> Map<Seq<char>, (u64, u64)> {
        window_table(self.per_key)
    }

    pub fn new(global_per_minute: u64, per_key_per_minute: u64) -> (r: Self)
        ensures
            r.limits() == (global_per_minute, per_key_per_minute),
            r.global_windows() == no_windows(),
            r.key_windows() == no_windows(),
    {
        RateLimiter { global_per_minute, per_key_per_minute, global: new_table(), per_key: new_table() }
    }

    /// Admits a request at time `now` (nanoseconds on the limiter's
    /// monotonic clock): it must pass the global limit and then, when it
    /// carries a key, the limit of that key.
    pub fn check(&mut self, key: Option<&str>, now: u64) -> (ok: bool)
        ensures
            final(self).limits() == old(self).limits(),
            (final(self).global_windows(), final(self).key_windows(), ok) == check_spec(
                old(self).global_windows(),
                old(self).key_windows(),
                old(self).limits(),
                match key {
                    Some(k) => Some(k@),
                    None => None,
                },
                now,
            ),
    {
        let global_ok = bump(&mut self.global, "global", self.global_per_minute, now);
        if !global_ok {
            return false;
        }
        match key {
            Some(k) => bump(&mut self.per_key, k, self.per_key_per_minute, now),
            None => true,
        }
    }
}

/// Every window of a limited table counts at most `limit` requests: a
/// request never pushes a count past the limit.
pub proof fn lemma_counts_stay_within_limit(table: Map<Seq<char>, (u64, u64)>, id: Seq<char>, limit: u64, now: u64)
    requires
        forall|k: Seq<char>| #[trigger] table.contains_key(k) ==> table[k].1 <= limit,
    ensures
        forall|k: Seq<char>| #[trigger] bump_spec(table, id, limit, now).0.contains_key(k)
            ==> bump_spec(table, id, limit, now).0[k].1 <= limit,
{
}

/// A request for one id leaves the windows of every other id as they were.
pub proof fn lemma_other_ids_untouched(table: Map<Seq<char>, (u64, u64)>, id: Seq<char>, other: Seq<char>, limit: u64, now: u64)
    requires
        other != id,
    ensures
        bump_spec(table, id, limit, now).0.contains_key(other) == table.contains_key(other),
        table.contains_key(other) ==> bump_spec(table, id, limit, now).0[other] == table[other],
{
}

/// Once a window has counted `limit` requests, every further request in the
/// same minute is refused and changes nothing.
pub proof fn lemma_full_window_refuses(table: Map<Seq<char>, (u64, u64)>, id: Seq<char>, limit: u64, now: u64)
    requires
        limit > 0,
        table.contains_key(id),
        table[id].1 >= limit,
        table[id].0 <= now < table[id].0 + WINDOW_NANOS,
    ensures
        bump_spec(table, id, limit, now) == (table, false),
{
    assert(table.insert(id, table[id]) =~= table);
}

/// A new window lets its first request through.
pub proof fn lemma_first_request_passes(table: Map<Seq<char>, (u64, u64)>, id: Seq<char>, limit: u64, now: u64)
    requires
        !table.contains_key(id),
    ensures
        bump_spec(table, id, limit, now).1,
{
}

/// The windows and the answers after the requests `calls`, each a key and
/// a time, made in order.
pub open spec fn run_checks(
    global: Map<Seq<char>, (u64, u64)>,
    keys: Map<Seq<char>, (u64, u64)>,
    limits: (u64, u64),
    calls: Seq<(Option<Seq<char>>, u64)>,
) -> (Map<Seq<char>, (u64, u64)>, Map<Seq<char>, (u64, u64)>, Seq<bool>)
    decreases calls.len(),
{
    if calls.len() == 0 {
        (global, keys, seq![])
    } else {
        let (g, k, oks) = run_checks(global, keys, limits, calls.drop_last());
        let (g2, k2, ok) = check_spec(g, k, limits, calls.last().0, calls.last().1);
        (g2, k2, oks.push(ok))
    }
}

/// How many of the answers admitted their request.
pub open spec fn admitted(oks: Seq<bool>) -> nat
    decreases oks.len(),
{
    if oks.len() == 0 {
        0
    } else {
        admitted(oks.drop_last()) + if oks.last() { 1nat } else { 0nat }
    }
}

/// How many requests carrying `key` were admitted.
pub open spec fn admitted_for(calls: Seq<(Option<Seq<char>>, u64)>, oks: Seq<bool>, key: Seq<char>) -> nat
    decreases oks.len(),
{
    if oks.len() == 0 || calls.len() == 0 {
        0
    } else {
        admitted_for(calls.drop_last(), oks.drop_last(), key)
            + if oks.last() && calls.last().0 == Some(key) { 1nat } else { 0nat }
    }
}

/// Every request of `calls` falls within the minute that starts at `t`.
pub open spec fn within_minute(calls: Seq<(Option<Seq<char>>, u64)>, t: u64) -> bool {
    forall|i: int| 0 <= i < calls.len() ==> t <= (#[trigger] calls[i]).1 && calls[i].1 < t + WINDOW_NANOS
}

proof fn lemma_run_len(global: Map<Seq<char>, (u64, u64)>, keys: Map<Seq<char>, (u64, u64)>, limits: (u64, u64), calls: Seq<(Option<Seq<char>>, u64)>)
    ensures
        run_checks(global, keys, limits, calls).2.len() == calls.len(),
    decreases calls.len(),
{
    if calls.len() > 0 {
        lemma_run_len(global, keys, limits, calls.drop_last());
    }
}

/// The global window of a fresh limiter, after requests within one minute:
/// it opened within that minute and has counted at least every admitted
/// request, and never more than the limit.
proof fn lemma_global_window(limits: (u64, u64), calls: Seq<(Option<Seq<char>>, u64)>, t: u64)
    requires
        limits.0 > 0,
        within_minute(calls, t),
    ensures
        ({
            let (g, k, oks) = run_checks(no_windows(), no_windows(), limits, calls);
            if calls.len() == 0 {
                admitted(oks) == 0 && !g.contains_key("global"@)
            } else {
                &&& g.contains_key("global"@)
                &&& t <= g["global"@].0 < t + WINDOW_NANOS
                &&& admitted(oks) <= g["global"@].1 <= limits.0
            }
        }),
    decreases calls.len(),
{
    if calls.len() > 0 {
        let prev = calls.drop_last();
        assert(within_minute(prev, t)) by {
            assert forall|i: int| 0 <= i < prev.len() implies t <= (#[trigger] prev[i]).1 && prev[i].1 < t + WINDOW_NANOS by {
                assert(prev[i] == calls[i]);
            }
        }
        lemma_global_window(limits, prev, t);
        assert(t <= calls[calls.len() - 1].1);
        let (g, k, oks) = run_checks(no_windows(), no_windows(), limits, prev);
        assert(oks.push(check_spec(g, k, limits, calls.last().0, calls.last().1).2).drop_last() =~= oks);
    }
}

/// A limiter with a global limit admits at most that many requests within
/// one minute.
pub proof fn lemma_global_limit_per_minute(limits: (u64, u64), calls: Seq<(Option<Seq<char>>, u64)>, t: u64)
    requires
        limits.0 > 0,
        within_minute(calls, t),
    ensures
        admitted(run_checks(no_windows(), no_windows(), limits, calls).2) <= limits.0,
{
    lemma_global_window(limits, calls, t);
}

/// The window of `key` of a fresh limiter, after requests within one
/// minute: it has counted at least every admitted request with that key,
/// and never more than the per-key limit.
proof fn lemma_key_window(limits: (u64, u64), calls: Seq<(Option<Seq<char>>, u64)>, t: u64, key: Seq<char>)
    requires
        limits.1 > 0,
        within_minute(calls, t),
    ensures
        ({
            let (g, k, oks) = run_checks(no_windows(), no_windows(), limits, calls);
            if k.contains_key(key) {
                &&& t <= k[key].0 < t + WINDOW_NANOS
                &&& admitted_for(calls, oks, key) <= k[key].1 <= limits.1
            } else {
                admitted_for(calls, oks, key) == 0
            }
        }),
    decreases calls.len(),
{
    if calls.len() > 0 {
        let prev = calls.drop_last();
        assert(within_minute(prev, t)) by {
            assert forall|i: int| 0 <= i < prev.len() implies t <= (#[trigger] prev[i]).1 && prev[i].1 < t + WINDOW_NANOS by {
                assert(prev[i] == calls[i]);
            }
        }
        lemma_key_window(limits, prev, t, key);
        lemma_run_len(no_windows(), no_windows(), limits, prev);
        assert(t <= calls[calls.len() - 1].1);
        let (g, k, oks) = run_checks(no_windows(), no_windows(), limits, prev);
        assert(oks.push(check_spec(g, k, limits, calls.last().0, calls.last().1).2).drop_last() =~= oks);
    }
}

/// A limiter with a per-key limit admits at most that many requests with
/// any one key within one minute.
pub proof fn lemma_key_limit_per_minute(limits: (u64, u64), calls: Seq<(Option<Seq<char>>, u64)>, t: u64, key: Seq<char>)
    requires
        limits.1 > 0,
        within_minute(calls, t),
    ensures
        admitted_for(calls, run_checks(no_windows(), no_windows(), limits, calls).2, key) <= limits.1,
{
    lemma_key_window(limits, calls, t, key);
}

/// Without limits every request is admitted.
pub proof fn lemma_no_limits_admit_all(
    global: Map<Seq<char>, (u64, u64)>,
    keys: Map<Seq<char>, (u64, u64)>,
    calls: Seq<(Option<Seq<char>>, u64)>,
)
    ensures
        admitted(run_checks(global, keys, (0, 0), calls).2) == calls.len(),
    decreases calls.len(),
{
    if calls.len() > 0 {
        lemma_no_limits_admit_all(global, keys, calls.drop_last());
        let (g, k, oks) = run_checks(global, keys, (0, 0), calls.drop_last());
        assert(oks.push(true).drop_last() =~= oks);
    }
}

/// A request without a key leaves every key window as it was, and a
/// request refused by its key's limit still takes its place in the global
/// window.
pub proof fn lemma_key_and_global_windows(
    global: Map<Seq<char>, (u64, u64)>,
    keys: Map<Seq<char>, (u64, u64)>,
    limits: (u64, u64),
    key: Option<Seq<char>>,
    now: u64,
)
    ensures
        key is None ==> check_spec(global, keys, limits, key, now).1 == keys,
        check_spec(global, keys, limits, key, now).0 == bump_spec(global, "global"@, limits.0, now).0,
{
}

} // verus!
