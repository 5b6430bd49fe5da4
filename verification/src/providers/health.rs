//! Health counters of a provider: request, retry, stream, failure and
//! timeout counts, status codes, and latency percentiles over a rolling
//! window.

use vstd::prelude::*;
use vstd::relations::{sorted_by, total_ordering};
use vstd::seq_lib::{group_to_multiset_ensures, lemma_sorted_unique};
use std::collections::{HashMap, VecDeque};
use crate::text::{ascii_lowercase, chars_of, contains_chars, contains_seq, to_ascii_lowercase_chars};

verus! {

broadcast use {group_to_multiset_ensures, vstd::std_specs::hash::group_hash_axioms};

/// The count recorded for status `s` (0 when absent).
pub open spec fn status_count(m: Map<u16, u64>, s: u16) -> nat {
    if m.contains_key(s) {
        m[s] as nat
    } else {
        0
    }
}

/// Counts one more response with status `s`.
fn bump_status(m: &mut HashMap<u16, u64>, s: u16)
    requires
        status_count(old(m)@, s) < u64::MAX,
    ensures
        final(m)@ == old(m)@.insert(s, (status_count(old(m)@, s) + 1) as u64),
{
    let c: u64 = match m.get(&s) {
        Some(c) => *c,
        None => 0,
    };
    m.insert(s, c + 1);
}

/// The latencies as mathematical integers.
pub open spec fn ints(s: Seq<u64>) -> Seq<int> {
    s.map_values(|x: u64| x as int)
}

pub open spec fn int_leq() -> spec_fn(int, int) -> bool {
    |x: int, y: int| x <= y
}

/// The index of quantile `num/den` in a sorted sample of `len` values:
/// `(len - 1) * num / den`, rounded half up.
pub open spec fn quantile_index(len: nat, num: nat, den: nat) -> int {
    (2 * num * (len - 1) + den) as int / (2 * den) as int
}

/// The latency at quantile `num/den` of the sample (0 for no sample).
pub open spec fn percentile_spec(s: Seq<u64>, num: nat, den: nat) -> u64 {
    if s.len() == 0 {
        0
    } else {
        ints(s).sort()[quantile_index(s.len(), num, den)] as u64
    }
}

proof fn lemma_int_leq_total()
    ensures
        total_ordering(int_leq()),
{
}

fn sorted_latencies(v: &VecDeque<u64>) -> (r: Vec<u64>)
    ensures
        r@.len() == v@.len(),
        ints(r@) == ints(v@).sort(),
{
    let n = v.len();
    let mut r: Vec<u64> = Vec::new();
    let mut i: usize = 0;
    while i < n
        invariant
            n == v@.len(),
            i <= n,
            r@.len() == i,
            sorted_by(ints(r@), int_leq()),
            ints(r@).to_multiset() == ints(v@.take(i as int)).to_multiset(),
        decreases n - i,
    {
        let x = v[i];
        let mut pos: usize = 0;
        while pos < r.len() && r[pos] <= x
            invariant
                pos <= r@.len(),
                forall|p: int| 0 <= p < pos ==> r@[p] <= x,
            decreases r@.len() - pos,
        {
            pos = pos + 1;
        }
        let ghost before = r@;
        r.insert(pos, x);
        proof {
            assert(ints(r@) =~= ints(before).insert(pos as int, x as int));
            assert(ints(v@.take(i + 1)) =~= ints(v@.take(i as int)).push(x as int));
            let s = ints(r@);
            assert forall|a: int, b: int| 0 <= a < b < s.len() implies #[trigger] int_leq()(s[a], s[b]) by {
                let t = ints(before);
                if b < pos {
                    assert(int_leq()(t[a], t[b]));
                } else if b == pos {
                    assert(s[a] == t[a]);
                } else if a < pos {
                    assert(t[a] <= x);
                    if pos < before.len() {
                        assert(x < before[pos as int]);
                        if b - 1 > pos {
                            assert(int_leq()(t[pos as int], t[b - 1]));
                        }
                    }
                } else if a == pos {
                    assert(x < before[pos as int]);
                    if b - 1 > pos {
                        assert(int_leq()(t[pos as int], t[b - 1]));
                    }
                } else {
                    assert(int_leq()(t[a - 1], t[b - 1]));
                }
            }
        }
        i = i + 1;
    }
    proof {
        assert(v@.take(n as int) =~= v@);
        ints(v@).lemma_sort_ensures();
        lemma_int_leq_total();
        assert(sorted_by(ints(v@).sort(), int_leq())) by {
            assert(int_leq() =~= |x: int, y: int| x <= y);
        }
        lemma_sorted_unique(ints(r@), ints(v@).sort(), int_leq());
    }
    r
}

/// The latency at quantile `num/den` of the window.
fn percentile(latencies: &VecDeque<u64>, num: u64, den: u64) -> (r: u64)
    requires
        0 < den <= 100,
        num <= den,
        latencies@.len() <= usize::MAX,
    ensures
        r == percentile_spec(latencies@, num as nat, den as nat),
{
    if latencies.len() == 0 {
        return 0;
    }
    let ordered = sorted_latencies(latencies);
    let len = ordered.len();
    let m: u128 = (len - 1) as u128;
    assert(2 * (num as u128) * m + (den as u128) < 0x1_0000_0000_0000_0000_0000_0000_0000) by (nonlinear_arith)
        requires
            num <= 100,
            den <= 100,
            m < 0x1_0000_0000_0000_0000,
    ;
    let idx128: u128 = (2 * (num as u128) * m + (den as u128)) / (2 * (den as u128));
    assert(idx128 <= m) by (nonlinear_arith)
        requires
            idx128 == (2 * (num as u128) * m + (den as u128)) / (2 * (den as u128)),
            0 < den,
            num <= den,
    ;
    let idx = idx128 as usize;
    proof {
        assert(ints(ordered@)[idx as int] == ordered@[idx as int] as int);
    }
    ordered[idx]
}

/// What the gateway observed of one provider call.
pub struct ObservedCall {
    pub latency_ms: u64,
    pub streamed: bool,
    pub retries: u32,
    pub success: bool,
    pub tokens: Option<u64>,
    pub error: Option<String>,
    pub http_status: Option<u16>,
}

/// The error message mentions a timeout (ASCII case-insensitively).
pub open spec fn is_timeout(error: Option<String>) -> bool {
    match error {
        Some(e) => contains_seq(ascii_lowercase(e@), "timeout"@),
        None => false,
    }
}

/// The last `window` latencies of `lat` followed by `x`.
pub open spec fn window_after(lat: Seq<u64>, x: u64, window: nat) -> Seq<u64> {
    let s = lat.push(x);
    if s.len() > window { s.subrange(s.len() - window, s.len() as int) } else { s }
}

/// Appends `x` and drops the oldest latencies beyond `window`.
fn push_window(lat: &mut VecDeque<u64>, x: u64, window: usize)
    requires
        old(lat)@.len() < usize::MAX,
    ensures
        final(lat)@ == window_after(old(lat)@, x, window as nat),
{
    let ghost before = lat@;
    lat.push_back(x);
    let ghost pushed = lat@;
    while lat.len() > window
        invariant
            pushed == before.push(x),
            lat@.len() <= pushed.len(),
            lat@ == pushed.subrange(pushed.len() - lat@.len(), pushed.len() as int),
            lat@.len() >= window || lat@ == pushed,
        decreases lat@.len(),
    {
        let _ = lat.pop_front();
        assert(lat@ =~= pushed.subrange(pushed.len() - lat@.len(), pushed.len() as int));
    }
    proof {
        if pushed.len() > window {
            assert(lat@.len() == window);
        } else {
            assert(lat@ =~= pushed);
        }
    }
}

/// The integer health of a provider.
pub struct HealthCounters {
    pub rolling_window: usize,
    pub latency_p50: u64,
    pub latency_p95: u64,
    pub last_failure: Option<u64>,
    pub status_distribution: HashMap<u16, u64>,
    pub total_requests: u64,
    pub total_retries: u64,
    pub stream_count: u64,
    pub sample_count: u64,
    pub failure_count: u64,
    pub timeout_count: u64,
    pub observed_tokens: u64,
    pub observed_latency_ms: u64,
    pub latencies: VecDeque<u64>,
}

/// No counter would overflow by observing `call`.
pub open spec fn can_observe(h: HealthCounters, call: ObservedCall) -> bool {
    &&& h.total_requests < u64::MAX
    &&& h.total_retries + call.retries <= u64::MAX
    &&& h.sample_count < u64::MAX
    &&& h.stream_count < u64::MAX
    &&& h.failure_count < u64::MAX
    &&& h.timeout_count < u64::MAX
    &&& (call.http_status matches Some(s) ==> status_count(h.status_distribution@, s) < u64::MAX)
    &&& (call.tokens matches Some(t) ==> h.observed_tokens + t <= u64::MAX)
    &&& h.observed_latency_ms + call.latency_ms <= u64::MAX
    &&& h.latencies@.len() < usize::MAX
}

/// Counters as `HealthCounters::new(window)` makes them: all zero, with no
/// latency and no status.
pub open spec fn fresh_counters(h: HealthCounters, window: usize) -> bool {
    &&& h.rolling_window == window
    &&& h.latency_p50 == 0 && h.latency_p95 == 0
    &&& h.last_failure is None
    &&& h.status_distribution@ == Map::<u16, u64>::empty()
    &&& h.total_requests == 0 && h.total_retries == 0 && h.stream_count == 0
    &&& h.sample_count == 0 && h.failure_count == 0 && h.timeout_count == 0
    &&& h.observed_tokens == 0 && h.observed_latency_ms == 0
    &&& h.latencies@.len() == 0
}

/// `b` is `a` after observing `call` at `now_ms`: each counter grows by
/// what the call shows, the window takes its latency, and the percentiles
/// are those of the new window.
pub open spec fn observed(a: HealthCounters, call: ObservedCall, now_ms: u64, b: HealthCounters) -> bool {
    &&& b.rolling_window == a.rolling_window
    &&& b.total_requests == a.total_requests + 1
    &&& b.total_retries == a.total_retries + call.retries
    &&& b.sample_count == a.sample_count + 1
    &&& b.stream_count == a.stream_count + if call.streamed { 1int } else { 0 }
    &&& b.failure_count == a.failure_count + if call.success { 0int } else { 1 }
    &&& b.last_failure == if call.success { a.last_failure } else { Some(now_ms) }
    &&& b.timeout_count == a.timeout_count + if is_timeout(call.error) { 1int } else { 0 }
    &&& b.status_distribution@ == match call.http_status {
        Some(s) => a.status_distribution@.insert(s, (status_count(a.status_distribution@, s) + 1) as u64),
        None => a.status_distribution@,
    }
    &&& b.observed_tokens == a.observed_tokens + match call.tokens {
        Some(t) => t as int,
        None => 0,
    }
    &&& b.observed_latency_ms == a.observed_latency_ms + call.latency_ms
    &&& b.latencies@ == window_after(a.latencies@, call.latency_ms, a.rolling_window as nat)
    &&& b.latency_p50 == percentile_spec(b.latencies@, 1, 2)
    &&& b.latency_p95 == percentile_spec(b.latencies@, 19, 20)
}

impl HealthCounters {
    /// Fresh counters over a rolling window of `rolling_window` latencies.
    pub fn new(rolling_window: usize) -> (r: Self)
        ensures
            fresh_counters(r, rolling_window),
    {
        HealthCounters {
            rolling_window,
            latency_p50: 0,
            latency_p95: 0,
            last_failure: None,
            status_distribution: HashMap::new(),
            total_requests: 0,
            total_retries: 0,
            stream_count: 0,
            sample_count: 0,
            failure_count: 0,
            timeout_count: 0,
            observed_tokens: 0,
            observed_latency_ms: 0,
            latencies: VecDeque::new(),
        }
    }

    /// Counts one call, observed at `now_ms` (milliseconds since the Unix
    /// epoch), and recomputes the percentiles over the rolling window.
    pub fn observe(&mut self, call: &ObservedCall, now_ms: u64)
        requires
            can_observe(*old(self), *call),
        ensures
            observed(*old(self), *call, now_ms, *final(self)),
    {
        self.total_requests = self.total_requests + 1;
        self.total_retries = self.total_retries + call.retries as u64;
        self.sample_count = self.sample_count + 1;
        if call.streamed {
            self.stream_count = self.stream_count + 1;
        }
        if !call.success {
            self.failure_count = self.failure_count + 1;
            self.last_failure = Some(now_ms);
        }
        let timed_out = match &call.error {
            Some(e) => {
                let lowered = to_ascii_lowercase_chars(&chars_of(e.as_str()));
                contains_chars(&lowered, &chars_of("timeout"))
            },
            None => false,
        };
        if timed_out {
            self.timeout_count = self.timeout_count + 1;
        }
        match call.http_status {
            Some(s) => bump_status(&mut self.status_distribution, s),
            None => {},
        }
        match call.tokens {
            Some(t) => {
                self.observed_tokens = self.observed_tokens + t;
            },
            None => {},
        }
        self.observed_latency_ms = self.observed_latency_ms + call.latency_ms;
        push_window(&mut self.latencies, call.latency_ms, self.rolling_window);
        self.latency_p50 = percentile(&self.latencies, 1, 2);
        self.latency_p95 = percentile(&self.latencies, 19, 20);
    }
}

/// The rolling window never holds more than `window` latencies.
pub proof fn lemma_window_bounded(lat: Seq<u64>, x: u64, window: nat)
    ensures
        window_after(lat, x, window).len() <= window || window_after(lat, x, window) == lat.push(x),
        window_after(lat, x, window).len() <= window || lat.len() < window,
        window_after(lat, x, window).last() == x || window == 0,
{
}

/// The median latency never exceeds the 95th percentile.
pub proof fn lemma_median_within_p95(s: Seq<u64>)
    ensures
        percentile_spec(s, 1, 2) <= percentile_spec(s, 19, 20),
{
    if s.len() > 0 {
        let l = s.len();
        let a = quantile_index(l, 1, 2);
        let b = quantile_index(l, 19, 20);
        assert(0 <= a <= b < l) by (nonlinear_arith)
            requires
                l >= 1,
                a == (2 * 1 * (l - 1) + 2) as int / (2 * 2) as int,
                b == (2 * 19 * (l - 1) + 20) as int / (2 * 20) as int,
        ;
        ints(s).lemma_sort_ensures();
        lemma_int_leq_total();
        let t = ints(s).sort();
        assert(t.len() == l) by {
            assert(t.to_multiset().len() == ints(s).to_multiset().len());
        }
        assert(sorted_by(t, int_leq())) by {
            assert(int_leq() =~= |x: int, y: int| x <= y);
        }
        if a < b {
            assert(int_leq()(t[a], t[b]));
        }
        assert(0 <= t[a] <= t[b] <= u64::MAX) by {
            assert(t.contains(t[a]));
            assert(t.contains(t[b]));
            assert(ints(s).to_multiset().count(t[a]) > 0);
            assert(ints(s).to_multiset().count(t[b]) > 0);
            assert(ints(s).contains(t[a]));
            assert(ints(s).contains(t[b]));
            let i = choose|i: int| 0 <= i < ints(s).len() && ints(s)[i] == t[a];
            let j = choose|j: int| 0 <= j < ints(s).len() && ints(s)[j] == t[b];
            assert(ints(s)[i] == s[i] as int);
            assert(ints(s)[j] == s[j] as int);
        }
    }
}

/// The last `window` entries of `s` (all of them when there are fewer).
pub open spec fn last_n(s: Seq<u64>, window: nat) -> Seq<u64> {
    if s.len() > window { s.subrange(s.len() - window, s.len() as int) } else { s }
}

/// The latencies of the calls, in order.
pub open spec fn call_latencies(calls: Seq<ObservedCall>) -> Seq<u64> {
    calls.map_values(|c: ObservedCall| c.latency_ms)
}

/// How many of the calls failed.
pub open spec fn failures(calls: Seq<ObservedCall>) -> nat
    decreases calls.len(),
{
    if calls.len() == 0 {
        0
    } else {
        failures(calls.drop_last()) + if calls.last().success { 0nat } else { 1nat }
    }
}

/// How many of the calls timed out.
pub open spec fn timeouts(calls: Seq<ObservedCall>) -> nat
    decreases calls.len(),
{
    if calls.len() == 0 {
        0
    } else {
        timeouts(calls.drop_last()) + if is_timeout(calls.last().error) { 1nat } else { 0nat }
    }
}

/// The retries of all the calls together.
pub open spec fn retries_total(calls: Seq<ObservedCall>) -> nat
    decreases calls.len(),
{
    if calls.len() == 0 {
        0
    } else {
        retries_total(calls.drop_last()) + calls.last().retries as nat
    }
}

/// How many of the calls streamed.
pub open spec fn streamed_calls(calls: Seq<ObservedCall>) -> nat
    decreases calls.len(),
{
    if calls.len() == 0 {
        0
    } else {
        streamed_calls(calls.drop_last()) + if calls.last().streamed { 1nat } else { 0nat }
    }
}

/// The tokens the calls reported, a call without a count adding none.
pub open spec fn tokens_total(calls: Seq<ObservedCall>) -> nat
    decreases calls.len(),
{
    if calls.len() == 0 {
        0
    } else {
        tokens_total(calls.drop_last()) + match calls.last().tokens {
            Some(t) => t as nat,
            None => 0nat,
        }
    }
}

/// The latencies of all the calls added up.
pub open spec fn latency_total(calls: Seq<ObservedCall>) -> nat
    decreases calls.len(),
{
    if calls.len() == 0 {
        0
    } else {
        latency_total(calls.drop_last()) + calls.last().latency_ms as nat
    }
}

/// How many of the calls answered with HTTP status `code`.
pub open spec fn status_calls(calls: Seq<ObservedCall>, code: u16) -> nat
    decreases calls.len(),
{
    if calls.len() == 0 {
        0
    } else {
        status_calls(calls.drop_last(), code) + if calls.last().http_status == Some(code) { 1nat } else { 0nat }
    }
}

proof fn lemma_last_n_push(s: Seq<u64>, x: u64, window: nat)
    ensures
        window_after(last_n(s, window), x, window) == last_n(s.push(x), window),
{
    let t = last_n(s, window);
    if s.len() > window {
        assert(window_after(t, x, window) =~= last_n(s.push(x), window));
    } else {
        assert(window_after(t, x, window) =~= last_n(s.push(x), window));
    }
}

proof fn lemma_counters_prefix(w: usize, calls: Seq<ObservedCall>, times: Seq<u64>, hs: Seq<HealthCounters>, k: int)
    requires
        hs.len() == calls.len() + 1,
        times.len() == calls.len(),
        fresh_counters(hs[0], w),
        forall|i: int| 0 <= i < calls.len() ==> observed(#[trigger] hs[i], calls[i], times[i], hs[i + 1]),
        0 <= k <= calls.len(),
    ensures
        hs[k].rolling_window == w,
        hs[k].total_requests == k,
        hs[k].sample_count == k,
        hs[k].failure_count == failures(calls.take(k)),
        hs[k].timeout_count == timeouts(calls.take(k)),
        hs[k].latencies@ == last_n(call_latencies(calls.take(k)), w as nat),
    decreases k,
{
    if k == 0 {
        assert(call_latencies(calls.take(0)) =~= Seq::<u64>::empty());
    } else {
        lemma_counters_prefix(w, calls, times, hs, k - 1);
        assert(observed(hs[k - 1], calls[k - 1], times[k - 1], hs[k]));
        assert(calls.take(k).drop_last() =~= calls.take(k - 1));
        assert(call_latencies(calls.take(k)) =~= call_latencies(calls.take(k - 1)).push(calls[k - 1].latency_ms));
        lemma_last_n_push(call_latencies(calls.take(k - 1)), calls[k - 1].latency_ms, w as nat);
    }
}

proof fn lemma_sums_prefix(w: usize, calls: Seq<ObservedCall>, times: Seq<u64>, hs: Seq<HealthCounters>, k: int)
    requires
        hs.len() == calls.len() + 1,
        times.len() == calls.len(),
        fresh_counters(hs[0], w),
        forall|i: int| 0 <= i < calls.len() ==> observed(#[trigger] hs[i], calls[i], times[i], hs[i + 1]),
        0 <= k <= calls.len(),
    ensures
        hs[k].total_retries == retries_total(calls.take(k)),
        hs[k].stream_count == streamed_calls(calls.take(k)),
        hs[k].observed_tokens == tokens_total(calls.take(k)),
        hs[k].observed_latency_ms == latency_total(calls.take(k)),
    decreases k,
{
    if k > 0 {
        lemma_sums_prefix(w, calls, times, hs, k - 1);
        assert(observed(hs[k - 1], calls[k - 1], times[k - 1], hs[k]));
        assert(calls.take(k).drop_last() =~= calls.take(k - 1));
        assert(calls.take(k).last() == calls[k - 1]);
    }
}

proof fn lemma_status_prefix(
    w: usize,
    calls: Seq<ObservedCall>,
    times: Seq<u64>,
    hs: Seq<HealthCounters>,
    k: int,
    code: u16,
)
    requires
        hs.len() == calls.len() + 1,
        times.len() == calls.len(),
        fresh_counters(hs[0], w),
        forall|i: int| 0 <= i < calls.len() ==> observed(#[trigger] hs[i], calls[i], times[i], hs[i + 1]),
        0 <= k <= calls.len(),
    ensures
        status_count(hs[k].status_distribution@, code) == status_calls(calls.take(k), code),
        status_calls(calls.take(k), code) <= k,
    decreases k,
{
    if k == 0 {
        assert(!hs[0].status_distribution@.contains_key(code));
    } else {
        lemma_status_prefix(w, calls, times, hs, k - 1, code);
        lemma_counters_prefix(w, calls, times, hs, k);
        let a = hs[k - 1];
        let b = hs[k];
        let call = calls[k - 1];
        assert(observed(a, call, times[k - 1], b));
        assert(calls.take(k).drop_last() =~= calls.take(k - 1));
        assert(calls.take(k).last() == call);
        let before = status_calls(calls.take(k - 1), code);
        assert(status_count(a.status_distribution@, code) == before);
        assert(b.total_requests == k);
        match call.http_status {
            Some(st) => {
                assert(b.status_distribution@ == a.status_distribution@.insert(
                    st,
                    (status_count(a.status_distribution@, st) + 1) as u64,
                ));
                if st == code {
                    assert(before + 1 <= u64::MAX);
                    assert(b.status_distribution@[code] == before + 1);
                } else {
                    assert(b.status_distribution@.contains_key(code) == a.status_distribution@.contains_key(code));
                    if a.status_distribution@.contains_key(code) {
                        assert(b.status_distribution@[code] == a.status_distribution@[code]);
                    }
                }
            },
            None => {},
        }
    }
}

/// After `n` observations from fresh counters, `n` requests were counted,
/// the failures, timeouts, retries, streamed calls, tokens, latencies and
/// status codes add up to those of the calls, the window holds the
/// latencies of the last `window` calls, and the median latency of that
/// window never exceeds its 95th percentile.
pub proof fn lemma_counters_over_observations(w: usize, calls: Seq<ObservedCall>, times: Seq<u64>, hs: Seq<HealthCounters>)
    requires
        hs.len() == calls.len() + 1,
        times.len() == calls.len(),
        fresh_counters(hs[0], w),
        forall|i: int| 0 <= i < calls.len() ==> observed(#[trigger] hs[i], calls[i], times[i], hs[i + 1]),
    ensures
        hs.last().total_requests == calls.len(),
        hs.last().sample_count == calls.len(),
        hs.last().failure_count == failures(calls),
        hs.last().timeout_count == timeouts(calls),
        hs.last().total_retries == retries_total(calls),
        hs.last().stream_count == streamed_calls(calls),
        hs.last().observed_tokens == tokens_total(calls),
        hs.last().observed_latency_ms == latency_total(calls),
        forall|code: u16| status_count(hs.last().status_distribution@, code) == #[trigger] status_calls(calls, code),
        hs.last().latencies@ == last_n(call_latencies(calls), w as nat),
        hs.last().latency_p50 <= hs.last().latency_p95,
{
    let n = calls.len() as int;
    lemma_counters_prefix(w, calls, times, hs, n);
    lemma_sums_prefix(w, calls, times, hs, n);
    assert forall|code: u16| status_count(hs.last().status_distribution@, code) == #[trigger] status_calls(calls, code) by {
        lemma_status_prefix(w, calls, times, hs, n, code);
        assert(calls.take(n) =~= calls);
        assert(hs.last() == hs[n]);
    }
    assert(calls.take(n) =~= calls);
    if n > 0 {
        assert(observed(hs[n - 1], calls[n - 1], times[n - 1], hs[n]));
        lemma_median_within_p95(hs[n].latencies@);
    } else {
        assert(fresh_counters(hs[0], w));
    }
}

} // verus!
