//! Upstream providers: the routes of a model, the endpoints they are
//! called at, and the order of attempts with retries and backoff.

pub mod health;

use vstd::prelude::*;
use crate::config::{AppConfig, ModelRoute, ProviderKind};
use crate::strmap::StrMap;
use crate::text::{chars_of, concat_str, split_once_char, split_once_spec, string_from_chars};

verus! {

/// A provider and the model to ask it for.
pub struct RouteTarget {
    pub provider_id: String,
    pub model: String,
}

impl RouteTarget {
    pub fn duplicate(&self) -> (r: Self)
        ensures
            r.provider_id@ == self.provider_id@,
            r.model@ == self.model@,
    {
        RouteTarget { provider_id: self.provider_id.clone(), model: self.model.clone() }
    }
}

/// Where and how a provider is called.
pub struct ProviderEndpoint {
    pub kind: ProviderKind,
    pub base_url: String,
}

/// Why a request found no provider.
pub enum ProviderError {
    ModelNotConfigured { model: String },
}

/// The configured providers, the alias routes and the retry budget.
pub struct ProviderRegistry {
    pub providers: StrMap<ProviderEndpoint>,
    pub aliases: StrMap<Vec<RouteTarget>>,
    pub retries: usize,
}

/// `(provider, model)` of each route.
pub open spec fn route_pairs(routes: Seq<RouteTarget>) -> Seq<(Seq<char>, Seq<char>)> {
    routes.map_values(|r: RouteTarget| (r.provider_id@, r.model@))
}

/// `(provider, model)` of each configured route.
pub open spec fn model_route_pairs(routes: Seq<ModelRoute>) -> Seq<(Seq<char>, Seq<char>)> {
    routes.map_values(|r: ModelRoute| (r.provider@, r.model@))
}

/// The routes of a model: those of its alias, or the provider and model of
/// a `provider:model` name.
pub open spec fn routes_spec(aliases: Map<Seq<char>, Vec<RouteTarget>>, model: Seq<char>) -> Option<Seq<(Seq<char>, Seq<char>)>> {
    if aliases.contains_key(model) {
        Some(route_pairs(aliases[model]@))
    } else if split_once_spec(model, ':') is Some {
        Some(seq![split_once_spec(model, ':').unwrap()])
    } else {
        None
    }
}

fn copy_routes(routes: &Vec<RouteTarget>) -> (r: Vec<RouteTarget>)
    ensures
        route_pairs(r@) == route_pairs(routes@),
{
    let mut r: Vec<RouteTarget> = Vec::new();
    let mut i: usize = 0;
    while i < routes.len()
        invariant
            i <= routes@.len(),
            route_pairs(r@) == route_pairs(routes@.take(i as int)),
        decreases routes@.len() - i,
    {
        let ghost before = route_pairs(r@);
        let t = routes[i].duplicate();
        r.push(t);
        assert(route_pairs(r@) =~= before.push((routes@[i as int].provider_id@, routes@[i as int].model@)));
        assert(route_pairs(routes@.take(i + 1)) =~= route_pairs(routes@.take(i as int)).push((routes@[i as int].provider_id@, routes@[i as int].model@)));
        i = i + 1;
    }
    assert(routes@.take(routes@.len() as int) =~= routes@);
    r
}

/// The characters of `s` without its trailing `/` characters.
pub open spec fn trim_trailing_slashes(s: Seq<char>) -> Seq<char>
    decreases s.len(),
{
    if s.len() > 0 && s.last() == '/' {
        trim_trailing_slashes(s.drop_last())
    } else {
        s
    }
}

/// `str::trim_end_matches('/')`.
pub fn trim_end_slashes(s: &str) -> (r: String)
    ensures
        r@ == trim_trailing_slashes(s@),
{
    let v = chars_of(s);
    let mut n = v.len();
    assert(v@.take(n as int) =~= v@);
    while n > 0 && v[n - 1] == '/'
        invariant
            n <= v@.len(),
            v@ == s@,
            trim_trailing_slashes(s@) == trim_trailing_slashes(v@.take(n as int)),
        decreases n,
    {
        assert(v@.take(n as int).drop_last() =~= v@.take(n - 1));
        n = n - 1;
    }
    let mut w: Vec<char> = Vec::new();
    let mut i: usize = 0;
    while i < n
        invariant
            n <= v@.len(),
            i <= n,
            w@ == v@.take(i as int),
        decreases n - i,
    {
        w.push(v[i]);
        i = i + 1;
        assert(w@ =~= v@.take(i as int));
    }
    string_from_chars(&w)
}

/// The endpoint a provider of kind `kind` is called at.
pub open spec fn chat_url_spec(kind: ProviderKind, base_url: Seq<char>) -> Seq<char> {
    trim_trailing_slashes(base_url) + match kind {
        ProviderKind::OpenAiCompat => "/v1/chat/completions"@,
        ProviderKind::Anthropic => "/v1/messages"@,
    }
}

/// The URL of the chat endpoint of a provider.
pub fn chat_url(kind: ProviderKind, base_url: &str) -> (r: String)
    ensures
        r@ == chat_url_spec(kind, base_url@),
{
    let base = trim_end_slashes(base_url);
    match kind {
        ProviderKind::OpenAiCompat => concat_str(base.as_str(), "/v1/chat/completions"),
        ProviderKind::Anthropic => concat_str(base.as_str(), "/v1/messages"),
    }
}

/// Milliseconds to wait after failed attempt `attempt` (counted from 0):
/// 50 ms, doubled per attempt up to six doublings.
pub open spec fn backoff_spec(attempt: nat) -> nat {
    50 * pow2_capped(attempt)
}

/// `2^min(attempt, 6)`.
pub open spec fn pow2_capped(attempt: nat) -> nat {
    if attempt == 0 { 1 } else if attempt == 1 { 2 } else if attempt == 2 { 4 } else if attempt == 3 { 8 }
    else if attempt == 4 { 16 } else if attempt == 5 { 32 } else { 64 }
}

/// The exponential backoff before the next attempt.
pub fn backoff_ms(attempt: usize) -> (r: u64)
    ensures
        r == backoff_spec(attempt as nat),
{
    let shift: u64 = if attempt < 6 { attempt as u64 } else { 6 };
    let factor: u64 = 1u64 << shift;
    assert(factor == pow2_capped(attempt as nat)) by (bit_vector)
        requires
            shift == (if attempt < 6 { attempt as u64 } else { 6u64 }),
            factor == 1u64 << shift;
    50 * factor
}

/// The backoff doubles with each failed attempt until the sixth doubling,
/// then stays at 3.2 seconds; it never shrinks as attempts go on.
pub proof fn lemma_backoff_grows_exponentially_then_caps(a: nat, b: nat)
    ensures
        a < 6 ==> backoff_spec(a + 1) == 2 * backoff_spec(a),
        a >= 6 ==> backoff_spec(a) == 3200,
        50 <= backoff_spec(a) <= 3200,
        a <= b ==> backoff_spec(a) <= backoff_spec(b),
{
}

impl ProviderRegistry {
    /// The providers and alias routes of the configuration.
    pub fn new(config: &AppConfig) -> (r: Self)
        ensures
            r.retries == config.limits.retries,
            r.providers.key_seq() == config.providers.key_seq(),
            forall|i: int| 0 <= i < r.providers.entries@.len() ==> {
                &&& (#[trigger] r.providers.entries@[i]).1.kind == config.providers.entries@[i].1.kind
                &&& r.providers.entries@[i].1.base_url@ == config.providers.entries@[i].1.base_url@
            },
            r.aliases.key_seq() == config.model_aliases.key_seq(),
            forall|i: int| 0 <= i < r.aliases.entries@.len() ==>
                route_pairs((#[trigger] r.aliases.entries@[i]).1@) == model_route_pairs(config.model_aliases.entries@[i].1@),
    {
        let mut providers: StrMap<ProviderEndpoint> = StrMap::new();
        let mut i: usize = 0;
        while i < config.providers.entries.len()
            invariant
                i <= config.providers.entries@.len(),
                providers.entries@.len() == i,
                forall|a: int| 0 <= a < i ==> {
                    &&& (#[trigger] providers.entries@[a]).0@ == config.providers.entries@[a].0@
                    &&& providers.entries@[a].1.kind == config.providers.entries@[a].1.kind
                    &&& providers.entries@[a].1.base_url@ == config.providers.entries@[a].1.base_url@
                },
            decreases config.providers.entries@.len() - i,
        {
            let (id, p) = (&config.providers.entries[i].0, &config.providers.entries[i].1);
            providers.entries.push((id.clone(), ProviderEndpoint { kind: p.kind, base_url: p.base_url.clone() }));
            i = i + 1;
        }
        assert(providers.key_seq() =~= config.providers.key_seq());
        let mut aliases: StrMap<Vec<RouteTarget>> = StrMap::new();
        let mut i: usize = 0;
        while i < config.model_aliases.entries.len()
            invariant
                i <= config.model_aliases.entries@.len(),
                aliases.entries@.len() == i,
                forall|a: int| 0 <= a < i ==> {
                    &&& (#[trigger] aliases.entries@[a]).0@ == config.model_aliases.entries@[a].0@
                    &&& route_pairs(aliases.entries@[a].1@) == model_route_pairs(config.model_aliases.entries@[a].1@)
                },
            decreases config.model_aliases.entries@.len() - i,
        {
            let routes = &config.model_aliases.entries[i].1;
            let mut targets: Vec<RouteTarget> = Vec::new();
            let mut k: usize = 0;
            while k < routes.len()
                invariant
                    k <= routes@.len(),
                    route_pairs(targets@) == model_route_pairs(routes@).take(k as int),
                decreases routes@.len() - k,
            {
                let ghost before = route_pairs(targets@);
                let t = RouteTarget { provider_id: routes[k].provider.clone(), model: routes[k].model.clone() };
                let ghost pair = (t.provider_id@, t.model@);
                targets.push(t);
                assert(route_pairs(targets@) =~= before.push(pair));
                assert(model_route_pairs(routes@).take(k + 1) =~= model_route_pairs(routes@).take(k as int).push(pair));
                k = k + 1;
            }
            assert(model_route_pairs(routes@).take(routes@.len() as int) =~= model_route_pairs(routes@));
            aliases.entries.push((config.model_aliases.entries[i].0.clone(), targets));
            i = i + 1;
        }
        assert(aliases.key_seq() =~= config.model_aliases.key_seq());
        ProviderRegistry { providers, aliases, retries: config.limits.retries }
    }

    /// The routes of a model: its alias routes, else the provider and model
    /// of a `provider:model` name; other names are not configured.
    pub fn routes_for(&self, model: &str) -> (r: Result<Vec<RouteTarget>, ProviderError>)
        ensures
            match r {
                Ok(routes) => routes_spec(self.aliases@, model@) == Some(route_pairs(routes@)),
                Err(ProviderError::ModelNotConfigured { model: m }) => routes_spec(self.aliases@, model@) is None && m@ == model@,
            },
    {
        match self.aliases.get(model) {
            Some(routes) => {
                return Ok(copy_routes(routes));
            },
            None => {},
        }
        match split_once_char(model, ':') {
            Some((provider, mapped)) => {
                let mut routes: Vec<RouteTarget> = Vec::new();
                routes.push(RouteTarget { provider_id: provider, model: mapped });
                assert(route_pairs(routes@) =~= seq![split_once_spec(model@, ':').unwrap()]);
                Ok(routes)
            },
            None => Err(ProviderError::ModelNotConfigured { model: String::from_str(model) }),
        }
    }

    /// Starts the attempts for a model.
    pub fn attempts(&self, model: &str) -> (r: Result<ProviderAttempts, ProviderError>)
        ensures
            match r {
                Ok(a) => a.wf() && routes_spec(self.aliases@, model@) == Some(a.routes_view())
                    && a.route_view() == 0 && a.attempt_view() == 0 && !a.failed_view()
                    && a.retries_view() == self.retries,
                Err(ProviderError::ModelNotConfigured { model: m }) => routes_spec(self.aliases@, model@) is None && m@ == model@,
            },
    {
        match self.routes_for(model) {
            Ok(routes) => {
                let _count = routes.len();
                Ok(ProviderAttempts { routes, retries: self.retries, route: 0, attempt: 0, failed: false })
            },
            Err(e) => Err(e),
        }
    }

    /// What to do next: call the current route, give up because its
    /// provider is not configured, or give up because every route failed.
    pub fn next_attempt(&self, a: &ProviderAttempts) -> (r: AttemptStep)
        requires
            a.wf(),
        ensures
            if a.route_view() == a.routes_view().len() {
                r matches AttemptStep::Exhausted { any_failure } && any_failure == a.failed_view()
            } else {
                let (p, m) = a.routes_view()[a.route_view() as int];
                if self.providers@.contains_key(p) {
                    r matches AttemptStep::Call { provider_id, model, attempt }
                        && provider_id@ == p && model@ == m && attempt == a.attempt_view()
                } else {
                    r matches AttemptStep::MissingProvider { provider_id } && provider_id@ == p
                }
            },
    {
        if a.route == a.routes.len() {
            return AttemptStep::Exhausted { any_failure: a.failed };
        }
        let target = &a.routes[a.route];
        if self.providers.contains_key(target.provider_id.as_str()) {
            AttemptStep::Call { provider_id: target.provider_id.clone(), model: target.model.clone(), attempt: a.attempt }
        } else {
            AttemptStep::MissingProvider { provider_id: target.provider_id.clone() }
        }
    }
}

/// The next move of a request over its routes.
pub enum AttemptStep {
    /// Call this provider with this model; `attempt` counts the earlier
    /// attempts on the same route.
    Call { provider_id: String, model: String, attempt: usize },
    /// The route names a provider that is not configured.
    MissingProvider { provider_id: String },
    /// Every route was tried; `any_failure` tells whether any attempt was
    /// made.
    Exhausted { any_failure: bool },
}

/// The progress of a request over its routes and their retries.
pub struct ProviderAttempts {
    routes: Vec<RouteTarget>,
    retries: usize,
    route: usize,
    attempt: usize,
    failed: bool,
}

impl ProviderAttempts {
    pub closed spec fn routes_view(&self) -> Seq<(Seq<char>, Seq<char>)> {
        route_pairs(self.routes@)
    }

    pub closed spec fn retries_view(&self) -> usize {
        self.retries
    }

    /// The index of the route being tried.
    pub closed spec fn route_view(&self) -> nat {
        self.route as nat
    }

    /// How many attempts of the current route failed.
    pub closed spec fn attempt_view(&self) -> nat {
        self.attempt as nat
    }

    /// Whether some attempt failed.
    pub closed spec fn failed_view(&self) -> bool {
        self.failed
    }

    pub closed spec fn wf(&self) -> bool {
        &&& self.routes@.len() <= usize::MAX
        &&& self.route <= self.routes@.len()
        &&& self.attempt <= self.retries
        &&& self.route == self.routes@.len() ==> self.attempt == 0
    }

    /// Records that the current attempt failed. The same route is tried
    /// again after the returned backoff while retries remain; otherwise the
    /// next route is tried at once.
    pub fn record_failure(&mut self) -> (backoff: Option<u64>)
        requires
            old(self).wf(),
            old(self).route_view() < old(self).routes_view().len(),
        ensures
            final(self).wf(),
            final(self).routes_view() == old(self).routes_view(),
            final(self).retries_view() == old(self).retries_view(),
            final(self).failed_view(),
            if old(self).attempt_view() < old(self).retries_view() {
                &&& final(self).route_view() == old(self).route_view()
                &&& final(self).attempt_view() == old(self).attempt_view() + 1
                &&& backoff == Some(backoff_spec(old(self).attempt_view()) as u64)
            } else {
                &&& final(self).route_view() == old(self).route_view() + 1
                &&& final(self).attempt_view() == 0
                &&& backoff is None
            },
    {
        self.failed = true;
        if self.attempt < self.retries {
            let wait = backoff_ms(self.attempt);
            self.attempt = self.attempt + 1;
            Some(wait)
        } else {
            self.route = self.route + 1;
            self.attempt = 0;
            None
        }
    }
}

} // verus!
