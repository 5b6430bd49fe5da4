//! The provider router: the candidate providers of a request and the model
//! each is given.

use vstd::prelude::*;
use crate::config::ModelRoute;
use crate::kernel::manifest::{CapabilityManifest, string_list, strs};
use crate::kernel::scoring::{RoutingStrategy, strategy_name};
use crate::runtime::planner_result::ProviderSelectionCandidates;
use crate::strmap::StrMap;
use crate::text::{split_once_char, split_once_spec};

verus! {

/// Routes requests to providers through model aliases or `provider:model`
/// names.
pub struct ProviderRoutingCapability {
    pub aliases: StrMap<Vec<ModelRoute>>,
    pub strategy: RoutingStrategy,
}

/// The providers of the alias routes, in order.
pub open spec fn route_providers(routes: Seq<ModelRoute>) -> Seq<Seq<char>> {
    routes.map_values(|r: ModelRoute| r.provider@)
}

/// Each provider of the routes with its model; a later route of the same
/// provider replaces an earlier one.
pub open spec fn route_models(routes: Seq<ModelRoute>) -> Map<Seq<char>, Seq<char>>
    decreases routes.len(),
{
    if routes.len() == 0 {
        Map::empty()
    } else {
        route_models(routes.drop_last()).insert(routes.last().provider@, routes.last().model@)
    }
}

/// The candidate providers for the model name `model`: the routes of an
/// alias; else the provider of a `provider:model` name; else `default`.
pub open spec fn candidates_match(aliases: Map<Seq<char>, Vec<ModelRoute>>, strategy: RoutingStrategy, model: Seq<char>, c: ProviderSelectionCandidates) -> bool {
    &&& c.strategy matches Some(s) && s@ == strategy_name(strategy)
    &&& if aliases.contains_key(model) {
        let routes = aliases[model]@;
        &&& strs(c.providers@) == route_providers(routes)
        &&& c.selected_model is None
        &&& c.provider_models@.map_values(|m: String| m@) == route_models(routes)
    } else if split_once_spec(model, ':') is Some {
        let (p, m) = split_once_spec(model, ':')->0;
        &&& strs(c.providers@) == seq![p]
        &&& c.selected_model matches Some(sm) && sm@ == model
        &&& c.provider_models@.map_values(|x: String| x@) == Map::<Seq<char>, Seq<char>>::empty().insert(p, m)
    } else {
        &&& strs(c.providers@) == seq!["default"@]
        &&& c.selected_model matches Some(sm) && sm@ == model
        &&& c.provider_models@.map_values(|x: String| x@) == Map::<Seq<char>, Seq<char>>::empty()
    }
}

impl ProviderRoutingCapability {
    pub fn new(aliases: StrMap<Vec<ModelRoute>>, strategy: RoutingStrategy) -> (r: Self)
        ensures
            r.aliases == aliases,
            r.strategy == strategy,
    {
        ProviderRoutingCapability { aliases, strategy }
    }

    /// No aliases, adaptive routing.
    pub fn default() -> (r: Self)
        ensures
            r.aliases@ == Map::<Seq<char>, Vec<ModelRoute>>::empty(),
            r.strategy == RoutingStrategy::Adaptive,
    {
        Self::new(StrMap::new(), RoutingStrategy::Adaptive)
    }

    pub fn id(&self) -> (r: &'static str)
        ensures
            r@ == "provider_router"@,
    {
        "provider_router"
    }

    pub fn version(&self) -> (r: &'static str)
        ensures
            r@ == "v1"@,
    {
        "v1"
    }

    /// Provides `provider.selection` once `policy`, `semantic.intent`,
    /// `budget`, `tools` and `guardrails` are known, so that it runs after
    /// the budget guard, the guardrail and the tools capability.
    pub fn manifest(&self) -> (m: CapabilityManifest)
        ensures
            m.id@ == "provider_router"@,
            m.version@ == "v1"@,
            strs(m.provides@) == seq!["provider.selection"@],
            strs(m.requires@) == seq!["policy"@, "semantic.intent"@, "budget"@, "tools"@, "guardrails"@],
            m.before@.len() == 0,
            m.after@.len() == 0,
            strs(m.tags@) == seq!["provider"@],
            strs(m.permissions@) == seq!["provider.route"@],
            m.cost == 1,
    {
        let m = CapabilityManifest {
            id: String::from_str(self.id()),
            version: String::from_str(self.version()),
            provides: string_list(&["provider.selection"]),
            requires: string_list(&["policy", "semantic.intent", "budget", "tools", "guardrails"]),
            before: Vec::new(),
            after: Vec::new(),
            tags: string_list(&["provider"]),
            permissions: string_list(&["provider.route"]),
            cost: 1,
        };
        assert(strs(m.provides@) =~= seq!["provider.selection"@]);
        assert(strs(m.requires@) =~= seq!["policy"@, "semantic.intent"@, "budget"@, "tools"@, "guardrails"@]);
        assert(strs(m.tags@) =~= seq!["provider"@]);
        assert(strs(m.permissions@) =~= seq!["provider.route"@]);
        m
    }

    /// The provider named before the first `:` of the model, if any.
    pub fn provider_hint(model: &str) -> (r: Option<String>)
        ensures
            match r {
                Some(p) => split_once_spec(model@, ':') is Some && p@ == split_once_spec(model@, ':').unwrap().0,
                None => split_once_spec(model@, ':') is None,
            },
    {
        match split_once_char(model, ':') {
            Some((p, _)) => Some(p),
            None => None,
        }
    }

    /// The candidate providers for the requested model.
    pub fn plan(&self, model: &String) -> (c: ProviderSelectionCandidates)
        ensures
            candidates_match(self.aliases@, self.strategy, model@, c),
    {
        let strategy = Some(String::from_str(self.strategy.as_str()));
        match self.aliases.get(model.as_str()) {
            Some(routes) => {
                let mut providers: Vec<String> = Vec::new();
                let mut models: StrMap<String> = StrMap::new();
                let mut i: usize = 0;
                while i < routes.len()
                    invariant
                        i <= routes@.len(),
                        strs(providers@) == route_providers(routes@.take(i as int)),
                        models@.map_values(|m: String| m@) == route_models(routes@.take(i as int)),
                    decreases routes@.len() - i,
                {
                    let ghost t = routes@.take(i + 1);
                    assert(t.drop_last() =~= routes@.take(i as int));
                    let ghost before_p = strs(providers@);
                    let ghost before_m = models@;
                    let p = routes[i].provider.clone();
                    providers.push(p);
                    assert(strs(providers@) =~= before_p.push(routes@[i as int].provider@));
                    assert(route_providers(t) =~= route_providers(routes@.take(i as int)).push(routes@[i as int].provider@));
                    let m = routes[i].model.clone();
                    let ghost mv = m@;
                    models.insert(routes[i].provider.clone(), m);
                    assert(models@.map_values(|x: String| x@) =~= before_m.map_values(|x: String| x@).insert(routes@[i as int].provider@, mv));
                    i = i + 1;
                }
                assert(routes@.take(routes@.len() as int) =~= routes@);
                ProviderSelectionCandidates { providers, selected_model: None, strategy, provider_models: models }
            },
            None => {
                match split_once_char(model.as_str(), ':') {
                    Some((p, m)) => {
                        let mut providers: Vec<String> = Vec::new();
                        providers.push(p.clone());
                        let mut models: StrMap<String> = StrMap::new();
                        let ghost mv = m@;
                        models.insert(p, m);
                        assert(strs(providers@) =~= seq![split_once_spec(model@, ':').unwrap().0]);
                        assert(models@.map_values(|x: String| x@) =~= Map::<Seq<char>, Seq<char>>::empty().insert(split_once_spec(model@, ':').unwrap().0, mv));
                        ProviderSelectionCandidates { providers, selected_model: Some(model.clone()), strategy, provider_models: models }
                    },
                    None => {
                        let providers = string_list(&["default"]);
                        let models: StrMap<String> = StrMap::new();
                        assert(strs(providers@) =~= seq!["default"@]);
                        assert(models@.map_values(|x: String| x@) =~= Map::<Seq<char>, Seq<char>>::empty());
                        ProviderSelectionCandidates { providers, selected_model: Some(model.clone()), strategy, provider_models: models }
                    },
                }
            },
        }
    }
}

} // verus!
