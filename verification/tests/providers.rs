use aether::capabilities::providers::ProviderRoutingCapability;
use aether::config::{
    AppConfig, AuthConfig, CapabilityConfig, LimitsConfig, ListenerConfig, ModelRoute, ObservabilityConfig,
    ProviderConfig, ProviderKind, RoutingConfig,
};
use aether::kernel::scoring::RoutingStrategy;
use aether::providers::{backoff_ms, chat_url, AttemptStep, ProviderError, ProviderRegistry};
use aether::strmap::StrMap;

fn route(provider: &str, model: &str) -> ModelRoute {
    ModelRoute { provider: provider.to_string(), model: model.to_string() }
}

fn config(providers: &[&str], aliases: Vec<(&str, Vec<ModelRoute>)>, retries: usize) -> AppConfig {
    let mut p = StrMap::new();
    for id in providers {
        p.insert(
            id.to_string(),
            ProviderConfig {
                kind: ProviderKind::OpenAiCompat,
                base_url: "http://localhost".to_string(),
                api_key: None,
                api_key_env: None,
                headers: StrMap::new(),
            },
        );
    }
    let mut a = StrMap::new();
    for (name, routes) in aliases {
        a.insert(name.to_string(), routes);
    }
    let mut limits = LimitsConfig::default();
    limits.retries = retries;
    AppConfig {
        listener: ListenerConfig { bind: "127.0.0.1:3000".to_string() },
        auth: AuthConfig::default(),
        limits,
        providers: p,
        model_aliases: a,
        plugins: vec![],
        capabilities: CapabilityConfig::default(),
        policies: vec![],
        observability: ObservabilityConfig::default(),
        routing: RoutingConfig::default(),
    }
}

#[test]
fn plan_uses_alias_routes_with_strategy() {
    let mut aliases = StrMap::new();
    aliases.insert("gpt".to_string(), vec![route("openai", "gpt-4o-mini"), route("local", "llama3")]);
    let capability = ProviderRoutingCapability::new(aliases, RoutingStrategy::Adaptive);
    let providers = capability.plan(&"gpt".to_string());
    assert_eq!(providers.providers, vec!["openai", "local"]);
    assert_eq!(providers.strategy.as_deref(), Some("adaptive"));
    assert_eq!(providers.provider_models.get("openai"), Some(&"gpt-4o-mini".to_string()));
}

#[test]
fn plans_provider_model_names_and_unknown_names() {
    let capability = ProviderRoutingCapability::new(StrMap::new(), RoutingStrategy::Cheapest);
    let c = capability.plan(&"anthropic:sonnet".to_string());
    assert_eq!(c.providers, vec!["anthropic"]);
    assert_eq!(c.selected_model.as_deref(), Some("anthropic:sonnet"));
    assert_eq!(c.provider_models.get("anthropic"), Some(&"sonnet".to_string()));
    assert_eq!(c.strategy.as_deref(), Some("cheapest"));
    let c = capability.plan(&"plain".to_string());
    assert_eq!(c.providers, vec!["default"]);
    assert_eq!(c.selected_model.as_deref(), Some("plain"));
}

#[test]
fn resolves_alias_route() {
    let cfg = config(&["openai"], vec![("gpt", vec![route("openai", "gpt-4o-mini")])], 2);
    let reg = ProviderRegistry::new(&cfg);
    let routes = match reg.routes_for("gpt") {
        Ok(r) => r,
        Err(_) => panic!("route"),
    };
    assert_eq!(routes[0].provider_id, "openai");
    assert_eq!(routes[0].model, "gpt-4o-mini");
}

#[test]
fn routes_provider_model_names_and_refuses_others() {
    let reg = ProviderRegistry::new(&config(&["local"], vec![], 0));
    let routes = match reg.routes_for("local:llama3:8b") {
        Ok(r) => r,
        Err(_) => panic!("route"),
    };
    assert_eq!(routes.len(), 1);
    assert_eq!(routes[0].provider_id, "local");
    assert_eq!(routes[0].model, "llama3:8b");
    match reg.routes_for("nothing") {
        Err(ProviderError::ModelNotConfigured { model }) => assert_eq!(model, "nothing"),
        _ => panic!("expected an unconfigured model"),
    }
}

#[test]
fn backoff_doubles_up_to_six_times() {
    let waits: Vec<u64> = (0..9).map(backoff_ms).collect();
    assert_eq!(waits, vec![50, 100, 200, 400, 800, 1600, 3200, 3200, 3200]);
}

#[test]
fn chat_urls_follow_the_provider_kind() {
    assert_eq!(chat_url(ProviderKind::OpenAiCompat, "http://x//"), "http://x/v1/chat/completions");
    assert_eq!(chat_url(ProviderKind::Anthropic, "https://api.anthropic.com"), "https://api.anthropic.com/v1/messages");
}

#[test]
fn attempts_retry_then_fall_back_then_give_up() {
    let cfg = config(&["a", "b"], vec![("m", vec![route("a", "x"), route("b", "y")])], 1);
    let reg = ProviderRegistry::new(&cfg);
    let mut attempts = match reg.attempts("m") {
        Ok(a) => a,
        Err(_) => panic!("attempts"),
    };
    let mut calls = Vec::new();
    let mut waits = Vec::new();
    loop {
        match reg.next_attempt(&attempts) {
            AttemptStep::Call { provider_id, model, attempt } => {
                calls.push((provider_id, model, attempt));
                if let Some(w) = attempts.record_failure() {
                    waits.push(w);
                }
            }
            AttemptStep::MissingProvider { .. } => panic!("every provider is configured"),
            AttemptStep::Exhausted { any_failure } => {
                assert!(any_failure);
                break;
            }
        }
    }
    assert_eq!(
        calls,
        vec![
            ("a".to_string(), "x".to_string(), 0),
            ("a".to_string(), "x".to_string(), 1),
            ("b".to_string(), "y".to_string(), 0),
            ("b".to_string(), "y".to_string(), 1),
        ]
    );
    assert_eq!(waits, vec![50, 50]);
}

#[test]
fn a_route_to_an_unknown_provider_is_reported() {
    let reg = ProviderRegistry::new(&config(&["a"], vec![], 0));
    let attempts = match reg.attempts("zzz:model") {
        Ok(a) => a,
        Err(_) => panic!("attempts"),
    };
    match reg.next_attempt(&attempts) {
        AttemptStep::MissingProvider { provider_id } => assert_eq!(provider_id, "zzz"),
        _ => panic!("expected a missing provider"),
    }
}
