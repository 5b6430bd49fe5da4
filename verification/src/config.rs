//! Gateway configuration: listener, keys, limits, providers, model aliases,
//! plugins, the capability pipeline, policies and routing.

use vstd::prelude::*;
use crate::kernel::manifest::strs;
use crate::strmap::StrMap;

verus! {

/// Where the gateway listens.
pub struct ListenerConfig {
    pub bind: String,
}

pub fn default_bind() -> (r: String)
    ensures
        r@ == "0.0.0.0:3000"@,
{
    String::from_str("0.0.0.0:3000")
}

/// The virtual API keys; none means every request is authorized.
pub struct AuthConfig {
    pub virtual_keys: Vec<String>,
}

impl Default for AuthConfig {
    fn default() -> (r: Self)
        ensures
            r.virtual_keys@.len() == 0,
    {
        AuthConfig { virtual_keys: Vec::new() }
    }
}

/// Request rates, retries and timeouts.
pub struct LimitsConfig {
    pub global_per_minute: u64,
    pub per_key_per_minute: u64,
    pub retries: usize,
    pub connect_timeout_ms: u64,
    pub total_timeout_ms: u64,
}

pub fn default_global() -> (r: u64)
    ensures
        r == 5000,
{
    5_000
}

pub fn default_per_key() -> (r: u64)
    ensures
        r == 500,
{
    500
}

pub fn default_retries() -> (r: usize)
    ensures
        r == 2,
{
    2
}

pub fn default_connect_timeout_ms() -> (r: u64)
    ensures
        r == 2500,
{
    2_500
}

pub fn default_total_timeout_ms() -> (r: u64)
    ensures
        r == 60000,
{
    60_000
}

impl Default for LimitsConfig {
    fn default() -> (r: Self)
        ensures
            r.global_per_minute == 5000,
            r.per_key_per_minute == 500,
            r.retries == 2,
            r.connect_timeout_ms == 2500,
            r.total_timeout_ms == 60000,
    {
        LimitsConfig {
            global_per_minute: default_global(),
            per_key_per_minute: default_per_key(),
            retries: default_retries(),
            connect_timeout_ms: default_connect_timeout_ms(),
            total_timeout_ms: default_total_timeout_ms(),
        }
    }
}

/// The wire protocol of a provider.
#[derive(Clone, Copy, PartialEq, Eq, Structural, Debug)]
pub enum ProviderKind {
    OpenAiCompat,
    Anthropic,
}

/// One upstream provider.
pub struct ProviderConfig {
    pub kind: ProviderKind,
    pub base_url: String,
    pub api_key: Option<String>,
    pub api_key_env: Option<String>,
    pub headers: StrMap<String>,
}

/// The API key to use: the value of the configured environment variable
/// when it is set and not empty, the configured key otherwise.
pub open spec fn resolved_key(api_key: Option<String>, api_key_env: Option<String>, env_value: Option<String>) -> Option<Seq<char>> {
    if api_key_env is Some && env_value is Some && env_value->0@.len() > 0 {
        Some(env_value->0@)
    } else {
        match api_key {
            Some(k) => Some(k@),
            None => None,
        }
    }
}

/// A set, non-empty value of the configured environment variable is the
/// key, whatever key the configuration holds; without one, the configured
/// key is used, and no key is found when none is configured.
pub proof fn lemma_environment_key_wins(api_key: Option<String>, api_key_env: Option<String>, env_value: Option<String>)
    ensures
        api_key_env is Some && env_value is Some && env_value->0@.len() > 0 ==> resolved_key(
            api_key,
            api_key_env,
            env_value,
        ) == Some(env_value->0@),
        !(api_key_env is Some && env_value is Some && env_value->0@.len() > 0) && api_key is Some ==> resolved_key(
            api_key,
            api_key_env,
            env_value,
        ) == Some(api_key->0@),
        !(api_key_env is Some && env_value is Some && env_value->0@.len() > 0) && api_key is None ==> resolved_key(
            api_key,
            api_key_env,
            env_value,
        ) is None,
{
}

impl ProviderConfig {
    /// Resolves the API key, given the value of the environment variable
    /// named by `api_key_env` (`None` when it is unset or not unicode).
    pub fn resolved_api_key(&self, env_value: Option<String>) -> (r: Option<String>)
        ensures
            match r {
                Some(k) => resolved_key(self.api_key, self.api_key_env, env_value) == Some(k@),
                None => resolved_key(self.api_key, self.api_key_env, env_value) is None,
            },
            self.api_key_env is Some && env_value is Some && env_value->0@.len() > 0 ==> r is Some && r->0@
                == env_value->0@,
            !(self.api_key_env is Some && env_value is Some && env_value->0@.len() > 0) ==> (r is Some
                <==> self.api_key is Some) && (r is Some ==> r->0@ == self.api_key->0@),
    {
        if self.api_key_env.is_some() {
            match env_value {
                Some(v) => {
                    if v.unicode_len() > 0 {
                        return Some(v);
                    }
                },
                None => {},
            }
        }
        match &self.api_key {
            Some(k) => Some(k.clone()),
            None => None,
        }
    }
}

/// A provider and the model name to send it.
pub struct ModelRoute {
    pub provider: String,
    pub model: String,
}

impl ModelRoute {
    pub fn duplicate(&self) -> (r: Self)
        ensures
            r.provider@ == self.provider@,
            r.model@ == self.model@,
    {
        ModelRoute { provider: self.provider.clone(), model: self.model.clone() }
    }
}

/// A Wasm plugin and its configuration, as JSON text.
pub struct PluginConfig {
    pub name: String,
    pub path: String,
    pub config: String,
}

/// The capability pipeline; an empty one runs every capability.
pub struct CapabilityConfig {
    pub pipeline: Vec<String>,
}

/// The default pipeline, in order.
pub open spec fn default_pipeline_names() -> Seq<Seq<char>> {
    seq![
        "identity"@,
        "policy"@,
        "budget_guard"@,
        "pii_filter"@,
        "semantic_router"@,
        "tool_mcp"@,
        "provider_router"@,
        "wasm"@,
    ]
}

pub fn default_capability_pipeline() -> (r: Vec<String>)
    ensures
        strs(r@) == default_pipeline_names(),
{
    let mut r: Vec<String> = Vec::new();
    r.push(String::from_str("identity"));
    r.push(String::from_str("policy"));
    r.push(String::from_str("budget_guard"));
    r.push(String::from_str("pii_filter"));
    r.push(String::from_str("semantic_router"));
    r.push(String::from_str("tool_mcp"));
    r.push(String::from_str("provider_router"));
    r.push(String::from_str("wasm"));
    assert(strs(r@) =~= default_pipeline_names());
    r
}

impl Default for CapabilityConfig {
    fn default() -> (r: Self)
        ensures
            strs(r.pipeline@) == default_pipeline_names(),
    {
        CapabilityConfig { pipeline: default_capability_pipeline() }
    }
}

/// A policy rule: when its conditions hold, deny some models or require
/// approval.
pub struct PolicyRule {
    pub name: String,
    pub when: StrMap<String>,
    pub deny: PolicyDeny,
    pub require_approval: bool,
}

/// Models a policy rule denies.
pub struct PolicyDeny {
    pub models: Vec<String>,
}

impl Default for PolicyDeny {
    fn default() -> (r: Self)
        ensures
            r.models@.len() == 0,
    {
        PolicyDeny { models: Vec::new() }
    }
}

/// Logging settings.
pub struct ObservabilityConfig {
    pub log_level: Option<String>,
}

impl Default for ObservabilityConfig {
    fn default() -> (r: Self)
        ensures
            r.log_level is None,
    {
        ObservabilityConfig { log_level: None }
    }
}

/// The routing strategy, by name.
pub struct RoutingConfig {
    pub strategy: String,
}

pub fn default_routing_strategy() -> (r: String)
    ensures
        r@ == "adaptive"@,
{
    String::from_str("adaptive")
}

impl Default for RoutingConfig {
    fn default() -> (r: Self)
        ensures
            r.strategy@ == "adaptive"@,
    {
        RoutingConfig { strategy: default_routing_strategy() }
    }
}

/// The whole gateway configuration.
pub struct AppConfig {
    pub listener: ListenerConfig,
    pub auth: AuthConfig,
    pub limits: LimitsConfig,
    pub providers: StrMap<ProviderConfig>,
    pub model_aliases: StrMap<Vec<ModelRoute>>,
    pub plugins: Vec<PluginConfig>,
    pub capabilities: CapabilityConfig,
    pub policies: Vec<PolicyRule>,
    pub observability: ObservabilityConfig,
    pub routing: RoutingConfig,
}

} // verus!
