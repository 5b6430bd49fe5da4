//! Verified core of the aether AI gateway kernel: capability planning and
//! scheduling, the built-in capabilities, intent merging and routing
//! strategies, provider routes with retries, provider health, rate
//! limiting, the chat request flow and the Wasm plugin protocol.

pub mod auth;
pub mod capabilities;
pub mod config;
pub mod gateway;
pub mod kernel;
pub mod models;
pub mod plugins;
pub mod providers;
pub mod rate_limit;
pub mod runtime;
pub mod strmap;
pub mod text;
pub mod wasm;
