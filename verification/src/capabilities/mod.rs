pub mod auth;
pub mod budget;
pub mod guardrails;
pub mod policy;
pub mod providers;
pub mod routing;
pub mod tools;
