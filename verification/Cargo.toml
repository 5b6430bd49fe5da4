[package]
name = "aether"
version = "0.1.0"
edition = "2021"
publish = false

[dependencies]
dashmap = "=6.2.1"
anyhow = "=1.0.104"
axum = "=0.8.9"
bytes = "=1.12.1"
futures = "=0.3.34"
prometheus = { version = "=0.14.0", default-features = false }
reqwest = { version = "=0.12.28", default-features = false, features = ["json", "stream", "rustls-tls"] }
serde = { version = "=1.0.229", features = ["derive"] }
serde_json = "=1.0.154"
serde_yaml = "=0.9.34"
tokio = { version = "=1.54.1", features = ["macros", "rt-multi-thread", "net", "time"] }
tracing = "=0.1.44"
tracing-subscriber = { version = "=0.3.23", features = ["json", "env-filter"] }
uuid = { version = "=1.29.0", features = ["v4"] }
wasmtime = { version = "=46.0.3", default-features = false, features = ["cranelift", "runtime", "std"] }
