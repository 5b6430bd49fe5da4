# aether

The kernel of an AI gateway, verified with Verus: capability manifests and
their dependency-aware execution plan, the scheduler that runs capabilities
over requests and responses, the built-in capabilities (identity, policy,
budget, guardrails, intent routing, tools, provider routing), the merge of
capability plans into an execution intent and the routing strategies, model
routes with retries and exponential backoff, provider health counters and
latency percentiles, fixed-window rate limiting, the request flow of the
chat completions endpoint, and the Wasm plugin protocol.

Layout:

- `src/` — the verified library. Each public function states its result in
  `ensures`; the laws of the library are public proof functions next to the
  functions they relate.
- `tests/` — tests of the library on concrete values.
- `app/` — the server around the library: HTTP with axum, provider calls
  with reqwest, Wasm plugins with wasmtime, Prometheus metrics, YAML
  configuration, and the floating-point provider scores and rates.
