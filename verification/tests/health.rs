use aether::providers::health::{HealthCounters, ObservedCall};

fn observation(latency_ms: u64) -> ObservedCall {
    ObservedCall {
        latency_ms,
        streamed: false,
        retries: 0,
        success: true,
        tokens: Some(100),
        error: None,
        http_status: Some(200),
    }
}

#[test]
fn updates_latency_percentiles_in_window() {
    let mut health = HealthCounters::new(5);
    for latency in [100, 120, 130, 400, 500] {
        health.observe(&observation(latency), 1_000);
    }
    assert_eq!(health.latency_p50, 130);
    assert_eq!(health.latency_p95, 500);
}

#[test]
fn tracks_failure_and_timeout_rates() {
    let mut health = HealthCounters::new(5);
    health.observe(&observation(120), 1_000);
    health.observe(
        &ObservedCall {
            latency_ms: 700,
            streamed: false,
            retries: 1,
            success: false,
            tokens: None,
            error: Some("request timeout".to_string()),
            http_status: Some(504),
        },
        2_000,
    );
    assert_eq!(health.sample_count, 2);
    assert_eq!(health.failure_count, 1);
    assert_eq!(health.timeout_count, 1);
    // The rates are floats and are computed outside the library, from these counters.
    let success_rate = (health.sample_count - health.failure_count) as f64 / health.sample_count as f64;
    let timeout_rate = health.timeout_count as f64 / health.sample_count as f64;
    assert_eq!(success_rate, 0.5);
    assert_eq!(timeout_rate, 0.5);
    assert_eq!(health.status_distribution.get(&504), Some(&1));
    assert!(health.last_failure.is_some());
}

#[test]
fn the_window_keeps_only_the_latest_latencies() {
    let mut health = HealthCounters::new(3);
    for latency in [900, 800, 10, 20, 30] {
        health.observe(&observation(latency), 0);
    }
    assert_eq!(health.latencies.iter().copied().collect::<Vec<u64>>(), vec![10, 20, 30]);
    assert_eq!(health.latency_p50, 20);
    assert_eq!(health.latency_p95, 30);
    assert_eq!(health.total_requests, 5);
    assert_eq!(health.observed_latency_ms, 1760);
    assert_eq!(health.observed_tokens, 500);
    assert_eq!(health.status_distribution.get(&200), Some(&5));
}

#[test]
fn percentiles_round_half_up() {
    let mut health = HealthCounters::new(16);
    for latency in [1, 2] {
        health.observe(&observation(latency), 0);
    }
    assert_eq!(health.latency_p50, 2);
    assert_eq!(health.latency_p95, 2);
    let mut health = HealthCounters::new(16);
    for latency in 1..=11u64 {
        health.observe(&observation(latency), 0);
    }
    assert_eq!(health.latency_p50, 6);
    assert_eq!(health.latency_p95, 11);
}

#[test]
fn timeouts_are_found_in_any_case() {
    let mut health = HealthCounters::new(4);
    let mut call = observation(5);
    call.success = false;
    call.streamed = true;
    call.error = Some("Upstream TIMEOUT".to_string());
    health.observe(&call, 42);
    assert_eq!(health.timeout_count, 1);
    assert_eq!(health.stream_count, 1);
    assert_eq!(health.last_failure, Some(42));
    call.error = Some("connection reset".to_string());
    health.observe(&call, 43);
    assert_eq!(health.timeout_count, 1);
    assert_eq!(health.failure_count, 2);
}
