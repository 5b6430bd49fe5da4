use aether::plugins::{keyword_guardrail_blocks, keyword_guardrail_rejects_lowered, pack_output, unpack_output, BodySource, ChainStep, HookOutcome, PluginChain};

#[test]
fn packed_results_unpack_to_pointer_and_length() {
    let packed = pack_output(4096, 17);
    assert_eq!(packed, (4096i64 << 32) | 17);
    assert_eq!(unpack_output(packed), Some((4096, 17)));
    assert_eq!(unpack_output(-1), None);
    assert_eq!(unpack_output(0x0000_0001_8000_0000), None);
}

#[test]
fn a_chain_passes_the_latest_body_along() {
    let (mut chain, step) = PluginChain::start(3);
    assert_eq!(step, ChainStep::Invoke { plugin: 0, payload: BodySource::Input });
    let step = chain.record(HookOutcome { allow: true, has_body: true });
    assert_eq!(step, ChainStep::Invoke { plugin: 1, payload: BodySource::Plugin(0) });
    let step = chain.record(HookOutcome { allow: true, has_body: false });
    assert_eq!(step, ChainStep::Invoke { plugin: 2, payload: BodySource::Plugin(0) });
    let step = chain.record(HookOutcome { allow: true, has_body: true });
    assert_eq!(step, ChainStep::Allowed { body: BodySource::Plugin(2) });
}

#[test]
fn a_rejection_ends_the_chain() {
    let (mut chain, _) = PluginChain::start(3);
    chain.record(HookOutcome { allow: true, has_body: false });
    let step = chain.record(HookOutcome { allow: false, has_body: true });
    assert_eq!(step, ChainStep::Rejected { plugin: 1 });
    let (_, step) = PluginChain::start(0);
    assert_eq!(step, ChainStep::Allowed { body: BodySource::Input });
}

#[test]
fn the_keyword_guardrail_blocks_requests_only() {
    assert!(keyword_guardrail_blocks("on_request", "{\"text\":\"my PASSWORD is\"}"));
    assert!(keyword_guardrail_blocks("on_request", "Credit Card number"));
    assert!(!keyword_guardrail_blocks("on_response", "password"));
    assert!(!keyword_guardrail_blocks("on_request", "hello"));
}

#[test]
fn the_keyword_rule_reads_lowered_text() {
    assert!(keyword_guardrail_rejects_lowered("on_request", "my password"));
    assert!(!keyword_guardrail_rejects_lowered("on_request", "my PASSWORD"));
    assert!(!keyword_guardrail_rejects_lowered("on_auth", "credit card"));
}
