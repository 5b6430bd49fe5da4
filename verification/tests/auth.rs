use aether::auth::{extract_bearer, is_authorized};
use aether::capabilities::auth::IdentityCapability;
use aether::config::AuthConfig;
use aether::kernel::capability::CapabilityResult;
use aether::kernel::context::Identity;
use aether::strmap::StrMap;

fn headers(pairs: &[(&str, &str)]) -> StrMap<String> {
    let mut map = StrMap::new();
    for (k, v) in pairs {
        map.insert(k.to_string(), v.to_string());
    }
    map
}

#[test]
fn validates_virtual_key() {
    let bearer = format!("{} {}", "Bearer", "rk_test");
    let headers = headers(&[("authorization", bearer.as_str())]);
    let auth = AuthConfig { virtual_keys: vec!["rk_test".to_string()] };
    assert!(is_authorized(&headers, &auth));
}

#[test]
fn refuses_unknown_or_missing_keys() {
    let auth = AuthConfig { virtual_keys: vec!["rk_test".to_string()] };
    assert!(!is_authorized(&headers(&[("authorization", "Bearer other")]), &auth));
    assert!(!is_authorized(&headers(&[]), &auth));
    assert!(!is_authorized(&headers(&[("authorization", "rk_test")]), &auth));
}

#[test]
fn no_configured_keys_admit_everyone() {
    let auth = AuthConfig { virtual_keys: vec![] };
    assert!(is_authorized(&headers(&[]), &auth));
}

#[test]
fn extracts_the_token_after_bearer() {
    assert_eq!(extract_bearer(&headers(&[("authorization", "Bearer abc def")])), Some("abc def".to_string()));
    assert_eq!(extract_bearer(&headers(&[("authorization", "Basic abc")])), None);
}

#[test]
fn identity_capability_refuses_with_401() {
    let cap = IdentityCapability::new(AuthConfig { virtual_keys: vec!["dev-key".to_string()] });
    let mut identity = Identity { api_key: None, authenticated: false, plan: "free".to_string() };
    let result = cap.on_request(&headers(&[]), &mut identity);
    match result {
        CapabilityResult::Fail { message, kind, status_code } => {
            assert_eq!(message, "unauthorized");
            assert_eq!(kind, "invalid_api_key");
            assert_eq!(status_code, 401);
        }
        _ => panic!("expected a failure"),
    }
    assert!(!identity.authenticated);
    assert_eq!(identity.plan, "free");

    let mut identity = Identity { api_key: None, authenticated: false, plan: "free".to_string() };
    let result = cap.on_request(&headers(&[("authorization", "Bearer dev-key")]), &mut identity);
    assert!(matches!(result, CapabilityResult::Continue));
    assert!(identity.authenticated);
    assert_eq!(identity.api_key, Some("dev-key".to_string()));
}
