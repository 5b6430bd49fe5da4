//! Virtual API keys: the bearer token of a request and whether it is
//! accepted.

use vstd::prelude::*;
use crate::config::AuthConfig;
use crate::kernel::manifest::{strs, strings_contain};
use crate::strmap::StrMap;
use crate::text::{has_prefix, strip_prefix_str};

verus! {

/// The bearer token of the `authorization` header, if it has one.
pub open spec fn bearer_token(headers: Map<Seq<char>, String>) -> Option<Seq<char>> {
    if headers.contains_key("authorization"@) && has_prefix(headers["authorization"@]@, "Bearer "@) {
        let v = headers["authorization"@]@;
        Some(v.subrange("Bearer "@.len() as int, v.len() as int))
    } else {
        None
    }
}

/// A request is authorized when no virtual keys are configured, or when its
/// bearer token is one of them.
pub open spec fn authorized(headers: Map<Seq<char>, String>, keys: Seq<String>) -> bool {
    keys.len() == 0 || (bearer_token(headers) is Some && strs(keys).contains(bearer_token(headers)->0))
}

/// The token after `Bearer ` in the `authorization` header. Header names
/// are the lower-case names of the HTTP request.
pub fn extract_bearer(headers: &StrMap<String>) -> (r: Option<String>)
    ensures
        match r {
            Some(t) => bearer_token(headers@) == Some(t@),
            None => bearer_token(headers@) is None,
        },
{
    match headers.get("authorization") {
        Some(value) => strip_prefix_str(value.as_str(), "Bearer "),
        None => None,
    }
}

/// Whether the request may pass.
pub fn is_authorized(headers: &StrMap<String>, auth: &AuthConfig) -> (r: bool)
    ensures
        r == authorized(headers@, auth.virtual_keys@),
{
    if auth.virtual_keys.len() == 0 {
        return true;
    }
    match extract_bearer(headers) {
        Some(key) => strings_contain(&auth.virtual_keys, key.as_str()),
        None => false,
    }
}

} // verus!
