//! The identity capability: authenticates the caller by virtual key.

use vstd::prelude::*;
use crate::auth::{authorized, bearer_token, extract_bearer, is_authorized};
use crate::config::AuthConfig;
use crate::kernel::capability::CapabilityResult;
use crate::kernel::context::Identity;
use crate::kernel::manifest::{CapabilityManifest, string_list, strs};
use crate::strmap::StrMap;

verus! {

/// Authenticates requests against the configured virtual keys.
pub struct IdentityCapability {
    pub auth: AuthConfig,
}

impl IdentityCapability {
    pub fn new(auth: AuthConfig) -> (r: Self)
        ensures
            r.auth == auth,
    {
        IdentityCapability { auth }
    }

    pub fn id(&self) -> (r: &'static str)
        ensures
            r@ == "identity"@,
    {
        "identity"
    }

    pub fn version(&self) -> (r: &'static str)
        ensures
            r@ == "v1"@,
    {
        "v1"
    }

    /// Provides `identity` and reads the caller's identity.
    pub fn manifest(&self) -> (m: CapabilityManifest)
        ensures
            m.id@ == "identity"@,
            m.version@ == "v1"@,
            strs(m.provides@) == seq!["identity"@],
            m.requires@.len() == 0,
            m.before@.len() == 0,
            m.after@.len() == 0,
            strs(m.tags@) == seq!["identity"@],
            strs(m.permissions@) == seq!["identity.read"@],
            m.cost == 1,
    {
        let m = CapabilityManifest {
            id: String::from_str(self.id()),
            version: String::from_str(self.version()),
            provides: string_list(&["identity"]),
            requires: Vec::new(),
            before: Vec::new(),
            after: Vec::new(),
            tags: string_list(&["identity"]),
            permissions: string_list(&["identity.read"]),
            cost: 1,
        };
        assert(strs(m.provides@) =~= seq!["identity"@]);
        assert(strs(m.tags@) =~= seq!["identity"@]);
        assert(strs(m.permissions@) =~= seq!["identity.read"@]);
        m
    }

    /// Records the caller's key and whether it is authorized; an
    /// unauthorized request is refused with 401.
    pub fn on_request(&self, headers: &StrMap<String>, identity: &mut Identity) -> (r: CapabilityResult)
        ensures
            match final(identity).api_key {
                Some(k) => bearer_token(headers@) == Some(k@),
                None => bearer_token(headers@) is None,
            },
            final(identity).authenticated == authorized(headers@, self.auth.virtual_keys@),
            final(identity).plan == old(identity).plan,
            if final(identity).authenticated {
                r is Continue
            } else {
                r matches CapabilityResult::Fail { message, kind, status_code }
                    && message@ == "unauthorized"@ && kind@ == "invalid_api_key"@ && status_code == 401
            },
    {
        identity.api_key = extract_bearer(headers);
        identity.authenticated = is_authorized(headers, &self.auth);
        if !identity.authenticated {
            return CapabilityResult::Fail {
                message: String::from_str("unauthorized"),
                kind: String::from_str("invalid_api_key"),
                status_code: 401,
            };
        }
        CapabilityResult::Continue
    }
}

} // verus!
