//! The shared, read-only client configuration.

use vstd::prelude::*;

verus! {

/// A stored API-key credential: the key itself and an optional prefix
/// (such as a scheme name) placed before it on the wire.
pub struct ApiKey {
    pub prefix: Option<String>,
    pub key: String,
}

/// The shared client configuration: base URL, stored credentials and
/// user agent, constructed once per client and only ever borrowed during
/// execution. The transport that carries the assembled bytes is an
/// outside capability and lives with the surrounding program.
pub struct Configuration {
    pub base_path: String,
    pub user_agent: Option<String>,
    pub basic_auth: Option<(String, Option<String>)>,
    pub oauth_access_token: Option<String>,
    pub api_key: Option<ApiKey>,
}

} // verus!
