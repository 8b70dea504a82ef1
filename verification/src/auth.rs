//! Authentication selectors and credential formatting.
//!
//! A request carries only the shape of its credential requirement; the
//! secret material lives in the configuration and is resolved when the
//! request is assembled. A credential whose secret is not configured is
//! skipped silently — the server is the sole enforcement point.

use vstd::prelude::*;
use vstd::string::{StrSliceExecFns, StringExecFns};

use base64::Engine;

verus! {

use vstd::utf8::encode_utf8;

/// Selects an API-key credential: where it goes (header, query or both)
/// and under which parameter name.
pub struct ApiKey {
    pub in_header: bool,
    pub in_query: bool,
    pub param_name: String,
}

/// The value an API-key credential sends: the key alone, or the
/// configured prefix, a space, and the key.
pub open spec fn api_key_value(prefix: Option<Seq<char>>, key: Seq<char>) -> Seq<char> {
    match prefix {
        Some(p) => p + seq![' '] + key,
        None => key,
    }
}

impl ApiKey {
    /// Formats the credential value from the stored prefix and key.
    pub fn key(&self, prefix: &Option<String>, key: &str) -> (r: String)
        ensures
            r@ == api_key_value(prefix.deep_view(), key@),
    {
        match prefix {
            None => key.to_owned(),
            Some(p) => {
                let mut r: String = p.clone();
                r.append(" ");
                r.append(key);
                proof {
                    reveal_strlit(" ");
                    assert(" "@ =~= seq![' ']);
                }
                r
            },
        }
    }
}

/// The authentication selector carried by a request.
pub enum Auth {
    /// No credential is attached.
    Anonymous,
    /// An API key, sent as a header or a query parameter (or both).
    ApiKey(ApiKey),
    /// HTTP basic authentication from the configured username/password.
    Basic,
    /// An OAuth bearer token from the configuration.
    Oauth,
}

/// What the base64 encoder returns for a byte string: the standard
/// alphabet with `=` padding, a function of the bytes alone.
pub uninterp spec fn base64_of(s: Seq<u8>) -> Seq<char>;

/// Relies on base64's `STANDARD` engine (`Engine::encode`): the padded
/// standard-alphabet encoding of the input bytes, which depends on the
/// bytes alone; an empty input encodes to an empty string.
#[verifier::external_body]
fn base64_encode(input: &Vec<u8>) -> (r: String)
    ensures
        r@ == base64_of(input@),
        input@.len() == 0 ==> r@.len() == 0,
{
    base64::engine::general_purpose::STANDARD.encode(input)
}

/// `user` or `user:password`, the pair as sent for basic authentication.
pub open spec fn basic_userpass(user: Seq<char>, pass: Option<Seq<char>>) -> Seq<char> {
    match pass {
        Some(p) => user + seq![':'] + p,
        None => user,
    }
}

/// The `Authorization` value for basic authentication.
pub open spec fn basic_auth_value(user: Seq<char>, pass: Option<Seq<char>>) -> Seq<char> {
    "Basic "@ + base64_of(encode_utf8(basic_userpass(user, pass)))
}

/// Builds the basic `Authorization` value from the configured pair.
pub fn format_basic_auth(user: &String, pass: &Option<String>) -> (r: String)
    ensures
        r@ == basic_auth_value(user@, pass.deep_view()),
{
    let mut userpass: String = user.clone();
    match pass {
        Some(p) => {
            userpass.append(":");
            userpass.append(p.as_str());
            proof {
                reveal_strlit(":");
                assert(":"@ =~= seq![':']);
            }
        },
        None => {},
    }
    proof {
        assert(userpass@ == basic_userpass(user@, pass.deep_view()));
    }
    let bytes = userpass.as_str().as_bytes_vec();
    let b64 = base64_encode(&bytes);
    let mut r = String::from_str("Basic ");
    r.append(b64.as_str());
    r
}

/// The `Authorization` value for a bearer token.
pub open spec fn bearer_auth_value(token: Seq<char>) -> Seq<char> {
    "Bearer "@ + token
}

/// Builds the bearer `Authorization` value from the configured token.
pub fn format_bearer_auth(token: &String) -> (r: String)
    ensures
        r@ == bearer_auth_value(token@),
{
    let mut r = String::from_str("Bearer ");
    r.append(token.as_str());
    r
}

} // verus!
