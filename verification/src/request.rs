//! The request builder and its assembly into wire form.
//!
//! A `Request` accumulates everything one HTTP call needs; `assemble`
//! consumes it together with a configuration and produces the concrete
//! method, URI, header list and body. Assembly is pure: path
//! substitution, query encoding, credential formatting and body
//! selection, in that order, with no I/O; dispatching the result is the
//! surrounding program's affair.

use vstd::prelude::*;
use vstd::string::StrSliceExecFns;

verus! {

use vstd::utf8::encode_utf8;

use crate::ascii::{DIGIT_0, QUESTION};
use crate::auth::{api_key_value, basic_auth_value, bearer_auth_value, format_basic_auth,
    format_bearer_auth, ApiKey, Auth};
use crate::config::Configuration;
use crate::encode::{enc_pairs, encode_form_pairs, lemma_enc_pairs_nonempty, pairs_view};
use crate::error::Error;
use crate::method::Method;
use crate::params::{lemma_param_map_canonical, lemma_wf_lookup, ParamMap};
use crate::template::{append_range, subst, substitute};

/// Whether hyper parses these bytes as a URI.
pub uninterp spec fn uri_parses(s: Seq<u8>) -> bool;

/// Relies on hyper's `Uri` (its `TryFrom<&[u8]>` parse): whether the
/// assembled reference parses as a URI, which depends on the bytes
/// alone; on failure the parse error's text is handed back.
#[verifier::external_body]
fn check_uri(bytes: &Vec<u8>) -> (r: Result<(), String>)
    ensures
        r is Ok <==> uri_parses(bytes@),
{
    match hyper::Uri::try_from(bytes.as_slice()) {
        Ok(_) => Ok(()),
        Err(e) => Err(format!("{}", e)),
    }
}

/// A fully assembled request, ready to hand to a transport.
pub struct AssembledRequest {
    pub method: Method,
    pub uri: Vec<u8>,
    pub headers: Vec<(Vec<u8>, Vec<u8>)>,
    pub body: Vec<u8>,
    pub no_return_type: bool,
}

/// One pending HTTP request: method and path template fixed at
/// construction, parameters and credential selector accumulated by the
/// caller, consumed whole by `assemble`.
pub struct Request {
    auth: Auth,
    method: Method,
    path: String,
    query_params: ParamMap,
    path_params: ParamMap,
    form_params: ParamMap,
    header_params: ParamMap,
    serialized_body: Option<Vec<u8>>,
    no_return_type: bool,
}

impl Request {
    /// The HTTP verb.
    pub closed spec fn spec_method(&self) -> Method {
        self.method
    }

    /// The path template, with `{name}` placeholders.
    pub closed spec fn spec_path(&self) -> Seq<char> {
        self.path@
    }

    /// The authentication selector.
    pub closed spec fn spec_auth(&self) -> Auth {
        self.auth
    }

    /// The query parameter mapping.
    pub closed spec fn spec_query(&self) -> ParamMap {
        self.query_params
    }

    /// The path parameter mapping.
    pub closed spec fn spec_path_params(&self) -> ParamMap {
        self.path_params
    }

    /// The form parameter mapping.
    pub closed spec fn spec_form(&self) -> ParamMap {
        self.form_params
    }

    /// The header parameter mapping.
    pub closed spec fn spec_headers(&self) -> ParamMap {
        self.header_params
    }

    /// The eagerly serialized body, if one was attached.
    pub closed spec fn spec_body(&self) -> Option<Seq<u8>> {
        match self.serialized_body {
            Some(b) => Some(b@),
            None => None,
        }
    }

    /// Whether a successful response carries no meaningful body.
    pub closed spec fn spec_no_return_type(&self) -> bool {
        self.no_return_type
    }

    /// All four parameter mappings well-formed.
    pub open spec fn wf(&self) -> bool {
        self.spec_query().wf() && self.spec_path_params().wf() && self.spec_form().wf()
            && self.spec_headers().wf()
    }

    /// An empty builder: no parameters, no body, no credential, and a
    /// meaningful response body expected.
    pub fn new(method: Method, path: String) -> (r: Request)
        ensures
            r.wf(),
            r.spec_method() == method,
            r.spec_path() == path@,
            r.spec_auth() matches Auth::Anonymous,
            r.spec_query().pairs() == Seq::<(Seq<u8>, Seq<u8>)>::empty(),
            r.spec_path_params().pairs() == Seq::<(Seq<u8>, Seq<u8>)>::empty(),
            r.spec_form().pairs() == Seq::<(Seq<u8>, Seq<u8>)>::empty(),
            r.spec_headers().pairs() == Seq::<(Seq<u8>, Seq<u8>)>::empty(),
            r.spec_body() is None,
            !r.spec_no_return_type(),
    {
        Request {
            auth: Auth::Anonymous,
            method,
            path,
            query_params: ParamMap::new(),
            path_params: ParamMap::new(),
            form_params: ParamMap::new(),
            header_params: ParamMap::new(),
            serialized_body: None,
            no_return_type: false,
        }
    }

    /// Sets a query parameter; a later write to the same name wins.
    pub fn with_query_param(self, basename: String, param: String) -> (r: Request)
        requires
            self.wf(),
        ensures
            r.wf(),
            r.spec_query().as_map() == self.spec_query().as_map().insert(
                encode_utf8(basename@),
                encode_utf8(param@),
            ),
            r.spec_path_params() == self.spec_path_params(),
            r.spec_form() == self.spec_form(),
            r.spec_headers() == self.spec_headers(),
            r.spec_method() == self.spec_method(),
            r.spec_path() == self.spec_path(),
            r.spec_auth() == self.spec_auth(),
            r.spec_body() == self.spec_body(),
            r.spec_no_return_type() == self.spec_no_return_type(),
    {
        let mut r = self;
        r.query_params.insert(basename.as_str().as_bytes_vec(), param.as_str().as_bytes_vec());
        r
    }

    /// Sets a path parameter; a later write to the same name wins.
    pub fn with_path_param(self, basename: String, param: String) -> (r: Request)
        requires
            self.wf(),
        ensures
            r.wf(),
            r.spec_path_params().as_map() == self.spec_path_params().as_map().insert(
                encode_utf8(basename@),
                encode_utf8(param@),
            ),
            r.spec_query() == self.spec_query(),
            r.spec_form() == self.spec_form(),
            r.spec_headers() == self.spec_headers(),
            r.spec_method() == self.spec_method(),
            r.spec_path() == self.spec_path(),
            r.spec_auth() == self.spec_auth(),
            r.spec_body() == self.spec_body(),
            r.spec_no_return_type() == self.spec_no_return_type(),
    {
        let mut r = self;
        r.path_params.insert(basename.as_str().as_bytes_vec(), param.as_str().as_bytes_vec());
        r
    }

    /// Sets a form parameter; a later write to the same name wins.
    pub fn with_form_param(self, basename: String, param: String) -> (r: Request)
        requires
            self.wf(),
        ensures
            r.wf(),
            r.spec_form().as_map() == self.spec_form().as_map().insert(
                encode_utf8(basename@),
                encode_utf8(param@),
            ),
            r.spec_query() == self.spec_query(),
            r.spec_path_params() == self.spec_path_params(),
            r.spec_headers() == self.spec_headers(),
            r.spec_method() == self.spec_method(),
            r.spec_path() == self.spec_path(),
            r.spec_auth() == self.spec_auth(),
            r.spec_body() == self.spec_body(),
            r.spec_no_return_type() == self.spec_no_return_type(),
    {
        let mut r = self;
        r.form_params.insert(basename.as_str().as_bytes_vec(), param.as_str().as_bytes_vec());
        r
    }

    /// Sets a header parameter; a later write to the same name wins.
    pub fn with_header_param(self, basename: String, param: String) -> (r: Request)
        requires
            self.wf(),
        ensures
            r.wf(),
            r.spec_headers().as_map() == self.spec_headers().as_map().insert(
                encode_utf8(basename@),
                encode_utf8(param@),
            ),
            r.spec_query() == self.spec_query(),
            r.spec_path_params() == self.spec_path_params(),
            r.spec_form() == self.spec_form(),
            r.spec_method() == self.spec_method(),
            r.spec_path() == self.spec_path(),
            r.spec_auth() == self.spec_auth(),
            r.spec_body() == self.spec_body(),
            r.spec_no_return_type() == self.spec_no_return_type(),
    {
        let mut r = self;
        r.header_params.insert(basename.as_str().as_bytes_vec(), param.as_str().as_bytes_vec());
        r
    }

    /// Attaches an already-serialized body; a second body overwrites the
    /// first silently.
    pub fn with_serialized_body(self, body: Vec<u8>) -> (r: Request)
        requires
            self.wf(),
        ensures
            r.wf(),
            r.spec_body() == Some(body@),
            r.spec_query() == self.spec_query(),
            r.spec_path_params() == self.spec_path_params(),
            r.spec_form() == self.spec_form(),
            r.spec_headers() == self.spec_headers(),
            r.spec_method() == self.spec_method(),
            r.spec_path() == self.spec_path(),
            r.spec_auth() == self.spec_auth(),
            r.spec_no_return_type() == self.spec_no_return_type(),
    {
        let mut r = self;
        r.serialized_body = Some(body);
        r
    }

    /// Serializes `param` eagerly — at attach time, not at assembly —
    /// and attaches the result as the body; a second body overwrites
    /// the first silently. Fails only if serialization itself fails.
    pub fn with_body_param<T: serde::Serialize>(self, param: &T) -> (r: Result<Request, Error>)
        requires
            self.wf(),
        ensures
            r matches Ok(b) ==> b.wf() && b.spec_body() is Some && b.spec_query()
                == self.spec_query() && b.spec_path_params() == self.spec_path_params()
                && b.spec_form() == self.spec_form() && b.spec_headers() == self.spec_headers()
                && b.spec_method() == self.spec_method() && b.spec_path() == self.spec_path()
                && b.spec_auth() == self.spec_auth() && b.spec_no_return_type()
                == self.spec_no_return_type(),
            r matches Err(e) ==> e matches Error::SerializeError(_),
    {
        match to_json_bytes(param) {
            Ok(bytes) => Ok(self.with_serialized_body(bytes)),
            Err(msg) => Err(Error::SerializeError(msg)),
        }
    }

    /// Marks that a successful response has no meaningful body; this
    /// affects only decoding, never the outgoing request.
    pub fn returns_nothing(self) -> (r: Request)
        requires
            self.wf(),
        ensures
            r.wf(),
            r.spec_no_return_type(),
            r.spec_query() == self.spec_query(),
            r.spec_path_params() == self.spec_path_params(),
            r.spec_form() == self.spec_form(),
            r.spec_headers() == self.spec_headers(),
            r.spec_method() == self.spec_method(),
            r.spec_path() == self.spec_path(),
            r.spec_auth() == self.spec_auth(),
            r.spec_body() == self.spec_body(),
    {
        let mut r = self;
        r.no_return_type = true;
        r
    }

    /// Assembles the request against `conf`: substitutes the path,
    /// encodes the query, injects the credential, places the user
    /// agent, picks the body, and checks the assembled reference, in
    /// that order. Fails exactly when the reference is not a URI.
    #[verifier::loop_isolation(false)]
    pub fn assemble(self, conf: &Configuration) -> (r: Result<AssembledRequest, Error>)
        requires
            self.wf(),
        ensures
            r is Ok <==> uri_parses(spec_uri(&self, conf)),
            r matches Ok(a) ==> a.method == self.spec_method() && a.uri@ == spec_uri(&self, conf)
                && pairs_view(a.headers@) == spec_headers_sent(&self, conf) && a.body@
                == spec_body_bytes(&self) && a.no_return_type == self.spec_no_return_type(),
            r matches Err(e) ==> e matches Error::UriError(_),
    {
        let ghost gself = self;
        // path substitution
        let path_bytes = self.path.as_str().as_bytes_vec();
        let sub_path = substitute(&path_bytes, &self.path_params);
        // header parameters, verbatim, in canonical order
        let mut headers: Vec<(Vec<u8>, Vec<u8>)> = Vec::new();
        let hentries = self.header_params.entries();
        let mut i: usize = 0;
        proof {
            assert(pairs_view(headers@) =~= gself.spec_headers().pairs().take(0));
        }
        while i < hentries.len()
            invariant
                i <= hentries@.len(),
                pairs_view(headers@) == gself.spec_headers().pairs().take(i as int),
            decreases hentries@.len() - i,
        {
            headers.push((hentries[i].0.clone(), hentries[i].1.clone()));
            i += 1;
            proof {
                assert(pairs_view(headers@) =~= gself.spec_headers().pairs().take(i as int));
            }
        }
        proof {
            assert(gself.spec_headers().pairs().take(hentries@.len() as int) =~= gself
                .spec_headers()
                .pairs());
        }
        // query parameters, canonical order
        let mut qpairs: Vec<(Vec<u8>, Vec<u8>)> = Vec::new();
        let qentries = self.query_params.entries();
        let mut j: usize = 0;
        proof {
            assert(pairs_view(qpairs@) =~= gself.spec_query().pairs().take(0));
        }
        while j < qentries.len()
            invariant
                j <= qentries@.len(),
                pairs_view(qpairs@) == gself.spec_query().pairs().take(j as int),
            decreases qentries@.len() - j,
        {
            qpairs.push((qentries[j].0.clone(), qentries[j].1.clone()));
            j += 1;
            proof {
                assert(pairs_view(qpairs@) =~= gself.spec_query().pairs().take(j as int));
            }
        }
        proof {
            assert(gself.spec_query().pairs().take(qentries@.len() as int) =~= gself
                .spec_query()
                .pairs());
        }
        // credential injection; a missing secret is skipped silently
        match &self.auth {
            Auth::Anonymous => {
                proof {
                    assert(pairs_view(qpairs@) =~= spec_query_pairs(&gself, conf));
                    assert(pairs_view(headers@) =~= gself.spec_headers().pairs()
                        + spec_auth_headers(&gself, conf));
                }
            },
            Auth::ApiKey(sel) => {
                match &conf.api_key {
                    Some(k) => {
                        let val = sel.key(&k.prefix, k.key.as_str());
                        if sel.in_query {
                            qpairs.push(
                                (sel.param_name.as_str().as_bytes_vec(), val.as_str()
                                    .as_bytes_vec()),
                            );
                        }
                        if sel.in_header {
                            headers.push(
                                (sel.param_name.as_str().as_bytes_vec(), val.as_str()
                                    .as_bytes_vec()),
                            );
                        }
                        proof {
                            assert(pairs_view(qpairs@) =~= spec_query_pairs(&gself, conf));
                            assert(pairs_view(headers@) =~= gself.spec_headers().pairs()
                                + spec_auth_headers(&gself, conf));
                        }
                    },
                    None => {
                        proof {
                            assert(pairs_view(qpairs@) =~= spec_query_pairs(&gself, conf));
                            assert(pairs_view(headers@) =~= gself.spec_headers().pairs()
                                + spec_auth_headers(&gself, conf));
                        }
                    },
                }
            },
            Auth::Basic => {
                match &conf.basic_auth {
                    Some(cred) => {
                        let v = format_basic_auth(&cred.0, &cred.1);
                        headers.push(("Authorization".as_bytes_vec(), v.as_str().as_bytes_vec()));
                    },
                    None => {},
                }
                proof {
                    assert(pairs_view(qpairs@) =~= spec_query_pairs(&gself, conf));
                    assert(pairs_view(headers@) =~= gself.spec_headers().pairs()
                        + spec_auth_headers(&gself, conf));
                }
            },
            Auth::Oauth => {
                match &conf.oauth_access_token {
                    Some(t) => {
                        let v = format_bearer_auth(t);
                        headers.push(("Authorization".as_bytes_vec(), v.as_str().as_bytes_vec()));
                    },
                    None => {},
                }
                proof {
                    assert(pairs_view(qpairs@) =~= spec_query_pairs(&gself, conf));
                    assert(pairs_view(headers@) =~= gself.spec_headers().pairs()
                        + spec_auth_headers(&gself, conf));
                }
            },
        }
        // user agent: after the credential, never clobbering the caller's
        match &conf.user_agent {
            Some(ua) => {
                let ua_key = "User-Agent".as_bytes_vec();
                let already = match self.header_params.get(&ua_key) {
                    Some(_) => true,
                    None => false,
                };
                if !already {
                    headers.push((ua_key, ua.as_str().as_bytes_vec()));
                }
                proof {
                    assert(pairs_view(headers@) =~= gself.spec_headers().pairs()
                        + spec_auth_headers(&gself, conf) + spec_user_agent_headers(
                        &gself,
                        conf,
                    ));
                }
            },
            None => {
                proof {
                    assert(pairs_view(headers@) =~= gself.spec_headers().pairs()
                        + spec_auth_headers(&gself, conf) + spec_user_agent_headers(
                        &gself,
                        conf,
                    ));
                }
            },
        }
        // body selection: non-empty form parameters win over a serialized body
        let form_empty = self.form_params.is_empty();
        let body: Vec<u8>;
        if !form_empty {
            headers.push(
                ("Content-Type".as_bytes_vec(), "application/x-www-form-urlencoded"
                    .as_bytes_vec()),
            );
            body = encode_form_pairs(self.form_params.entries());
        } else {
            match self.serialized_body {
                Some(b) => {
                    headers.push(
                        ("Content-Type".as_bytes_vec(), "application/json".as_bytes_vec()),
                    );
                    let digits = u64_digits(b.len() as u64);
                    headers.push(("Content-Length".as_bytes_vec(), digits));
                    body = b;
                },
                None => {
                    body = Vec::new();
                },
            }
        }
        proof {
            assert(pairs_view(headers@) =~= spec_headers_sent(&gself, conf));
            assert(body@ =~= spec_body_bytes(&gself));
        }
        // the reference: base path, substituted path, query
        let mut uri = conf.base_path.as_str().as_bytes_vec();
        append_range(&mut uri, &sub_path, 0, sub_path.len());
        proof {
            assert(sub_path@.subrange(0, sub_path@.len() as int) =~= sub_path@);
        }
        if qpairs.len() > 0 {
            uri.push(QUESTION);
            let qs = encode_form_pairs(&qpairs);
            append_range(&mut uri, &qs, 0, qs.len());
            proof {
                assert(qs@.subrange(0, qs@.len() as int) =~= qs@);
                lemma_enc_pairs_nonempty(spec_query_pairs(&gself, conf));
                assert(uri@ =~= spec_uri(&gself, conf));
            }
        } else {
            proof {
                assert(uri@ =~= spec_uri(&gself, conf));
            }
        }
        match check_uri(&uri) {
            Ok(_) => Ok(
                AssembledRequest {
                    method: self.method,
                    uri,
                    headers,
                    body,
                    no_return_type: self.no_return_type,
                },
            ),
            Err(msg) => Err(Error::UriError(msg)),
        }
    }

    /// Selects the authentication shape; the default is none.
    pub fn with_auth(self, auth: Auth) -> (r: Request)
        requires
            self.wf(),
        ensures
            r.wf(),
            r.spec_auth() == auth,
            r.spec_query() == self.spec_query(),
            r.spec_path_params() == self.spec_path_params(),
            r.spec_form() == self.spec_form(),
            r.spec_headers() == self.spec_headers(),
            r.spec_method() == self.spec_method(),
            r.spec_path() == self.spec_path(),
            r.spec_body() == self.spec_body(),
            r.spec_no_return_type() == self.spec_no_return_type(),
    {
        let mut r = self;
        r.auth = auth;
        r
    }
}

/// Relies on serde_json::to_vec: serializes any `Serialize` value to
/// JSON text; a failure is handed back as the error's text.
#[verifier::external_body]
fn to_json_bytes<T: serde::Serialize>(value: &T) -> (r: Result<Vec<u8>, String>) {
    match serde_json::to_vec(value) {
        Ok(v) => Ok(v),
        Err(e) => Err(format!("{}", e)),
    }
}

/// The query pairs sent: the query parameters in canonical order, then
/// the API-key pair when the selector asks for query placement and a
/// key is configured.
pub open spec fn spec_query_pairs(r: &Request, c: &Configuration) -> Seq<(Seq<u8>, Seq<u8>)> {
    r.spec_query().pairs() + (match r.spec_auth() {
        Auth::ApiKey(sel) => match c.api_key {
            Some(k) => if sel.in_query {
                seq![
                    (
                        encode_utf8(sel.param_name@),
                        encode_utf8(api_key_value(k.prefix.deep_view(), k.key@)),
                    ),
                ]
            } else {
                Seq::empty()
            },
            None => Seq::empty(),
        },
        _ => Seq::empty(),
    })
}

/// The credential header, when the selector and the configuration
/// together yield one; a missing credential is silently skipped.
pub open spec fn spec_auth_headers(r: &Request, c: &Configuration) -> Seq<(Seq<u8>, Seq<u8>)> {
    match r.spec_auth() {
        Auth::Anonymous => Seq::empty(),
        Auth::ApiKey(sel) => match c.api_key {
            Some(k) => if sel.in_header {
                seq![
                    (
                        encode_utf8(sel.param_name@),
                        encode_utf8(api_key_value(k.prefix.deep_view(), k.key@)),
                    ),
                ]
            } else {
                Seq::empty()
            },
            None => Seq::empty(),
        },
        Auth::Basic => match c.basic_auth {
            Some(cred) => seq![
                (
                    encode_utf8("Authorization"@),
                    encode_utf8(basic_auth_value(cred.0@, cred.1.deep_view())),
                ),
            ],
            None => Seq::empty(),
        },
        Auth::Oauth => match c.oauth_access_token {
            Some(t) => seq![
                (encode_utf8("Authorization"@), encode_utf8(bearer_auth_value(t@))),
            ],
            None => Seq::empty(),
        },
    }
}

/// The configured user agent, sent after the credential header, unless
/// the caller already set a `User-Agent` header parameter.
pub open spec fn spec_user_agent_headers(r: &Request, c: &Configuration) -> Seq<
    (Seq<u8>, Seq<u8>),
> {
    match c.user_agent {
        Some(ua) => if r.spec_headers().as_map().contains_key(encode_utf8("User-Agent"@)) {
            Seq::empty()
        } else {
            seq![(encode_utf8("User-Agent"@), encode_utf8(ua@))]
        },
        None => Seq::empty(),
    }
}

/// The body selection: non-empty form parameters win over an attached
/// serialized body, which wins over the empty body.
pub open spec fn spec_body_bytes(r: &Request) -> Seq<u8> {
    if r.spec_form().pairs().len() > 0 {
        enc_pairs(r.spec_form().pairs())
    } else {
        match r.spec_body() {
            Some(b) => b,
            None => Seq::empty(),
        }
    }
}

/// Decimal digits of `n`.
pub open spec fn dec_rep(n: nat) -> Seq<u8>
    decreases n,
{
    if n < 10 {
        seq![(DIGIT_0 + n) as u8]
    } else {
        dec_rep(n / 10).push((DIGIT_0 + (n % 10)) as u8)
    }
}

/// The content headers chosen with the body.
pub open spec fn spec_content_headers(r: &Request) -> Seq<(Seq<u8>, Seq<u8>)> {
    if r.spec_form().pairs().len() > 0 {
        seq![
            (
                encode_utf8("Content-Type"@),
                encode_utf8("application/x-www-form-urlencoded"@),
            ),
        ]
    } else {
        match r.spec_body() {
            Some(b) => seq![
                (encode_utf8("Content-Type"@), encode_utf8("application/json"@)),
                (encode_utf8("Content-Length"@), dec_rep(b.len())),
            ],
            None => Seq::empty(),
        }
    }
}

/// The full header list, in order: header parameters, credential
/// header, user agent, content headers.
pub open spec fn spec_headers_sent(r: &Request, c: &Configuration) -> Seq<(Seq<u8>, Seq<u8>)> {
    r.spec_headers().pairs() + spec_auth_headers(r, c) + spec_user_agent_headers(r, c)
        + spec_content_headers(r)
}

/// The request reference: base path, then the substituted path, then
/// `?` and the encoded query pairs when there are any.
pub open spec fn spec_uri(r: &Request, c: &Configuration) -> Seq<u8> {
    encode_utf8(c.base_path@) + subst(encode_utf8(r.spec_path()), r.spec_path_params().as_map())
        + (if spec_query_pairs(r, c).len() == 0 {
        Seq::<u8>::empty()
    } else {
        seq![QUESTION] + enc_pairs(spec_query_pairs(r, c))
    })
}

/// How many headers of `hs` carry the name `k`.
pub open spec fn count_name(hs: Seq<(Seq<u8>, Seq<u8>)>, k: Seq<u8>) -> nat
    decreases hs.len(),
{
    if hs.len() == 0 {
        0
    } else {
        (if hs[0].0 == k {
            1nat
        } else {
            0nat
        }) + count_name(hs.skip(1), k)
    }
}

proof fn lemma_count_concat(a: Seq<(Seq<u8>, Seq<u8>)>, b: Seq<(Seq<u8>, Seq<u8>)>, k: Seq<u8>)
    ensures
        count_name(a + b, k) == count_name(a, k) + count_name(b, k),
    decreases a.len(),
{
    if a.len() == 0 {
        assert(a + b =~= b);
    } else {
        assert((a + b).skip(1) =~= a.skip(1) + b);
        lemma_count_concat(a.skip(1), b, k);
    }
}

proof fn lemma_count_zero(hs: Seq<(Seq<u8>, Seq<u8>)>, k: Seq<u8>)
    requires
        forall|i: int| 0 <= i < hs.len() ==> hs[i].0 != k,
    ensures
        count_name(hs, k) == 0,
    decreases hs.len(),
{
    if hs.len() > 0 {
        assert(forall|i: int| 0 <= i < hs.skip(1).len() ==> hs.skip(1)[i] == hs[i + 1]);
        lemma_count_zero(hs.skip(1), k);
    }
}

/// Law: with an API key placed in the header and a key configured, the
/// assembled header list carries exactly one header named after the
/// selector's parameter name — the credential header, whose value is
/// the configured prefix, a space and the key, or the key alone without
/// a prefix — provided the caller did not take that name for a header
/// parameter and it is none of the engine's own header names.
pub proof fn lemma_api_key_header(
    r: &Request,
    c: &Configuration,
    sel: ApiKey,
    k: crate::config::ApiKey,
)
    requires
        r.wf(),
        r.spec_auth() == Auth::ApiKey(sel),
        sel.in_header,
        c.api_key == Some(k),
        !r.spec_headers().as_map().contains_key(encode_utf8(sel.param_name@)),
        sel.param_name@ != "User-Agent"@,
        sel.param_name@ != "Content-Type"@,
        sel.param_name@ != "Content-Length"@,
    ensures
        count_name(spec_headers_sent(r, c), encode_utf8(sel.param_name@)) == 1,
        spec_headers_sent(r, c)[r.spec_headers().pairs().len() as int] == (
            encode_utf8(sel.param_name@),
            encode_utf8(api_key_value(k.prefix.deep_view(), k.key@)),
        ),
{
    let name = encode_utf8(sel.param_name@);
    let value = encode_utf8(api_key_value(k.prefix.deep_view(), k.key@));
    let hp = r.spec_headers().pairs();
    let ah = spec_auth_headers(r, c);
    let ua = spec_user_agent_headers(r, c);
    let ch = spec_content_headers(r);
    lemma_count_concat(hp + ah + ua, ch, name);
    lemma_count_concat(hp + ah, ua, name);
    lemma_count_concat(hp, ah, name);
    assert forall|i: int| 0 <= i < hp.len() implies hp[i].0 != name by {
        lemma_wf_lookup(hp, i);
    }
    lemma_count_zero(hp, name);
    assert(ah =~= seq![(name, value)]);
    assert(ah.skip(1) =~= Seq::<(Seq<u8>, Seq<u8>)>::empty());
    assert(count_name(Seq::<(Seq<u8>, Seq<u8>)>::empty(), name) == 0);
    assert(ah[0].0 == name);
    assert(count_name(ah, name) == 1);
    lemma_encode_utf8_injective(sel.param_name@, "User-Agent"@);
    lemma_encode_utf8_injective(sel.param_name@, "Content-Type"@);
    lemma_encode_utf8_injective(sel.param_name@, "Content-Length"@);
    lemma_count_zero(ua, name);
    lemma_count_zero(ch, name);
    assert(spec_headers_sent(r, c)[hp.len() as int] == ah[0]);
}

proof fn lemma_encode_utf8_injective(a: Seq<char>, b: Seq<char>)
    requires
        a != b,
    ensures
        encode_utf8(a) != encode_utf8(b),
{
    if encode_utf8(a) == encode_utf8(b) {
        vstd::utf8::encode_utf8_decode_utf8(a);
        vstd::utf8::encode_utf8_decode_utf8(b);
    }
}

/// Law: with Basic auth and a configured username, the assembled header
/// list carries exactly one `Authorization` header, whose value is
/// `Basic `, then the base64 of `user:password` — or of the bare
/// username when no password is configured — provided the caller did
/// not take `Authorization` for a header parameter.
pub proof fn lemma_basic_auth_header(
    r: &Request,
    c: &Configuration,
    cred: (String, Option<String>),
)
    requires
        r.wf(),
        r.spec_auth() == Auth::Basic,
        c.basic_auth == Some(cred),
        !r.spec_headers().as_map().contains_key(encode_utf8("Authorization"@)),
    ensures
        count_name(spec_headers_sent(r, c), encode_utf8("Authorization"@)) == 1,
        spec_headers_sent(r, c)[r.spec_headers().pairs().len() as int] == (
            encode_utf8("Authorization"@),
            encode_utf8(basic_auth_value(cred.0@, cred.1.deep_view())),
        ),
{
    let name = encode_utf8("Authorization"@);
    let value = encode_utf8(basic_auth_value(cred.0@, cred.1.deep_view()));
    let hp = r.spec_headers().pairs();
    let ah = spec_auth_headers(r, c);
    let ua = spec_user_agent_headers(r, c);
    let ch = spec_content_headers(r);
    lemma_count_concat(hp + ah + ua, ch, name);
    lemma_count_concat(hp + ah, ua, name);
    lemma_count_concat(hp, ah, name);
    assert forall|i: int| 0 <= i < hp.len() implies hp[i].0 != name by {
        lemma_wf_lookup(hp, i);
    }
    lemma_count_zero(hp, name);
    assert(ah =~= seq![(name, value)]);
    assert(ah.skip(1) =~= Seq::<(Seq<u8>, Seq<u8>)>::empty());
    assert(count_name(Seq::<(Seq<u8>, Seq<u8>)>::empty(), name) == 0);
    assert(ah[0].0 == name);
    assert(count_name(ah, name) == 1);
    // the engine's own header names are all distinct from `Authorization`
    reveal_strlit("Authorization");
    reveal_strlit("User-Agent");
    reveal_strlit("Content-Type");
    reveal_strlit("Content-Length");
    lemma_encode_utf8_injective("Authorization"@, "User-Agent"@);
    lemma_encode_utf8_injective("Authorization"@, "Content-Type"@);
    lemma_encode_utf8_injective("Authorization"@, "Content-Length"@);
    lemma_count_zero(ua, name);
    lemma_count_zero(ch, name);
    assert(spec_headers_sent(r, c)[hp.len() as int] == ah[0]);
}

/// Law: assembly depends on the parameter mappings only through the
/// key-to-value maps they denote, never through insertion order. Two
/// well-formed requests that agree on method, path, auth, body and the
/// no-return flag, and whose four mappings agree as maps, assemble to
/// the same reference, header list and body against any configuration.
pub proof fn lemma_order_independence(r1: &Request, r2: &Request, c: &Configuration)
    requires
        r1.wf(),
        r2.wf(),
        r1.spec_method() == r2.spec_method(),
        r1.spec_path() == r2.spec_path(),
        r1.spec_auth() == r2.spec_auth(),
        r1.spec_body() == r2.spec_body(),
        r1.spec_no_return_type() == r2.spec_no_return_type(),
        r1.spec_query().as_map() == r2.spec_query().as_map(),
        r1.spec_path_params().as_map() == r2.spec_path_params().as_map(),
        r1.spec_form().as_map() == r2.spec_form().as_map(),
        r1.spec_headers().as_map() == r2.spec_headers().as_map(),
    ensures
        spec_uri(r1, c) == spec_uri(r2, c),
        spec_headers_sent(r1, c) == spec_headers_sent(r2, c),
        spec_body_bytes(r1) == spec_body_bytes(r2),
{
    lemma_param_map_canonical(&r1.spec_query(), &r2.spec_query());
    lemma_param_map_canonical(&r1.spec_path_params(), &r2.spec_path_params());
    lemma_param_map_canonical(&r1.spec_form(), &r2.spec_form());
    lemma_param_map_canonical(&r1.spec_headers(), &r2.spec_headers());
}

fn u64_digits(n: u64) -> (r: Vec<u8>)
    ensures
        r@ == dec_rep(n as nat),
    decreases n,
{
    if n < 10 {
        let mut r: Vec<u8> = Vec::new();
        r.push(DIGIT_0 + (n as u8));
        proof {
            assert(r@ =~= dec_rep(n as nat));
        }
        r
    } else {
        let mut r = u64_digits(n / 10);
        r.push(DIGIT_0 + ((n % 10) as u8));
        r
    }
}

} // verus!
