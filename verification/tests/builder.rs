use base64::Engine;

use restclient::auth::{ApiKey, Auth};
use restclient::config::ApiKey as ApiKeyCredential;
use restclient::config::Configuration;
use restclient::error::Error;
use restclient::method::Method;
use restclient::request::Request;

fn conf(base: &str) -> Configuration {
    Configuration {
        base_path: base.to_string(),
        user_agent: None,
        basic_auth: None,
        oauth_access_token: None,
        api_key: None,
    }
}

fn s(x: &str) -> String {
    x.to_string()
}

#[test]
fn method_wire_names() {
    assert_eq!(Method::Get.as_str(), "GET");
    assert_eq!(Method::Post.as_str(), "POST");
    assert_eq!(Method::Delete.as_str(), "DELETE");
}

#[test]
fn uri_without_query_has_no_question_mark() {
    let a = Request::new(Method::Get, s("/user/logout"))
        .assemble(&conf("http://example.com"))
        .unwrap();
    assert_eq!(a.uri, b"http://example.com/user/logout".to_vec());
    assert_eq!(a.method, Method::Get);
    assert!(a.body.is_empty());
}

#[test]
fn uri_with_query_is_sorted_and_encoded() {
    let a = Request::new(Method::Get, s("/user/login"))
        .with_query_param(s("username"), s("bob"))
        .with_query_param(s("password"), s("p w"))
        .assemble(&conf("http://example.com"))
        .unwrap();
    assert_eq!(
        a.uri,
        b"http://example.com/user/login?password=p+w&username=bob".to_vec()
    );
}

#[test]
fn insertion_order_is_irrelevant() {
    let c = conf("http://h");
    let r1 = Request::new(Method::Get, s("/u/{x}"))
        .with_query_param(s("username"), s("bob"))
        .with_query_param(s("password"), s("pw"))
        .with_header_param(s("X-A"), s("1"))
        .with_header_param(s("X-B"), s("2"))
        .with_path_param(s("x"), s("v"));
    let r2 = Request::new(Method::Get, s("/u/{x}"))
        .with_path_param(s("x"), s("v"))
        .with_header_param(s("X-B"), s("2"))
        .with_header_param(s("X-A"), s("1"))
        .with_query_param(s("password"), s("pw"))
        .with_query_param(s("username"), s("bob"));
    let a1 = r1.assemble(&c).unwrap();
    let a2 = r2.assemble(&c).unwrap();
    assert_eq!(a1.uri, a2.uri);
    assert_eq!(a1.headers, a2.headers);
    assert_eq!(a1.body, a2.body);
}

#[test]
fn api_key_header_exactly_once_with_prefix() {
    let mut c = conf("http://h");
    c.api_key = Some(ApiKeyCredential {
        prefix: Some(s("Token")),
        key: s("secret"),
    });
    let a = Request::new(Method::Get, s("/x"))
        .with_auth(Auth::ApiKey(ApiKey {
            in_header: true,
            in_query: false,
            param_name: s("api_key"),
        }))
        .assemble(&c)
        .unwrap();
    let hits: Vec<_> = a.headers.iter().filter(|h| h.0 == b"api_key".to_vec()).collect();
    assert_eq!(hits.len(), 1);
    assert_eq!(hits[0].1, b"Token secret".to_vec());
}

#[test]
fn api_key_header_without_prefix() {
    let mut c = conf("http://h");
    c.api_key = Some(ApiKeyCredential { prefix: None, key: s("secret") });
    let a = Request::new(Method::Get, s("/x"))
        .with_auth(Auth::ApiKey(ApiKey {
            in_header: true,
            in_query: false,
            param_name: s("api_key"),
        }))
        .assemble(&c)
        .unwrap();
    let hits: Vec<_> = a.headers.iter().filter(|h| h.0 == b"api_key".to_vec()).collect();
    assert_eq!(hits.len(), 1);
    assert_eq!(hits[0].1, b"secret".to_vec());
}

#[test]
fn api_key_in_query_is_appended() {
    let mut c = conf("http://h");
    c.api_key = Some(ApiKeyCredential { prefix: None, key: s("k v") });
    let a = Request::new(Method::Get, s("/x"))
        .with_query_param(s("a"), s("1"))
        .with_auth(Auth::ApiKey(ApiKey {
            in_header: false,
            in_query: true,
            param_name: s("api_key"),
        }))
        .assemble(&c)
        .unwrap();
    assert_eq!(a.uri, b"http://h/x?a=1&api_key=k+v".to_vec());
}

#[test]
fn missing_api_key_is_silently_skipped() {
    let c = conf("http://h");
    let a = Request::new(Method::Get, s("/x"))
        .with_auth(Auth::ApiKey(ApiKey {
            in_header: true,
            in_query: true,
            param_name: s("api_key"),
        }))
        .assemble(&c)
        .unwrap();
    assert_eq!(a.uri, b"http://h/x".to_vec());
    assert!(a.headers.iter().all(|h| h.0 != b"api_key".to_vec()));
}

#[test]
fn basic_auth_without_password() {
    let mut c = conf("http://h");
    c.basic_auth = Some((s("user"), None));
    let a = Request::new(Method::Get, s("/x"))
        .with_auth(Auth::Basic)
        .assemble(&c)
        .unwrap();
    let expected = format!(
        "Basic {}",
        base64::engine::general_purpose::STANDARD.encode("user")
    );
    assert!(a
        .headers
        .contains(&(b"Authorization".to_vec(), expected.as_bytes().to_vec())));
    assert!(a
        .headers
        .contains(&(b"Authorization".to_vec(), b"Basic dXNlcg==".to_vec())));
    let hits: Vec<_> = a
        .headers
        .iter()
        .filter(|h| h.0 == b"Authorization".to_vec())
        .collect();
    assert_eq!(hits.len(), 1);
}

#[test]
fn basic_auth_with_password() {
    let mut c = conf("http://h");
    c.basic_auth = Some((s("user"), Some(s("pw"))));
    let a = Request::new(Method::Get, s("/x"))
        .with_auth(Auth::Basic)
        .assemble(&c)
        .unwrap();
    let expected = format!(
        "Basic {}",
        base64::engine::general_purpose::STANDARD.encode("user:pw")
    );
    assert!(a
        .headers
        .contains(&(b"Authorization".to_vec(), expected.as_bytes().to_vec())));
}

#[test]
fn bearer_token_header() {
    let mut c = conf("http://h");
    c.oauth_access_token = Some(s("tok123"));
    let a = Request::new(Method::Get, s("/x"))
        .with_auth(Auth::Oauth)
        .assemble(&c)
        .unwrap();
    assert!(a
        .headers
        .contains(&(b"Authorization".to_vec(), b"Bearer tok123".to_vec())));
}

#[test]
fn form_params_override_serialized_body() {
    let json_body = serde_json::Value::String(s("ignored"));
    let a = Request::new(Method::Post, s("/x"))
        .with_body_param(&json_body)
        .unwrap()
        .with_form_param(s("a"), s("1"))
        .with_form_param(s("b"), s("2 3"))
        .assemble(&conf("http://h"))
        .unwrap();
    assert_eq!(a.body, b"a=1&b=2+3".to_vec());
    assert!(a.headers.contains(&(
        b"Content-Type".to_vec(),
        b"application/x-www-form-urlencoded".to_vec()
    )));
    assert!(a.headers.iter().all(|h| h.1 != b"application/json".to_vec()));
}

#[test]
fn serialized_body_sets_json_headers() {
    let a = Request::new(Method::Post, s("/x"))
        .with_serialized_body(b"{}".to_vec())
        .assemble(&conf("http://h"))
        .unwrap();
    assert_eq!(a.body, b"{}".to_vec());
    assert!(a
        .headers
        .contains(&(b"Content-Type".to_vec(), b"application/json".to_vec())));
    assert!(a
        .headers
        .contains(&(b"Content-Length".to_vec(), b"2".to_vec())));
}

#[test]
fn content_length_counts_body_bytes() {
    let a = Request::new(Method::Post, s("/x"))
        .with_serialized_body(vec![b'x'; 12])
        .assemble(&conf("http://h"))
        .unwrap();
    assert!(a
        .headers
        .contains(&(b"Content-Length".to_vec(), b"12".to_vec())));
}

#[test]
fn user_agent_from_configuration() {
    let mut c = conf("http://h");
    c.user_agent = Some(s("agent/1.0"));
    let a = Request::new(Method::Get, s("/x")).assemble(&c).unwrap();
    assert!(a
        .headers
        .contains(&(b"User-Agent".to_vec(), b"agent/1.0".to_vec())));
}

#[test]
fn caller_user_agent_is_not_clobbered() {
    let mut c = conf("http://h");
    c.user_agent = Some(s("agent/1.0"));
    let a = Request::new(Method::Get, s("/x"))
        .with_header_param(s("User-Agent"), s("custom"))
        .assemble(&c)
        .unwrap();
    let hits: Vec<_> = a.headers.iter().filter(|h| h.0 == b"User-Agent".to_vec()).collect();
    assert_eq!(hits.len(), 1);
    assert_eq!(hits[0].1, b"custom".to_vec());
}

#[test]
fn malformed_uri_is_a_uri_error() {
    let res = Request::new(Method::Get, s("/x")).assemble(&conf("ht tp://h"));
    match res {
        Err(Error::UriError(_)) => {}
        _ => panic!("expected a UriError"),
    }
}

#[test]
fn serialize_error_from_bad_body() {
    let mut map = std::collections::HashMap::new();
    map.insert((1, 2), 3);
    match Request::new(Method::Post, s("/x")).with_body_param(&map) {
        Err(Error::SerializeError(_)) => {}
        _ => panic!("expected a SerializeError"),
    }
}

#[test]
fn api_key_formatting() {
    let k = ApiKey {
        in_header: true,
        in_query: false,
        param_name: s("x"),
    };
    assert_eq!(k.key(&Some(s("Token")), "abc"), "Token abc");
    assert_eq!(k.key(&None, "abc"), "abc");
}
