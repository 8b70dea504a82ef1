use restclient::config::Configuration;
use restclient::error::Error;
use restclient::method::Method;
use restclient::response::{handle_response, response_payload};
use restclient::user_api::{
    create_user_request, delete_user_request, get_user_by_name_request, login_user_request,
    logout_user_request, update_user_request,
};

fn conf(base: &str) -> Configuration {
    Configuration {
        base_path: base.to_string(),
        user_agent: None,
        basic_auth: None,
        oauth_access_token: None,
        api_key: None,
    }
}

#[test]
fn api_error_carries_status_and_parsed_json() {
    let body = br#"{"message":"not found"}"#.to_vec();
    match response_payload(false, 404, body.clone()) {
        Err(Error::ApiError(e)) => {
            assert_eq!(e.code, 404);
            assert_eq!(e.raw, body);
            let expected: serde_json::Value =
                serde_json::from_str(r#"{"message":"not found"}"#).unwrap();
            assert_eq!(e.content.unwrap(), expected);
        }
        _ => panic!("expected an ApiError"),
    }
}

#[test]
fn api_error_with_unparsable_body_keeps_raw_bytes() {
    let body = b"plain text".to_vec();
    match response_payload(false, 500, body.clone()) {
        Err(Error::ApiError(e)) => {
            assert_eq!(e.code, 500);
            assert!(e.content.is_none());
            assert_eq!(e.raw, body);
        }
        _ => panic!("expected an ApiError"),
    }
}

#[test]
fn success_payload_is_the_body() {
    let body = br#"{"a":1}"#.to_vec();
    let p = response_payload(false, 200, body.clone()).unwrap();
    assert_eq!(p, body);
}

#[test]
fn returns_nothing_payload_is_null_token() {
    let p = response_payload(true, 204, Vec::new()).unwrap();
    assert_eq!(p, b"null".to_vec());
}

#[test]
fn returns_nothing_with_empty_body_succeeds() {
    let r: Result<(), Error> = handle_response(true, 200, Vec::new());
    assert!(r.is_ok());
}

#[test]
fn empty_body_without_flag_is_a_decode_error() {
    let r: Result<(), Error> = handle_response(false, 200, Vec::new());
    match r {
        Err(Error::DecodeError(_)) => {}
        _ => panic!("expected a DecodeError"),
    }
}

#[test]
fn success_body_decodes_into_value() {
    let r: Result<serde_json::Value, Error> = handle_response(false, 200, br#"{"a":1}"#.to_vec());
    let expected: serde_json::Value = serde_json::from_str(r#"{"a":1}"#).unwrap();
    assert_eq!(r.unwrap(), expected);
}

#[test]
fn error_status_never_reaches_the_decoder() {
    let r: Result<serde_json::Value, Error> = handle_response(false, 404, b"not json".to_vec());
    match r {
        Err(Error::ApiError(e)) => assert_eq!(e.code, 404),
        _ => panic!("expected an ApiError"),
    }
}

#[test]
fn transport_error_variant_carries_text() {
    let e = Error::TransportError("connection refused".to_string());
    match e {
        Error::TransportError(msg) => assert_eq!(msg, "connection refused"),
        _ => panic!("expected a TransportError"),
    }
}

#[test]
fn login_user_request_builds_query() {
    let a = login_user_request("bob".to_string(), "pw".to_string())
        .assemble(&conf("http://h"))
        .unwrap();
    assert_eq!(a.method, Method::Get);
    assert_eq!(a.uri, b"http://h/user/login?password=pw&username=bob".to_vec());
}

#[test]
fn logout_user_request_is_plain_get() {
    let a = logout_user_request().assemble(&conf("http://h")).unwrap();
    assert_eq!(a.uri, b"http://h/user/logout".to_vec());
    assert!(a.no_return_type);
    assert!(a.headers.is_empty());
    assert!(a.body.is_empty());
}

#[test]
fn delete_user_request_substitutes_path() {
    let a = delete_user_request("bob".to_string())
        .assemble(&conf("http://h"))
        .unwrap();
    assert_eq!(a.method, Method::Delete);
    assert_eq!(a.uri, b"http://h/user/bob".to_vec());
}

#[test]
fn get_user_by_name_request_expects_a_body() {
    let a = get_user_by_name_request("bob".to_string())
        .assemble(&conf("http://h"))
        .unwrap();
    assert_eq!(a.uri, b"http://h/user/bob".to_vec());
    assert!(!a.no_return_type);
}

#[test]
fn create_user_request_posts_serialized_body() {
    let user: serde_json::Value = serde_json::from_str(r#"{"username":"bob"}"#).unwrap();
    let a = create_user_request(&user)
        .unwrap()
        .assemble(&conf("http://h"))
        .unwrap();
    assert_eq!(a.method, Method::Post);
    assert_eq!(a.uri, b"http://h/user".to_vec());
    assert_eq!(a.body, br#"{"username":"bob"}"#.to_vec());
    assert!(a.no_return_type);
}

#[test]
fn update_user_request_puts_to_the_user_path() {
    let user: serde_json::Value = serde_json::from_str(r#"{"username":"bob"}"#).unwrap();
    let a = update_user_request("bob".to_string(), &user)
        .unwrap()
        .assemble(&conf("http://h"))
        .unwrap();
    assert_eq!(a.method, Method::Put);
    assert_eq!(a.uri, b"http://h/user/bob".to_vec());
    assert!(!a.body.is_empty());
}
