use restclient::encode::encode_form_pairs;
use restclient::params::ParamMap;
use restclient::template::substitute;

fn bv(s: &str) -> Vec<u8> {
    s.as_bytes().to_vec()
}

#[test]
fn form_encoding_matches_url_crate() {
    let pairs = vec![(bv("a b"), bv("c&d")), (bv("key*"), bv("v=1~"))];
    let ours = encode_form_pairs(&pairs);
    let mut ser = url::form_urlencoded::Serializer::new(String::new());
    ser.append_pair("a b", "c&d");
    ser.append_pair("key*", "v=1~");
    assert_eq!(String::from_utf8(ours).unwrap(), ser.finish());
}

#[test]
fn empty_pairs_encode_to_nothing() {
    let pairs: Vec<(Vec<u8>, Vec<u8>)> = Vec::new();
    assert_eq!(encode_form_pairs(&pairs), Vec::<u8>::new());
}

#[test]
fn reserved_bytes_are_escaped() {
    let pairs = vec![(bv("a=b&c"), bv("d e%"))];
    let enc = encode_form_pairs(&pairs);
    assert_eq!(enc, bv("a%3Db%26c=d+e%25"));
}

#[test]
fn query_roundtrip_through_url_parse() {
    let pairs = vec![(bv("na me"), bv("v&1")), (bv("x"), bv("= +"))];
    let enc = encode_form_pairs(&pairs);
    let parsed: Vec<(String, String)> = url::form_urlencoded::parse(&enc).into_owned().collect();
    assert_eq!(
        parsed,
        vec![
            ("na me".to_string(), "v&1".to_string()),
            ("x".to_string(), "= +".to_string())
        ]
    );
}

#[test]
fn param_map_last_write_wins() {
    let mut m = ParamMap::new();
    m.insert(bv("k"), bv("1"));
    m.insert(bv("k"), bv("2"));
    let e = m.entries();
    assert_eq!(e.len(), 1);
    assert_eq!(e[0].1, bv("2"));
}

#[test]
fn param_map_keeps_keys_sorted() {
    let mut m = ParamMap::new();
    m.insert(bv("zz"), bv("1"));
    m.insert(bv("aa"), bv("2"));
    m.insert(bv("mm"), bv("3"));
    let keys: Vec<Vec<u8>> = m.entries().iter().map(|p| p.0.clone()).collect();
    assert_eq!(keys, vec![bv("aa"), bv("mm"), bv("zz")]);
}

#[test]
fn placeholders_substituted() {
    let mut p = ParamMap::new();
    p.insert(bv("username"), bv("alice"));
    let out = substitute(&bv("/user/{username}"), &p);
    assert_eq!(out, bv("/user/alice"));
}

#[test]
fn missing_placeholder_survives() {
    let p = ParamMap::new();
    let out = substitute(&bv("/user/{username}"), &p);
    assert_eq!(out, bv("/user/{username}"));
}

#[test]
fn two_placeholders_substituted() {
    let mut p = ParamMap::new();
    p.insert(bv("a"), bv("1"));
    p.insert(bv("b"), bv("2"));
    let out = substitute(&bv("/{a}/x/{b}"), &p);
    assert_eq!(out, bv("/1/x/2"));
}

#[test]
fn substituted_value_is_not_rescanned() {
    let mut p = ParamMap::new();
    p.insert(bv("a"), bv("{b}"));
    p.insert(bv("b"), bv("2"));
    let out = substitute(&bv("/{a}"), &p);
    assert_eq!(out, bv("/{b}"));
}
