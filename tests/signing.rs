use qiniu_cdn_manager::config::{BlackIP, CDNConfig, Config, Monitor};
use qiniu_cdn_manager::token::{ManageTokenGenerator, SignError};
use qiniu_cdn_manager::{parse_method, Client, HttpMethod, SubFunctionEnum};

const MOVE_URL: &str =
    "http://rs.qiniu.com/move/bmV3ZG9jczpmaW5kX21hbi50eHQ=/bmV3ZG9jczpmaW5kLm1hbi50eHQ=";

fn generator() -> ManageTokenGenerator {
    ManageTokenGenerator::new("MY_ACCESS_KEY".to_string(), "MY_SECRET_KEY".to_string())
}

fn config() -> Config {
    Config {
        debug: None,
        download_log_domain_dir: None,
        cdn: CDNConfig {
            access_key: "MY_ACCESS_KEY".to_string(),
            secret_key: "MY_SECRET_KEY".to_string(),
            domain: "static.example.com".to_string(),
        },
        monitor: Monitor { qy_robot: None },
        blackip: BlackIP { policy: None, rewrite: None },
        five_minute_traffic: None,
        five_minute_count: None,
    }
}

#[test]
fn first_generation_known_token() {
    let r = generator().generate_v1(MOVE_URL, None, None).unwrap();
    assert_eq!(r, "MY_ACCESS_KEY:FXsYh0wKHYPEsIAgdPD9OfjkeEM=");
}

#[test]
fn second_generation_known_token() {
    let r = generator().generate_v2("POST", MOVE_URL, &vec![], None, None).unwrap();
    assert_eq!(r, "MY_ACCESS_KEY:1uLvuZM6l6oCzZFqkJ6oI4oFMVQ=");
}

#[test]
fn signing_is_repeatable() {
    let g = generator();
    let headers = vec![("X-Qiniu-B".to_string(), "2".to_string())];
    let a = g.generate_v2("post", MOVE_URL, &headers, Some("application/json"), Some(b"{}")).unwrap();
    let b = g.generate_v2("post", MOVE_URL, &headers, Some("application/json"), Some(b"{}")).unwrap();
    assert_eq!(a, b);
    let c = g.generate_v1(MOVE_URL, Some("application/x-www-form-urlencoded"), Some(b"a=1")).unwrap();
    let d = g.generate_v1(MOVE_URL, Some("application/x-www-form-urlencoded"), Some(b"a=1")).unwrap();
    assert_eq!(c, d);
}

#[test]
fn method_case_does_not_matter() {
    let g = generator();
    let a = g.generate_v2("post", MOVE_URL, &vec![], None, None).unwrap();
    assert_eq!(a, "MY_ACCESS_KEY:1uLvuZM6l6oCzZFqkJ6oI4oFMVQ=");
}

#[test]
fn form_body_changes_first_generation() {
    let g = generator();
    let plain = g.generate_v1(MOVE_URL, None, None).unwrap();
    let form = g
        .generate_v1(MOVE_URL, Some("application/x-www-form-urlencoded"), Some(b"a=1"))
        .unwrap();
    let json = g.generate_v1(MOVE_URL, Some("application/json"), Some(b"a=1")).unwrap();
    let empty = g
        .generate_v1(MOVE_URL, Some("application/x-www-form-urlencoded"), Some(b""))
        .unwrap();
    assert_ne!(plain, form);
    assert_eq!(plain, json);
    assert_eq!(plain, empty);
}

#[test]
fn octet_stream_body_is_not_signed() {
    let g = generator();
    let with_body = g
        .generate_v2("POST", MOVE_URL, &vec![], Some("application/octet-stream"), Some(b"xyz"))
        .unwrap();
    let without = g
        .generate_v2("POST", MOVE_URL, &vec![], Some("application/octet-stream"), None)
        .unwrap();
    assert_eq!(with_body, without);
    let json = g.generate_v2("POST", MOVE_URL, &vec![], Some("application/json"), Some(b"xyz")).unwrap();
    let json_empty = g.generate_v2("POST", MOVE_URL, &vec![], Some("application/json"), None).unwrap();
    assert_ne!(json, json_empty);
}

#[test]
fn vendor_headers_are_sorted_and_others_ignored() {
    let g = generator();
    let ab = vec![
        ("X-Qiniu-A".to_string(), "1".to_string()),
        ("X-Qiniu-B".to_string(), "2".to_string()),
    ];
    let ba = vec![
        ("X-Qiniu-B".to_string(), "2".to_string()),
        ("X-Qiniu-A".to_string(), "1".to_string()),
        ("Accept".to_string(), "*/*".to_string()),
    ];
    let r1 = g.generate_v2("GET", MOVE_URL, &ab, None, None).unwrap();
    let r2 = g.generate_v2("GET", MOVE_URL, &ba, None, None).unwrap();
    assert_eq!(r1, r2);
    let none = g.generate_v2("GET", MOVE_URL, &vec![], None, None).unwrap();
    assert_ne!(r1, none);
}

#[test]
fn bad_inputs_fail_signing() {
    let g = generator();
    assert_eq!(g.generate_v1("not a url", None, None), Err(SignError::BadUrl));
    assert_eq!(g.generate_v2("GET", "::", &vec![], None, None), Err(SignError::BadUrl));
    let bad = vec![("X-Qiniu-A".to_string(), "a\u{7f}b".to_string())];
    assert_eq!(g.generate_v2("GET", MOVE_URL, &bad, None, None), Err(SignError::BadHeaderValue));
    assert_eq!(g.generate_v2("GET", "mailto:a@b.c", &vec![], None, None), Err(SignError::NoHost));
}

#[test]
fn client_authorization_uses_scheme_of_generation() {
    let c = config();
    let domain = Client::new(&c, SubFunctionEnum::Domain);
    let a = domain.authorization("POST", MOVE_URL, &vec![], None, None).unwrap();
    assert_eq!(a, "QBox MY_ACCESS_KEY:FXsYh0wKHYPEsIAgdPD9OfjkeEM=");
    assert_eq!(domain.host(), "api.qiniu.com");
    let log = Client::new(&c, SubFunctionEnum::Log);
    let b = log.authorization("POST", MOVE_URL, &vec![], None, None).unwrap();
    assert_eq!(b, "Qiniu MY_ACCESS_KEY:1uLvuZM6l6oCzZFqkJ6oI4oFMVQ=");
    assert_eq!(log.host(), "fusion.qiniuapi.com");
}

#[test]
fn hosts_and_methods_of_groups() {
    assert_eq!(SubFunctionEnum::Domain.get_host(), "api.qiniu.com");
    assert_eq!(SubFunctionEnum::Traffic.get_host(), "fusion.qiniuapi.com");
    assert_eq!(parse_method("get"), Some(HttpMethod::Get));
    assert_eq!(parse_method("Post"), Some(HttpMethod::Post));
    assert_eq!(parse_method("PUT"), Some(HttpMethod::Put));
    assert_eq!(parse_method("DELETE"), None);
}

use qiniu_cdn_manager::token::{canonical_v1, canonical_v2};

#[test]
fn first_generation_canonical_strings() {
    assert_eq!(
        canonical_v1(MOVE_URL, None, None).unwrap(),
        "/move/bmV3ZG9jczpmaW5kX21hbi50eHQ=/bmV3ZG9jczpmaW5kLm1hbi50eHQ=\n"
    );
    assert_eq!(
        canonical_v1("http://a.com/p?x=1", Some("application/x-www-form-urlencoded"), Some(b"a=1")).unwrap(),
        "/p?x=1\na=1"
    );
    assert_eq!(canonical_v1("http://a.com/p", Some("application/json"), Some(b"{}")).unwrap(), "/p\n");
}

#[test]
fn second_generation_canonical_strings() {
    assert_eq!(
        canonical_v2("post", MOVE_URL, &vec![], None, None).unwrap(),
        "POST /move/bmV3ZG9jczpmaW5kX21hbi50eHQ=/bmV3ZG9jczpmaW5kLm1hbi50eHQ=\nHost: rs.qiniu.com\n\n"
    );
    let headers = vec![
        ("X-Qiniu-B".to_string(), "2".to_string()),
        ("Accept".to_string(), "*/*".to_string()),
        ("X-Qiniu-A".to_string(), "0".to_string()),
        ("X-Qiniu-A".to_string(), "1".to_string()),
        ("X-Qiniu-AB".to_string(), "3".to_string()),
    ];
    assert_eq!(
        canonical_v2("GET", "https://a.com/p?q=1", &headers, Some("application/json"), Some(b"{}")).unwrap(),
        "GET /p?q=1\nHost: a.com\nContent-Type: application/json\nA: 0\nA: 1\nAB: 3\nB: 2\n\n{}"
    );
    assert_eq!(
        canonical_v2("PUT", "https://a.com/p", &vec![], Some("application/octet-stream"), Some(b"x")).unwrap(),
        "PUT /p\nHost: a.com\nContent-Type: application/octet-stream\n\n"
    );
}

#[test]
fn vendor_header_order_and_case_do_not_matter() {
    let g = generator();
    let h1 = vec![
        ("x-qiniu-b".to_string(), "2".to_string()),
        ("X-Qiniu-A".to_string(), "1".to_string()),
        ("X-Qiniu-A".to_string(), "0".to_string()),
        ("Accept".to_string(), "*/*".to_string()),
    ];
    let h2 = vec![
        ("X-Qiniu-A".to_string(), "0".to_string()),
        ("Content-Length".to_string(), "2".to_string()),
        ("X-QINIU-A".to_string(), "1".to_string()),
        ("X-Qiniu-b".to_string(), "2".to_string()),
    ];
    let a = g.generate_v2("POST", MOVE_URL, &h1, None, None).unwrap();
    let b = g.generate_v2("POST", MOVE_URL, &h2, None, None).unwrap();
    assert_eq!(a, b);
    assert_eq!(
        canonical_v2("GET", "https://a.com/p", &h1, None, None).unwrap(),
        "GET /p\nHost: a.com\nA: 0\nA: 1\nb: 2\n\n"
    );
}
