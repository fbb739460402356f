use reel::http::{add_response_header, declared_charset, needs_transcoding};
use reel::json::body_is_native_json;
use reel::model::{cookie_header, parse_set_cookie, status_reason, update_jar};
use reel::model::{Cookie, Headers, SetCookie, State};

fn set(update: Option<SetCookie>) -> Cookie {
    match update {
        Some(SetCookie::Store(c)) => c,
        _ => panic!("expected SetCookie::Store"),
    }
}

#[test]
fn headers_get_is_case_insensitive() {
    let mut h = Headers::default();
    h.insert("Content-Type".to_string(), "application/json".to_string());
    assert_eq!(h.get("content-type"), Some("application/json"));
    assert_eq!(h.get("CONTENT-TYPE"), Some("application/json"));
    assert_eq!(h.get("x-missing"), None);
}

#[test]
fn headers_insert_dedups_case_insensitively() {
    let mut h = Headers::default();
    h.insert("X-Token".to_string(), "old".to_string());
    h.insert("x-token".to_string(), "new".to_string());
    assert_eq!(h.iter().count(), 1);
    // The most recent casing wins.
    assert_eq!(h.sorted()[0].0, "x-token");
    assert_eq!(h.get("X-Token"), Some("new"));
}

#[test]
fn headers_remove_is_case_insensitive() {
    let mut h = Headers::default();
    h.insert("X-Foo".to_string(), "bar".to_string());
    assert!(h.remove("x-foo"));
    assert!(h.is_empty());
    assert!(!h.remove("x-foo"));
}

#[test]
fn headers_sorted_orders_by_name() {
    let mut h = Headers::default();
    h.insert("b".to_string(), "2".to_string());
    h.insert("a".to_string(), "1".to_string());
    let names: Vec<&str> = h.sorted().into_iter().map(|(k, _)| k.as_str()).collect();
    assert_eq!(names, ["a", "b"]);
}

#[test]
fn state_default_is_empty() {
    let s = State::default();
    assert!(s.request.method.is_none());
    assert!(s.request.url.is_none());
    assert!(s.request.headers.is_empty());
    assert!(s.request.body.is_none());
    assert!(s.responses.is_empty());
}

#[test]
fn status_reason_known_codes() {
    assert_eq!(status_reason(200), Some("OK"));
    assert_eq!(status_reason(404), Some("Not Found"));
    assert_eq!(status_reason(503), Some("Service Unavailable"));
}

#[test]
fn status_reason_unknown_code_is_none() {
    assert_eq!(status_reason(299), None);
    assert_eq!(status_reason(999), None);
}

#[test]
fn parse_set_cookie_basic() {
    let c = set(parse_set_cookie("session=abc123", "example.com", "/login"));
    assert_eq!(c.name, "session");
    assert_eq!(c.value, "abc123");
    assert_eq!(c.domain, "example.com");
    assert!(c.host_only);
    assert!(!c.secure);
}

#[test]
fn parse_set_cookie_default_path_is_request_directory() {
    let c = set(parse_set_cookie("a=1", "example.com", "/api/v1/login"));
    assert_eq!(c.path, "/api/v1");
    let c = set(parse_set_cookie("a=1", "example.com", "/login"));
    assert_eq!(c.path, "/");
    let c = set(parse_set_cookie("a=1", "example.com", "/"));
    assert_eq!(c.path, "/");
}

#[test]
fn parse_set_cookie_attributes() {
    let c = set(parse_set_cookie(
        "sid=x; Domain=.example.com; Path=/api; Secure; HttpOnly",
        "www.example.com",
        "/",
    ));
    assert_eq!(c.domain, "example.com");
    assert!(!c.host_only);
    assert_eq!(c.path, "/api");
    assert!(c.secure);
}

#[test]
fn parse_set_cookie_rejects_unrelated_domain() {
    assert!(parse_set_cookie("sid=x; Domain=evil.com", "example.com", "/").is_none());
    // Suffix without a dot boundary is not a subdomain.
    assert!(parse_set_cookie("sid=x; Domain=ample.com", "example.com", "/").is_none());
}

#[test]
fn parse_set_cookie_ip_host_rejects_suffix_domain() {
    // "0.0.1" is a dot-preceded suffix of "127.0.0.1", but suffix matching
    // must never apply to IP addresses (RFC 6265: host-only for IPs).
    assert!(parse_set_cookie("sid=x; Domain=0.0.1", "127.0.0.1", "/").is_none());
    assert!(parse_set_cookie("sid=x; Domain=:1", "[::1]", "/").is_none());
    // A Domain identical to the IP host is fine.
    let c = set(parse_set_cookie(
        "sid=x; Domain=127.0.0.1",
        "127.0.0.1",
        "/",
    ));
    assert_eq!(c.domain, "127.0.0.1");
}

#[test]
fn cookie_ip_host_matches_exactly_only() {
    // A jar entry with an IP-suffix domain (e.g. from an old session file)
    // must not match a longer IP via the suffix rule.
    let c = Cookie {
        name: "sid".to_string(),
        value: "x".to_string(),
        domain: "0.0.1".to_string(),
        path: "/".to_string(),
        secure: false,
        host_only: false,
    };
    assert!(!c.matches("127.0.0.1", "/", true));

    let exact = set(parse_set_cookie(
        "sid=x; Domain=127.0.0.1",
        "127.0.0.1",
        "/",
    ));
    assert!(exact.matches("127.0.0.1", "/", true));
    assert!(!exact.matches("127.0.0.2", "/", true));
}

#[test]
fn parse_set_cookie_max_age_zero_is_delete() {
    match parse_set_cookie("sid=; Path=/; Max-Age=0", "example.com", "/") {
        Some(SetCookie::Delete { name, domain, path }) => {
            assert_eq!(name, "sid");
            assert_eq!(domain, "example.com");
            assert_eq!(path, "/");
        }
        _ => panic!("expected SetCookie::Delete"),
    }
}

#[test]
fn parse_set_cookie_malformed_is_none() {
    assert!(parse_set_cookie("no-equals-sign", "example.com", "/").is_none());
    assert!(parse_set_cookie("=value-only", "example.com", "/").is_none());
}

#[test]
fn cookie_domain_matching() {
    let host_only = set(parse_set_cookie("a=1; Path=/", "example.com", "/"));
    assert!(host_only.matches("example.com", "/", true));
    assert!(!host_only.matches("www.example.com", "/", true));

    let domain_wide = set(parse_set_cookie(
        "a=1; Path=/; Domain=example.com",
        "example.com",
        "/",
    ));
    assert!(domain_wide.matches("example.com", "/", true));
    assert!(domain_wide.matches("api.example.com", "/", true));
    assert!(!domain_wide.matches("notexample.com", "/", true));
}

#[test]
fn cookie_path_matching() {
    let c = set(parse_set_cookie("a=1; Path=/api", "example.com", "/"));
    assert!(c.matches("example.com", "/api", true));
    assert!(c.matches("example.com", "/api/users", true));
    assert!(!c.matches("example.com", "/apiary", true));
    assert!(!c.matches("example.com", "/", true));
}

#[test]
fn secure_cookie_requires_https() {
    let c = set(parse_set_cookie("a=1; Path=/; Secure", "example.com", "/"));
    assert!(c.matches("example.com", "/", true));
    assert!(!c.matches("example.com", "/", false));
}

#[test]
fn update_jar_replaces_and_deletes() {
    let mut jar = Vec::new();
    update_jar(
        &mut jar,
        parse_set_cookie("sid=old; Path=/", "example.com", "/").unwrap(),
    );
    update_jar(
        &mut jar,
        parse_set_cookie("sid=new; Path=/", "example.com", "/").unwrap(),
    );
    assert_eq!(jar.len(), 1);
    assert_eq!(jar[0].value, "new");

    update_jar(
        &mut jar,
        parse_set_cookie("sid=; Path=/; Max-Age=0", "example.com", "/").unwrap(),
    );
    assert!(jar.is_empty());
}

#[test]
fn cookie_header_joins_matching_cookies() {
    let mut jar = Vec::new();
    update_jar(
        &mut jar,
        parse_set_cookie("b=2; Path=/", "example.com", "/").unwrap(),
    );
    update_jar(
        &mut jar,
        parse_set_cookie("a=1; Path=/api", "example.com", "/").unwrap(),
    );
    update_jar(
        &mut jar,
        parse_set_cookie("c=3; Path=/", "other.com", "/").unwrap(),
    );
    // Longest path first; the other.com cookie does not match.
    assert_eq!(
        cookie_header(&jar, "example.com", "/api/x", true).as_deref(),
        Some("a=1; b=2")
    );
    assert_eq!(
        cookie_header(&jar, "example.com", "/", true).as_deref(),
        Some("b=2")
    );
    assert_eq!(cookie_header(&jar, "unrelated.com", "/", true), None);
}

#[test]
fn model_state_default_is_empty() {
    // The flat state of the first format: request fields now live under `request`.
    let s = State::default();
    assert!(s.request.method.is_none());
    assert!(s.request.url.is_none());
    assert!(s.request.headers.is_empty());
    assert!(s.request.body.is_none());
    assert!(s.responses.is_empty());
}

#[test]
fn headers_insert_then_get_returns_value() {
    let mut h = Headers::new();
    h.insert("Accept".to_string(), "text/plain".to_string());
    h.insert("X-Other".to_string(), "1".to_string());
    assert_eq!(h.get("ACCEPT"), Some("text/plain"));
    assert!(h.remove("accept"));
    assert_eq!(h.get("Accept"), None);
    assert_eq!(h.get("x-other"), Some("1"));
}

#[test]
fn status_reason_redirect_and_teapot() {
    assert_eq!(status_reason(301), Some("Moved Permanently"));
    assert_eq!(status_reason(418), Some("I'm a teapot"));
}

#[test]
fn bodies_stored_natively_only_when_exact() {
    assert!(body_is_native_json(r#"{"a":2,"b":1}"#));
    assert!(body_is_native_json("[1,2,3]"));
    assert!(body_is_native_json("42"));
    assert!(!body_is_native_json("null"));
    assert!(!body_is_native_json(r#""hello""#));
    assert!(!body_is_native_json("1e3"));
    assert!(!body_is_native_json("{\n  \"a\": 1\n}"));
    assert!(!body_is_native_json("plain text"));
}

#[test]
fn response_headers_and_charsets() {
    let mut h = Vec::new();
    add_response_header(&mut h, "vary".to_string(), "a".to_string());
    add_response_header(&mut h, "x".to_string(), "1".to_string());
    add_response_header(&mut h, "vary".to_string(), "b".to_string());
    assert_eq!(h, vec![("vary".to_string(), "a, b".to_string()), ("x".to_string(), "1".to_string())]);
    assert_eq!(declared_charset("text/html; Charset=\"ISO-8859-1\"").as_deref(), Some("iso-8859-1"));
    assert_eq!(declared_charset("application/json"), None);
    assert!(needs_transcoding(Some("iso-8859-1")));
    assert!(!needs_transcoding(Some("utf-8")));
    assert!(!needs_transcoding(None));
}

/// The session file's treatment of a request body: embedded as a native JSON
/// value when the library says it reads back byte for byte, as a string
/// otherwise; then written out and read back.
fn body_round_trip(body: &str) -> Option<String> {
    let stored = if body_is_native_json(body) {
        serde_json::from_str::<serde_json::Value>(body).unwrap()
    } else {
        serde_json::Value::String(body.to_string())
    };
    let mut file = serde_json::Map::new();
    file.insert("body".to_string(), stored);
    let text = serde_json::Value::Object(file).to_string();
    let read: serde_json::Value = serde_json::from_str(&text).unwrap();
    match read.get("body") {
        None | Some(serde_json::Value::Null) => None,
        Some(serde_json::Value::String(s)) => Some(s.clone()),
        Some(other) => Some(other.to_string()),
    }
}

#[test]
fn body_round_trips_byte_exact() {
    // Bodies whose native-JSON form would come back different must be stored
    // as plain strings: a JSON string literal (would lose its quotes), null
    // (would become no body), non-canonical key order, non-canonical number
    // notation, pretty-printed JSON, and plain text.
    for body in [
        r#""hello""#,
        "null",
        r#"{"b":1,"a":2}"#,
        "1e3",
        "{\n  \"a\": 1\n}",
        "plain text",
    ] {
        assert_eq!(body_round_trip(body).as_deref(), Some(body), "{body:?}");
    }
}
