use conduit_bridge::request::{
    method_from_token, ver, BridgeError, HttpVersion, Method, Request, Scheme, Version,
};

fn lines(pairs: &[(&str, &str)]) -> Vec<(String, String)> {
    pairs.iter().map(|&(n, v)| (n.to_string(), v.to_string())).collect()
}

fn make(target: &str, header_pairs: &[(&str, &str)]) -> Result<Request, BridgeError> {
    Request::new(
        HttpVersion::Http11,
        "GET",
        target.to_string(),
        Scheme::Http,
        "127.0.0.1:54321".to_string(),
        &lines(header_pairs),
    )
}

#[test]
fn query_splitting_with_query() {
    let req = make("/a/b?x=1&y=2", &[("Host", "example.com")]).unwrap();
    assert_eq!(req.path(), "/a/b");
    assert_eq!(req.query_string(), Some("x=1&y=2"));
}

#[test]
fn query_splitting_without_query() {
    let req = make("/a/b", &[("Host", "example.com")]).unwrap();
    assert_eq!(req.path(), "/a/b");
    assert_eq!(req.query_string(), None);
}

#[test]
fn query_splitting_trailing_question_mark() {
    let req = make("/a/b?", &[("Host", "example.com")]).unwrap();
    assert_eq!(req.path(), "/a/b");
    assert_eq!(req.query_string(), Some(""));
}

#[test]
fn only_first_question_mark_splits() {
    let req = make("/p?x=1?y=2", &[("Host", "example.com")]).unwrap();
    assert_eq!(req.path(), "/p");
    assert_eq!(req.query_string(), Some("x=1?y=2"));
}

#[test]
fn method_mapping_totality() {
    assert_eq!(method_from_token("CONNECT"), Ok(Method::Connect));
    assert_eq!(method_from_token("DELETE"), Ok(Method::Delete));
    assert_eq!(method_from_token("GET"), Ok(Method::Get));
    assert_eq!(method_from_token("HEAD"), Ok(Method::Head));
    assert_eq!(method_from_token("OPTIONS"), Ok(Method::Options));
    assert_eq!(method_from_token("PATCH"), Ok(Method::Patch));
    assert_eq!(method_from_token("POST"), Ok(Method::Post));
    assert_eq!(method_from_token("PUT"), Ok(Method::Put));
    assert_eq!(method_from_token("TRACE"), Ok(Method::Trace));
}

#[test]
fn extension_method_fails() {
    assert_eq!(
        method_from_token("PURGE"),
        Err(BridgeError::UnsupportedMethod("PURGE".to_string()))
    );
    assert_eq!(
        method_from_token("get"),
        Err(BridgeError::UnsupportedMethod("get".to_string()))
    );
    let r = Request::new(
        HttpVersion::Http11,
        "BREW",
        "/".to_string(),
        Scheme::Http,
        "10.0.0.1:1".to_string(),
        &lines(&[("Host", "example.com")]),
    );
    assert_eq!(r.err(), Some(BridgeError::UnsupportedMethod("BREW".to_string())));
}

#[test]
fn version_mapping() {
    for (tag, major, minor) in [
        (HttpVersion::Http09, 0, 9),
        (HttpVersion::Http10, 1, 0),
        (HttpVersion::Http11, 1, 1),
        (HttpVersion::Http20, 2, 0),
    ] {
        let req = Request::new(
            tag,
            "GET",
            "/".to_string(),
            Scheme::Http,
            "127.0.0.1:1".to_string(),
            &lines(&[("Host", "h")]),
        )
        .unwrap();
        assert_eq!(req.http_version(), Version { major, minor, patch: 0 });
    }
}

#[test]
fn conduit_version_is_fixed() {
    let req = make("/", &[("Host", "h")]).unwrap();
    assert_eq!(req.conduit_version(), ver(0, 1));
}

#[test]
fn host_port_is_stripped() {
    let req = make("/", &[("Host", "example.com:8080")]).unwrap();
    assert_eq!(req.host(), "example.com");
    let bare = make("/", &[("Host", "example.com")]).unwrap();
    assert_eq!(bare.host(), "example.com");
    let v6 = make("/", &[("hOsT", "[::1]:443")]).unwrap();
    assert_eq!(v6.host(), "[::1]");
}

#[test]
fn missing_host_is_rejected() {
    let r = make("/", &[("Accept", "text/html")]);
    assert_eq!(r.err(), Some(BridgeError::MissingHost));
}

#[test]
fn non_absolute_path_targets_are_rejected() {
    for bad in ["example.com:443", "*", "http://example.com/x"] {
        let r = make(bad, &[("Host", "example.com")]);
        assert_eq!(r.err(), Some(BridgeError::UnsupportedUriForm(bad.to_string())));
    }
}

#[test]
fn content_length_parsing() {
    let some = make("/", &[("Host", "h"), ("Content-Length", "123")]).unwrap();
    assert_eq!(some.content_length(), Some(123));
    let none = make("/", &[("Host", "h")]).unwrap();
    assert_eq!(none.content_length(), None);
    let junk = make("/", &[("Host", "h"), ("content-length", "12a")]).unwrap();
    assert_eq!(junk.content_length(), None);
    let empty = make("/", &[("Host", "h"), ("Content-Length", "")]).unwrap();
    assert_eq!(empty.content_length(), None);
    let max = make("/", &[("Host", "h"), ("Content-Length", "18446744073709551615")]).unwrap();
    assert_eq!(max.content_length(), Some(u64::MAX));
    let over = make("/", &[("Host", "h"), ("Content-Length", "18446744073709551616")]).unwrap();
    assert_eq!(over.content_length(), None);
}

#[test]
fn fixed_and_passthrough_fields() {
    let req = Request::new(
        HttpVersion::Http10,
        "POST",
        "/submit".to_string(),
        Scheme::Https,
        "192.168.1.9:4443".to_string(),
        &lines(&[("Host", "h"), ("X-A", "1")]),
    )
    .unwrap();
    assert_eq!(req.method(), Method::Post);
    assert_eq!(req.scheme(), Scheme::Https);
    assert_eq!(req.remote_addr(), "192.168.1.9:4443");
    assert_eq!(req.virtual_root(), None);
    assert!(req.headers().has("x-a"));
}

#[test]
fn extension_map_scoping_within_one_request() {
    let mut req = make("/", &[("Host", "h")]).unwrap();
    assert!(req.extensions().find(7).is_none());
    req.mut_extensions().insert(7, vec![1, 2, 3]);
    assert_eq!(req.extensions().find(7), Some(&vec![1, 2, 3]));
    // a fresh request for another connection observes nothing
    let other = make("/", &[("Host", "h")]).unwrap();
    assert!(other.extensions().find(7).is_none());
}
