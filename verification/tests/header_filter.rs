use revproxy::headers::{filter, is_denied_name};

fn hs(pairs: &[(&str, &str)]) -> Vec<(String, String)> {
    pairs.iter().map(|(n, v)| (n.to_string(), v.to_string())).collect()
}

#[test]
fn all_ten_denied_names_are_denied() {
    for name in [
        "connection",
        "keep-alive",
        "transfer-encoding",
        "te",
        "trailer",
        "proxy-authorization",
        "proxy-authenticate",
        "x-application-context",
        "upgrade",
        "host",
    ] {
        assert!(is_denied_name(name), "{} should be denied", name);
    }
}

#[test]
fn denial_is_case_insensitive() {
    assert!(is_denied_name("Connection"));
    assert!(is_denied_name("KEEP-ALIVE"));
    assert!(is_denied_name("Host"));
    assert!(is_denied_name("Transfer-Encoding"));
}

#[test]
fn ordinary_names_are_not_denied() {
    assert!(!is_denied_name("content-type"));
    assert!(!is_denied_name("x-custom"));
    assert!(!is_denied_name("hostname"));
    assert!(!is_denied_name("connect"));
    assert!(!is_denied_name(""));
}

#[test]
fn filter_removes_denied_headers() {
    let headers = hs(&[
        ("Connection", "keep-alive"),
        ("X-Custom", "value"),
        ("Host", "example.com"),
        ("Accept", "*/*"),
    ]);
    let out = filter(&headers);
    assert_eq!(out, hs(&[("X-Custom", "value"), ("Accept", "*/*")]));
}

#[test]
fn filter_keeps_duplicates_in_order() {
    let headers = hs(&[
        ("Accept", "text/html"),
        ("Upgrade", "h2c"),
        ("Accept", "text/plain"),
        ("Accept", "text/html"),
    ]);
    let out = filter(&headers);
    assert_eq!(
        out,
        hs(&[
            ("Accept", "text/html"),
            ("Accept", "text/plain"),
            ("Accept", "text/html"),
        ])
    );
}

#[test]
fn filter_of_empty_is_empty() {
    assert!(filter(&hs(&[])).is_empty());
}

#[test]
fn filter_twice_equals_filter_once() {
    let headers = hs(&[
        ("Connection", "close"),
        ("X-One", "1"),
        ("te", "trailers"),
        ("X-Two", "2"),
    ]);
    let once = filter(&headers);
    let twice = filter(&once);
    assert_eq!(once, twice);
}
