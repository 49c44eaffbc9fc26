use curiefense::requestfields::RequestField;
use curiefense::utils::{ip_from_headers, map_request, split_on, trim_spaces, urldecode};

#[test]
fn split_keeps_empty_fields() {
    assert_eq!(split_on("a,b,,c", ','), vec!["a", "b", "", "c"]);
    assert_eq!(split_on("", ','), vec![""]);
    assert_eq!(split_on(",", ','), vec!["", ""]);
}

#[test]
fn trim_strips_spaces() {
    assert_eq!(trim_spaces("  a b  "), "a b");
    assert_eq!(trim_spaces("ab"), "ab");
    assert_eq!(trim_spaces("   "), "");
}

#[test]
fn urldecode_decodes() {
    assert_eq!(urldecode("a%20b+c"), "a b c");
    assert_eq!(urldecode("%41%42"), "AB");
    // Malformed or non-ASCII escapes are kept verbatim.
    assert_eq!(urldecode("%zz"), "%zz");
    assert_eq!(urldecode("%ff"), "%ff");
    assert_eq!(urldecode("%4"), "%4");
}

#[test]
fn xff_selects_by_trusted_hops() {
    let mut h = RequestField::new();
    h.add(
        "x-forwarded-for".to_string(),
        "1.1.1.1, 2.2.2.2, 3.3.3.3".to_string(),
    );
    assert_eq!(ip_from_headers(&h, "9.9.9.9", 1), "3.3.3.3");
    assert_eq!(ip_from_headers(&h, "9.9.9.9", 2), "2.2.2.2");
    assert_eq!(ip_from_headers(&h, "9.9.9.9", 3), "1.1.1.1");
    // Out-of-range hop counts clamp; the header is never abandoned for the
    // peer address while it is present.
    assert_eq!(ip_from_headers(&h, "9.9.9.9", 0), "3.3.3.3");
    assert_eq!(ip_from_headers(&h, "9.9.9.9", 7), "1.1.1.1");
}

#[test]
fn xff_absent_falls_back_to_peer() {
    let h = RequestField::new();
    assert_eq!(ip_from_headers(&h, "9.9.9.9", 1), "9.9.9.9");
}

#[test]
fn map_request_builds_descriptor() {
    let req = map_request(
        "1.1.1.1".to_string(),
        vec![
            (":authority".to_string(), "api.x".to_string()),
            (":method".to_string(), "GET".to_string()),
            (":path".to_string(), "/p/q?a=1&a=2&q=a%20b".to_string()),
            ("cookie".to_string(), "s=abc; t=def".to_string()),
            ("x-h".to_string(), "v".to_string()),
        ],
    );
    assert_eq!(req.ip, "1.1.1.1");
    assert_eq!(req.authority, "api.x");
    assert_eq!(req.method, "GET");
    assert_eq!(req.path, "/p/q");
    assert_eq!(req.query, "a=1&a=2&q=a%20b");
    assert_eq!(req.uri, "/p/q?a=1&a=2&q=a%20b");
    // Repeated query keys merge with the space separator.
    assert_eq!(req.args.get_str("a"), Some("1 2"));
    assert_eq!(req.args.get_str("q"), Some("a b"));
    assert_eq!(req.cookies.get_str("s"), Some("abc"));
    assert_eq!(req.cookies.get_str("t"), Some("def"));
    assert_eq!(req.headers.get_str("x-h"), Some("v"));
}

#[test]
fn map_request_host_fallback_and_defaults() {
    let req = map_request(
        "1.1.1.1".to_string(),
        vec![("host".to_string(), "www.y".to_string())],
    );
    assert_eq!(req.authority, "www.y");
    assert_eq!(req.uri, "");
    assert_eq!(req.path, "");
    assert_eq!(req.query, "");
    assert!(req.args.is_empty());
    assert!(req.cookies.is_empty());
}
