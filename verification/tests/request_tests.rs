use http_core::error::ParseError;
use http_core::headers::Headers;
use http_core::method::HTTPMethod;
use http_core::request::{Request, RequestBuilder};

fn err_message(r: Result<Request, ParseError>) -> String {
    match r {
        Ok(_) => panic!("expected an error"),
        Err(e) => e.message().to_string(),
    }
}

#[test]
fn parse_full_request() {
    let raw = "GET /index.html HTTP/1.1\r\nHost: example.com\r\nAccept: */*\r\n\r\nhello";
    let req = Request::from(raw).unwrap();
    assert_eq!(req.method, HTTPMethod::GET);
    assert_eq!(req.path, "/index.html");
    assert_eq!(req.version, "1.1");
    assert_eq!(req.headers.len(), 2);
    assert_eq!(req.headers.get("Host").unwrap().as_str(), "example.com");
    assert_eq!(req.headers.get("Accept").unwrap().as_str(), "*/*");
    assert_eq!(req.body, "hello");
}

#[test]
fn parse_empty_fails() {
    assert_eq!(err_message(Request::from("")), "Invalid HTTP request");
}

#[test]
fn parse_blank_line_fails() {
    assert_eq!(err_message(Request::from("\r\n")), "Invalid HTTP request");
}

#[test]
fn parse_one_token_fails() {
    assert_eq!(err_message(Request::from("GET\r\n\r\n")), "Invalid HTTP request");
}

#[test]
fn parse_missing_version_token() {
    assert_eq!(
        err_message(Request::from("GET /path\r\n\r\n")),
        "Error parsing HTTP version"
    );
}

#[test]
fn parse_unknown_method() {
    assert_eq!(
        err_message(Request::from("BREW /path HTTP/1.1\r\n\r\n")),
        "Error parsing HTTP method"
    );
}

#[test]
fn parse_lowercase_method_rejected() {
    assert_eq!(
        err_message(Request::from("get /path HTTP/1.1\r\n\r\n")),
        "Error parsing HTTP method"
    );
}

#[test]
fn parse_path_without_slash() {
    assert_eq!(
        err_message(Request::from("GET path HTTP/1.1\r\n\r\n")),
        "Error parsing HTTP path"
    );
}

#[test]
fn parse_version_not_numeric() {
    assert_eq!(
        err_message(Request::from("GET /path HTTP/abc\r\n\r\n")),
        "Error parsing HTTP version"
    );
}

#[test]
fn parse_version_marker_without_slash() {
    assert_eq!(
        err_message(Request::from("GET /path X\r\n\r\n")),
        "Error parsing HTTP version"
    );
}

#[test]
fn parse_bad_header_line() {
    assert_eq!(
        err_message(Request::from("GET /path HTTP/1.1\r\nBad-Header-Line\r\n\r\n")),
        "Error parsing HTTP headers"
    );
}

#[test]
fn parse_duplicate_header_last_wins() {
    let req = Request::from("GET / HTTP/1.1\r\nX-A: 1\r\nX-A: 2\r\n\r\n").unwrap();
    assert_eq!(req.headers.len(), 1);
    assert_eq!(req.headers.get("X-A").unwrap().as_str(), "2");
}

#[test]
fn parse_header_value_loses_text_after_second_colon() {
    // Only the first colon delimits; the value is the piece between the
    // first and second colon, so a port number is cut off.
    let req = Request::from("GET / HTTP/1.1\r\nHost: example.com:8080\r\n\r\n").unwrap();
    assert_eq!(req.headers.get("Host").unwrap().as_str(), "example.com");
}

#[test]
fn parse_body_concatenates_lines_without_separators() {
    let req = Request::from("GET / HTTP/1.1\r\nA: b\r\n\r\nline1\r\nline2").unwrap();
    assert_eq!(req.body, "line1line2");
}

#[test]
fn parse_without_empty_line_leaves_body_empty() {
    let req = Request::from("GET / HTTP/1.1\r\nA: b").unwrap();
    assert_eq!(req.headers.get("A").unwrap().as_str(), "b");
    assert_eq!(req.body, "");
}

#[test]
fn parse_accepts_bare_line_feeds() {
    let req = Request::from("POST /submit HTTP/1.0\nA: b\n\npayload").unwrap();
    assert_eq!(req.method, HTTPMethod::POST);
    assert_eq!(req.version, "1.0");
    assert_eq!(req.headers.get("A").unwrap().as_str(), "b");
    assert_eq!(req.body, "payload");
}

#[test]
fn parse_collapses_repeated_whitespace_in_start_line() {
    let req = Request::from("GET   /a/b\t\tHTTP/1.1\r\n\r\n").unwrap();
    assert_eq!(req.path, "/a/b");
    assert_eq!(req.version, "1.1");
}

#[test]
fn parse_version_keeps_token_after_first_slash_only() {
    let req = Request::from("GET / HTTP/1.1/9\r\n\r\n").unwrap();
    assert_eq!(req.version, "1.1");
}

#[test]
fn parse_accepts_signed_version_number() {
    let req = Request::from("GET / HTTP/-1.1\r\n\r\n").unwrap();
    assert_eq!(req.version, "-1.1");
}

#[test]
fn parse_keeps_trailing_carriage_return_on_final_line() {
    let req = Request::from("GET / HTTP/1.1\r\n\r\nbody\r").unwrap();
    assert_eq!(req.body, "body\r");
}

#[test]
fn parse_splits_start_line_on_unicode_whitespace() {
    let req = Request::from("GET\u{a0}/path\u{a0}HTTP/1.1\r\n\r\n").unwrap();
    assert_eq!(req.path, "/path");
    assert_eq!(req.version, "1.1");
}

#[test]
fn parse_trims_unicode_whitespace_around_header_values() {
    let req = Request::from("GET / HTTP/1.1\r\nA:\u{a0}v\u{a0}\r\n\r\n").unwrap();
    assert_eq!(req.headers.get("A").unwrap().as_str(), "v");
}

#[test]
fn version_accepts_every_float_parse_form() {
    let toks = [
        "1", "007", "1.5", ".5", "5.", "-1.1", "+2.5", "1e3", "1E-2", "2.5e+10", "inf",
        "Infinity", "nan", "NaN", "-inf", "+INF",
    ];
    for tok in toks {
        let req = RequestBuilder::new().method("GET").path("/").version(tok).build().unwrap();
        assert_eq!(req.version, tok);
    }
}

#[test]
fn version_rejects_what_a_float_parse_rejects() {
    let toks = [
        "", ".", "-", "+", "-.", "e3", "1e", "1e+", "--1", "1.2.3", "nan7", "in", "infinit",
        "1 ", "1,5", "0x1",
    ];
    for tok in toks {
        let r = RequestBuilder::new().method("GET").path("/").version(tok).build();
        assert_eq!(err_message(r), "Unspecified HTTP version");
    }
}

#[test]
fn builder_with_nothing_reports_method() {
    let r = RequestBuilder::new().build();
    assert_eq!(err_message(r), "Unspecified HTTP method");
}

#[test]
fn builder_method_alone_reports_version() {
    let r = RequestBuilder::new().method("GET").build();
    assert_eq!(err_message(r), "Unspecified HTTP version");
}

#[test]
fn builder_without_path_reports_path() {
    let r = RequestBuilder::new().method("GET").version("1.1").build();
    assert_eq!(err_message(r), "Unspecified HTTP path");
}

#[test]
fn builder_builds_with_required_fields() {
    let req = RequestBuilder::new().method("GET").version("1.1").path("/").build().unwrap();
    assert_eq!(req.method, HTTPMethod::GET);
    assert_eq!(req.path, "/");
    assert_eq!(req.version, "1.1");
    assert_eq!(req.headers.len(), 0);
    assert_eq!(req.body, "");
}

#[test]
fn builder_unknown_method_keeps_prior_value() {
    let req = Request::new().method("GET").method("FOO").version("1.1").path("/").build().unwrap();
    assert_eq!(req.method, HTTPMethod::GET);
}

#[test]
fn builder_invalid_version_keeps_prior_value() {
    let req = RequestBuilder::new().method("GET").version("1.1").version("nope").path("/").build().unwrap();
    assert_eq!(req.version, "1.1");
}

#[test]
fn builder_header_upsert_keeps_one_entry() {
    let req = RequestBuilder::new()
        .method("GET")
        .version("1.1")
        .path("/")
        .header("A", "1")
        .header("A", "2")
        .build()
        .unwrap();
    assert_eq!(req.headers.len(), 1);
    assert_eq!(req.headers.get("A").unwrap().as_str(), "2");
}

#[test]
fn builder_headers_replaces_the_whole_mapping() {
    let mut h = Headers::new();
    h.insert(String::from("X"), String::from("y"));
    let req = RequestBuilder::new()
        .method("GET")
        .version("1.1")
        .path("/")
        .header("A", "1")
        .headers(h)
        .build()
        .unwrap();
    assert_eq!(req.headers.len(), 1);
    assert!(req.headers.get("A").is_none());
    assert_eq!(req.headers.get("X").unwrap().as_str(), "y");
}

#[test]
fn builder_body_is_kept_verbatim() {
    let req = RequestBuilder::new().method("PUT").version("1.0").path("/x").body("data").build().unwrap();
    assert_eq!(req.body, "data");
}

#[test]
fn method_tokens_round_trip() {
    let all = [
        HTTPMethod::GET,
        HTTPMethod::POST,
        HTTPMethod::PUT,
        HTTPMethod::DELETE,
        HTTPMethod::PATCH,
        HTTPMethod::HEAD,
        HTTPMethod::CONNECT,
        HTTPMethod::OPTIONS,
        HTTPMethod::TRACE,
    ];
    for m in all {
        assert_eq!(HTTPMethod::from_str(m.as_str()), Some(m));
    }
}

#[test]
fn method_unknown_tokens_map_to_none() {
    assert_eq!(HTTPMethod::from_str("get"), None);
    assert_eq!(HTTPMethod::from_str(""), None);
    assert_eq!(HTTPMethod::from_str("GETS"), None);
}

#[test]
fn parse_error_carries_its_message() {
    let e = ParseError::new("something went wrong");
    assert_eq!(e.message(), "something went wrong");
}
