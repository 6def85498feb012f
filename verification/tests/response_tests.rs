use http_core::headers::Headers;
use http_core::response::{default_response, status_message, Body, Response, ResponseBuilder};

#[test]
fn default_response_is_plain_text_ok() {
    let resp = default_response();
    assert_eq!(resp.status, 200);
    assert_eq!(resp.status_message, "OK");
    assert_eq!(resp.version, "1.1");
    assert_eq!(resp.headers.len(), 1);
    assert_eq!(resp.headers.get("Content-Type").unwrap().as_str(), "text/plain");
    assert!(resp.body.is_empty());
    assert_eq!(
        resp.serialize(),
        b"HTTP/1.1 200 OK\r\nContent-Type: text/plain\r\n\r\n\r\n".to_vec()
    );
}

#[test]
fn defaults_give_plain_ok_response() {
    let resp = ResponseBuilder::new().build();
    assert_eq!(resp.status, 200);
    assert_eq!(resp.status_message, "OK");
    assert_eq!(resp.version, "1.1");
    assert_eq!(resp.headers.len(), 0);
    assert!(resp.body.is_empty());
    assert_eq!(resp.serialize(), b"HTTP/1.1 200 OK\r\n\r\n\r\n".to_vec());
}

#[test]
fn not_found_round_trip() {
    let resp = Response::new().status_code(404).build();
    assert_eq!(resp.status, 404);
    assert_eq!(resp.status_message, "Not Found");
    assert_eq!(resp.serialize(), b"HTTP/1.1 404 Not Found\r\n\r\n\r\n".to_vec());
}

#[test]
fn unknown_status_falls_back_to_internal_server_error() {
    let resp = ResponseBuilder::new().status_code(999).build();
    assert_eq!(resp.status, 999);
    assert_eq!(resp.status_message, "Internal Server Error");
}

#[test]
fn headers_and_text_body_serialize_in_order() {
    let resp = Response::new()
        .status_code(200)
        .header("Content-Type", "text/plain")
        .header("X-A", "1")
        .body(Body::Text(String::from("hi")))
        .build();
    assert_eq!(
        resp.serialize(),
        b"HTTP/1.1 200 OK\r\nContent-Type: text/plain\r\nX-A: 1\r\n\r\nhi\r\n".to_vec()
    );
}

#[test]
fn byte_body_is_taken_verbatim() {
    let resp = Response::new().body(Body::Bytes(vec![0u8, 159u8, 146u8])).build();
    let out = resp.serialize();
    let expected: Vec<u8> = {
        let mut v = b"HTTP/1.1 200 OK\r\n\r\n".to_vec();
        v.extend_from_slice(&[0u8, 159u8, 146u8]);
        v.extend_from_slice(b"\r\n");
        v
    };
    assert_eq!(out, expected);
}

#[test]
fn later_body_call_wins() {
    let resp = Response::new()
        .body(Body::Bytes(vec![1u8, 2u8]))
        .body(Body::Text(String::from("x")))
        .build();
    assert_eq!(resp.body, b"x".to_vec());
}

#[test]
fn header_upsert_keeps_one_entry_with_second_value() {
    let resp = Response::new().header("A", "1").header("A", "2").build();
    assert_eq!(resp.headers.len(), 1);
    assert_eq!(resp.headers.get("A").unwrap().as_str(), "2");
}

#[test]
fn version_setter_changes_status_line() {
    let resp = Response::new().status_code(204).version("2.0").build();
    assert_eq!(resp.serialize(), b"HTTP/2.0 204 No Content\r\n\r\n\r\n".to_vec());
}

#[test]
fn invalid_version_token_is_ignored() {
    let resp = Response::new().version("two.point.oh").build();
    assert_eq!(resp.version, "1.1");
}

#[test]
fn status_table_spot_checks() {
    assert_eq!(status_message(100), "Continue");
    assert_eq!(status_message(218), "This is fine");
    assert_eq!(status_message(301), "Moved Permanently");
    assert_eq!(status_message(411), "Length Required");
    assert_eq!(status_message(418), "I'm a teapot");
    assert_eq!(status_message(511), "Network Authentication Required");
    assert_eq!(status_message(42), "Internal Server Error");
    assert_eq!(status_message(600), "Internal Server Error");
}

#[test]
fn multi_digit_statuses_render_in_decimal() {
    let resp = Response::new().status_code(507).build();
    let out = resp.serialize();
    let head = String::from_utf8(out).unwrap();
    assert!(head.starts_with("HTTP/1.1 507 Insufficient Storage\r\n"));
}

#[test]
fn headers_map_basics() {
    let mut h = Headers::new();
    assert_eq!(h.len(), 0);
    assert!(h.get("A").is_none());
    h.insert(String::from("A"), String::from("1"));
    h.insert(String::from("B"), String::from("2"));
    h.insert(String::from("A"), String::from("3"));
    assert_eq!(h.len(), 2);
    assert_eq!(h.get("A").unwrap().as_str(), "3");
    assert_eq!(h.get("B").unwrap().as_str(), "2");
    assert_eq!(h.name_at(0).as_str(), "A");
    assert_eq!(h.value_at(0).as_str(), "3");
    assert_eq!(h.name_at(1).as_str(), "B");
}
