use minihttp::connection::{internal_error_line, parse_received, resolve};
use minihttp::headers::HeaderMap;
use minihttp::reader::{reader_step, READ_CHUNK};
use minihttp::request::{HttpError, Request};
use minihttp::response::{bytes, err, err_with_headers, not_found_response, redirect, Response};
use minihttp::router::RouteTable;
use minihttp::serialize::serialize_response;

#[test]
fn reader_returns_exact_bytes_for_non_multiple_payload() {
    // 300 bytes: two full chunks and one short chunk of 44
    let payload: Vec<u8> = (0..300u32).map(|i| (i % 251) as u8).collect();
    let mut acc: Vec<u8> = Vec::new();
    assert!(reader_step(&mut acc, &payload[0..READ_CHUNK]));
    assert!(reader_step(&mut acc, &payload[READ_CHUNK..2 * READ_CHUNK]));
    assert!(!reader_step(&mut acc, &payload[2 * READ_CHUNK..300]));
    assert_eq!(acc, payload);
}

#[test]
fn reader_returns_exact_bytes_for_single_short_chunk() {
    let payload: Vec<u8> = (0..50u8).collect();
    let mut acc: Vec<u8> = Vec::new();
    assert!(!reader_step(&mut acc, &payload[..]));
    assert_eq!(acc, payload);
}

#[test]
fn parse_simple_get_request() {
    let req = Request::new("GET /foo HTTP/1.1\r\nHost: x\r\n\r\n".to_string()).unwrap();
    assert_eq!(req.method, "GET");
    assert_eq!(req.path, "/foo");
    assert_eq!(req.http_version, "HTTP/1.1");
    assert_eq!(req.headers.len(), 1);
    assert_eq!(req.headers.get(&"Host".to_string()), Some(&"x".to_string()));
}

#[test]
fn parse_duplicate_header_last_wins() {
    let req = Request::new("GET / HTTP/1.1\r\nA: 1\r\nA: 2\r\n\r\n".to_string()).unwrap();
    assert_eq!(req.headers.get(&"A".to_string()), Some(&"2".to_string()));
    assert_eq!(req.headers.len(), 1);
}

#[test]
fn parse_header_value_keeps_later_separators() {
    let req = Request::new("GET / HTTP/1.1\r\nHost: a: b\r\n\r\n".to_string()).unwrap();
    assert_eq!(req.headers.get(&"Host".to_string()), Some(&"a: b".to_string()));
}

#[test]
fn parse_discards_body_after_blank_line() {
    let req = Request::new("GET / HTTP/1.1\r\nH: v\r\n\r\nX: looks-like-a-header".to_string())
        .unwrap();
    assert_eq!(req.headers.len(), 1);
    assert_eq!(req.headers.get(&"H".to_string()), Some(&"v".to_string()));
    assert_eq!(req.headers.get(&"X".to_string()), None);
}

#[test]
fn parse_short_request_line_is_malformed() {
    let r = Request::new("GET /\r\n\r\n".to_string());
    assert_eq!(r.err(), Some(HttpError::Malformed));
}

#[test]
fn parse_empty_input_is_malformed() {
    let r = Request::new(String::new());
    assert_eq!(r.err(), Some(HttpError::Malformed));
}

#[test]
fn parse_header_without_separator_is_malformed() {
    let r = Request::new("GET / HTTP/1.1\r\nBadHeader\r\n\r\n".to_string());
    assert_eq!(r.err(), Some(HttpError::Malformed));
}

#[test]
fn parse_non_ascii_text_decodes() {
    let raw = "GET /h\u{e9}llo HTTP/1.1\r\nName: caf\u{e9}\r\n\r\n";
    let req = parse_received(&raw.as_bytes().to_vec()).unwrap();
    assert_eq!(req.path, "/h\u{e9}llo");
    assert_eq!(req.headers.get(&"Name".to_string()), Some(&"caf\u{e9}".to_string()));
}

#[test]
fn parse_received_rejects_non_text_bytes() {
    let r = parse_received(&vec![0xff, 0xfe, 0x80, 0x00]);
    assert_eq!(r.err(), Some(HttpError::Decode));
}

#[test]
fn request_to_string_is_method_and_path() {
    let mut req = Request::new("GET /foo HTTP/1.1\r\n\r\n".to_string()).unwrap();
    assert_eq!(req.to_string(), "GET /foo");
}

#[test]
fn router_dispatches_exact_match_and_fallback() {
    let mut t: RouteTable<u32> = RouteTable::new(0);
    t.route("/a", 1);
    t.route("/b", 2);
    assert_eq!(*t.lookup(&"/a".to_string()), 1);
    assert_eq!(*t.lookup(&"/b".to_string()), 2);
    assert_eq!(*t.lookup(&"/c".to_string()), 0);
    // no normalization: near misses fall back
    assert_eq!(*t.lookup(&"/a/".to_string()), 0);
    assert_eq!(*t.lookup(&"/A".to_string()), 0);
}

#[test]
fn router_reregistration_replaces_handler() {
    let mut t: RouteTable<u32> = RouteTable::new(0);
    t.route("/a", 1);
    t.route("/a", 2);
    assert_eq!(*t.lookup(&"/a".to_string()), 2);
}

#[test]
fn router_route404_replaces_fallback() {
    let mut t: RouteTable<u32> = RouteTable::new(0);
    t.route404(9);
    assert_eq!(*t.lookup(&"/missing".to_string()), 9);
}

#[test]
fn serialize_ok_response_round_trip() {
    let body = "hello".as_bytes().to_vec();
    let wire = serialize_response(&bytes(body));
    let expected = "HTTP/1.1 200 Ok\r\nServer: Rust/1.0.0 (Windows)\r\n\r\nhello";
    assert_eq!(wire, expected.as_bytes().to_vec());
}

#[test]
fn serialize_orders_headers_by_name() {
    let mut h = HeaderMap::new();
    h.insert("B".to_string(), "2".to_string());
    h.insert("A".to_string(), "1".to_string());
    let wire = serialize_response(&err_with_headers(200, "Ok", h));
    let expected = "HTTP/1.1 200 Ok\r\nServer: Rust/1.0.0 (Windows)\r\nA: 1\r\nB: 2\r\n\r\n";
    assert_eq!(wire, expected.as_bytes().to_vec());
}

#[test]
fn serialize_negative_code_verbatim() {
    let wire = serialize_response(&err(-5, "Odd"));
    let expected = "HTTP/1.1 -5 Odd\r\nServer: Rust/1.0.0 (Windows)\r\n\r\n";
    assert_eq!(wire, expected.as_bytes().to_vec());
}

#[test]
fn header_insert_replaces_value() {
    let mut h = HeaderMap::new();
    h.insert("K".to_string(), "1".to_string());
    h.insert("K".to_string(), "2".to_string());
    assert_eq!(h.len(), 1);
    assert_eq!(h.get(&"K".to_string()), Some(&"2".to_string()));
}

#[test]
fn helper_str_is_ok_with_text_body() {
    let r = minihttp::str("hi");
    assert_eq!(r.data, "hi".as_bytes().to_vec());
    assert_eq!(r.code.code, 200);
    assert_eq!(r.code.description, "Ok");
    assert_eq!(r.headers.len(), 0);
}

#[test]
fn helper_err_is_empty_body_with_status() {
    let r = err(500, "Oops");
    assert_eq!(r.data.len(), 0);
    assert_eq!(r.code.code, 500);
    assert_eq!(r.code.description, "Oops");
}

#[test]
fn redirect_sets_status_and_location() {
    let r = redirect("/new");
    assert_eq!(r.code.code, 301);
    assert_eq!(r.code.description, "Moved Permanently");
    assert_eq!(r.headers.get(&"Location".to_string()), Some(&"/new".to_string()));
    assert_eq!(r.data.len(), 0);
}

#[test]
fn unmatched_route_yields_default_not_found_end_to_end() {
    let fallback = (|_req: &mut Request| not_found_response()) as fn(&mut Request) -> Response;
    let table: RouteTable<fn(&mut Request) -> Response> = RouteTable::new(fallback);
    let received = "GET /missing HTTP/1.1\r\n\r\n".as_bytes().to_vec();
    let (mut req, handler) = resolve(&table, &received).unwrap();
    assert_eq!(req.path, "/missing");
    let resp = handler(&mut req);
    assert_eq!(resp.code.code, 404);
    let wire = serialize_response(&resp);
    let expected = "HTTP/1.1 404 Not found\r\nServer: Rust/1.0.0 (Windows)\r\n\r\n\
        <html><body>404</body></html>";
    assert_eq!(wire, expected.as_bytes().to_vec());
}

#[test]
fn resolve_dispatches_registered_route_end_to_end() {
    let fallback = (|_req: &mut Request| not_found_response()) as fn(&mut Request) -> Response;
    let mut table: RouteTable<fn(&mut Request) -> Response> = RouteTable::new(fallback);
    table.route("/hi", (|_req: &mut Request| minihttp::str("hello")) as fn(
        &mut Request,
    ) -> Response);
    let received = "GET /hi HTTP/1.1\r\nHost: x\r\n\r\n".as_bytes().to_vec();
    let (mut req, handler) = resolve(&table, &received).unwrap();
    let resp = handler(&mut req);
    let wire = serialize_response(&resp);
    let expected = "HTTP/1.1 200 Ok\r\nServer: Rust/1.0.0 (Windows)\r\n\r\nhello";
    assert_eq!(wire, expected.as_bytes().to_vec());
}

#[test]
fn resolve_reports_decode_failure() {
    let table: RouteTable<u32> = RouteTable::new(0);
    let r = resolve(&table, &vec![0xc0, 0x21]);
    assert_eq!(r.err(), Some(HttpError::Decode));
}

#[test]
fn internal_error_line_text() {
    assert_eq!(internal_error_line(), "500 Internal Server Error");
}
