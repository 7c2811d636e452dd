use slhs::compression::CompressionMethod;
use slhs::response::{
    build_response, build_streaming_response, event_stream_head, join_header_lines, keep_encoded,
    sse_event, status_text,
};
use slhs::{Response, TextMap};

fn map(pairs: &[(&str, &str)]) -> TextMap {
    let mut m = TextMap::new();
    for (k, v) in pairs {
        m.insert(k.to_string(), v.to_string());
    }
    m
}

#[test]
fn end_defaults_to_200_ok() {
    let res = Response::new(None);
    let (head, body) = res.end("Hello from SLHS!");
    assert_eq!(
        head,
        "HTTP/1.1 200 OK\r\nContent-Length: 16\r\nServer: BootLeg-HTTP\r\n\r\n"
    );
    assert_eq!(body, b"Hello from SLHS!".to_vec());
}

#[test]
fn end_uses_status_and_reason() {
    let mut res = Response::new(None);
    res.status(201);
    let (head, body) = res.end(String::from("Thanks"));
    assert_eq!(
        head,
        "HTTP/1.1 201 Created\r\nContent-Length: 6\r\nServer: BootLeg-HTTP\r\n\r\n"
    );
    assert_eq!(body, b"Thanks".to_vec());
}

#[test]
fn teapot_and_forbidden_reasons() {
    assert_eq!(status_text(418), "I'm a teapot");
    assert_eq!(status_text(403), "Forbidden");
    assert_eq!(status_text(504), "Gateway Timeout");
    assert_eq!(status_text(999), "Unknown Status Code");
    assert_eq!(status_text(-1), "Unknown Status Code");
}

#[test]
fn every_listed_reason_phrase() {
    let table = [
        (200, "OK"),
        (201, "Created"),
        (202, "Accepted"),
        (204, "No Content"),
        (301, "Moved Permanently"),
        (302, "Found"),
        (304, "Not Modified"),
        (400, "Bad Request"),
        (401, "Unauthorized"),
        (403, "Forbidden"),
        (404, "Not Found"),
        (405, "Method Not Allowed"),
        (408, "Request Timeout"),
        (409, "Conflict"),
        (410, "Gone"),
        (418, "I'm a teapot"),
        (429, "Too Many Requests"),
        (500, "Internal Server Error"),
        (501, "Not Implemented"),
        (502, "Bad Gateway"),
        (503, "Service Unavailable"),
        (504, "Gateway Timeout"),
    ];
    for (code, text) in table {
        assert_eq!(status_text(code), text);
    }
}

#[test]
fn unknown_and_negative_status_lines() {
    let mut res = Response::new(None);
    res.status(-42);
    let (head, _) = res.end(Vec::<u8>::new());
    assert_eq!(
        head,
        "HTTP/1.1 -42 Unknown Status Code\r\nContent-Length: 0\r\nServer: BootLeg-HTTP\r\n\r\n"
    );
    let mut res = Response::new(None);
    res.status(i32::MIN);
    let (head, _) = res.end(&b"x"[..]);
    assert!(head.starts_with("HTTP/1.1 -2147483648 Unknown Status Code\r\n"));
}

#[test]
fn headers_appear_in_insertion_order() {
    let mut res = Response::new(None);
    res.headers(map(&[("X-Powered-By", "SLHS"), ("Content-Type", "text/plain")]));
    let (head, body) = res.end("Hello, Alice!");
    assert_eq!(
        head,
        "HTTP/1.1 200 OK\r\nContent-Length: 13\r\nServer: BootLeg-HTTP\r\nX-Powered-By: SLHS\r\nContent-Type: text/plain\r\n\r\n"
    );
    assert_eq!(body, b"Hello, Alice!".to_vec());
}

#[test]
fn content_length_counts_utf8_bytes() {
    let res = Response::new(None);
    let (head, body) = res.end("héllo");
    assert_eq!(body.len(), 6);
    assert!(head.contains("Content-Length: 6\r\n"));
}

#[test]
fn join_lines_of_headers() {
    let m = map(&[("a", "1"), ("b", "2")]);
    assert_eq!(join_header_lines(&m), "a: 1\r\nb: 2\r\n");
    assert_eq!(join_header_lines(&TextMap::new()), "");
}

#[test]
fn build_response_announces_encoding() {
    let (head, body) = build_response(
        200,
        "OK",
        map(&[("Content-Encoding", "identity"), ("A", "b")]),
        vec![1, 2, 3],
        Some(CompressionMethod::Brotli),
    );
    assert_eq!(
        head,
        "HTTP/1.1 200 OK\r\nContent-Length: 3\r\nServer: BootLeg-HTTP\r\nContent-Encoding: br\r\nA: b\r\n\r\n"
    );
    assert_eq!(body, vec![1, 2, 3]);
}

#[test]
fn streaming_head_has_no_length() {
    let bytes = build_streaming_response(200, "OK", &map(&[("K", "v")]));
    assert_eq!(
        String::from_utf8(bytes).unwrap(),
        "HTTP/1.1 200 OK\r\nServer: BootLeg-HTTP\r\nK: v\r\n\r\n"
    );
}

#[test]
fn event_stream_head_bytes() {
    let bytes = event_stream_head();
    assert_eq!(
        String::from_utf8(bytes).unwrap(),
        "HTTP/1.1 200 OK\r\nServer: BootLeg-HTTP\r\nContent-Type: text/event-stream\r\nConnection: close\r\nCache-Control: no-cache\r\nAccess-Control-Allow-Origin: *\r\n\r\n"
    );
}

#[test]
fn sse_event_framing() {
    assert_eq!(sse_event("tick"), "data: tick\n\n");
    assert_eq!(sse_event(""), "data: \n\n");
}

#[test]
fn keep_encoded_falls_back_to_body() {
    assert_eq!(keep_encoded(Some(vec![9]), vec![1]), vec![9]);
    assert_eq!(keep_encoded(Some(vec![]), vec![1]), vec![1]);
    assert_eq!(keep_encoded(None, vec![1]), vec![1]);
}

#[test]
fn byte_array_and_borrowed_bodies() {
    let (head, body) = Response::new(None).end(b"bytes");
    assert!(head.contains("Content-Length: 5\r\n"));
    assert_eq!(body, b"bytes".to_vec());
    let (_, body) = Response::new(None).end([1u8, 2, 3]);
    assert_eq!(body, vec![1, 2, 3]);
    let s = String::from("text");
    let (_, body) = Response::new(None).end(&s);
    assert_eq!(body, b"text".to_vec());
    let v = vec![4u8, 5];
    let (_, body) = Response::new(None).end(&v);
    assert_eq!(body, vec![4, 5]);
}

#[test]
fn request_parts_print_with_debug() {
    let m = map(&[("name", "Alice")]);
    let printed = format!("{:?}", m);
    assert!(printed.contains("Alice"));
    let r = slhs::Request::new(m, None, TextMap::new());
    assert!(format!("{:?}", r).contains("name"));
}
