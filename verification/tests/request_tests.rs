use slhs::compression::CompressionMethod;
use slhs::request::{
    absorb_chunk, accepted_codings, decode_request, parse_headers, parse_request,
    parse_request_bytes, parse_url_params, READ_CHUNK,
};
use slhs::{Request, RequestError, TextMap};

#[test]
fn url_params_basic() {
    let m = parse_url_params("a=b&c=d&e=f").unwrap();
    assert_eq!(m.len(), 3);
    assert_eq!(m.get("a").unwrap(), "b");
    assert_eq!(m.get("c").unwrap(), "d");
    assert_eq!(m.get("e").unwrap(), "f");
    assert!(m.get("b").is_none());
}

#[test]
fn url_params_edge_cases() {
    assert!(parse_url_params("").unwrap().is_empty());
    assert!(parse_url_params("a").is_none());
    assert!(parse_url_params("a=b&").is_none());
    assert!(parse_url_params("&a=b").is_none());
    let m = parse_url_params("a=1&a=2").unwrap();
    assert_eq!(m.len(), 1);
    assert_eq!(m.get("a").unwrap(), "2");
    let m = parse_url_params("k=v=w&=x").unwrap();
    assert_eq!(m.get("k").unwrap(), "v=w");
    assert_eq!(m.get("").unwrap(), "x");
}

#[test]
fn header_block_parsing() {
    let m = parse_headers("Host: a\r\nAccept: */*\r\n   \r\nbroken\r\nHost: b\r\nX:y");
    assert_eq!(m.len(), 2);
    assert_eq!(m.get("Host").unwrap(), "b");
    assert_eq!(m.get("Accept").unwrap(), "*/*");
    assert!(m.get("X").is_none());
    assert_eq!(m.entries()[0].0, "Host");
    let m = parse_headers("K: a: b");
    assert_eq!(m.get("K").unwrap(), "a: b");
    assert!(parse_headers("").is_empty());
}

#[test]
fn full_request_parsing() {
    let text = "GET /greet?name=Alice HTTP/1.1\r\nHost: localhost\r\nAccept-Encoding: gzip, br\r\n\r\nthe body";
    let p = parse_request(text).unwrap();
    assert_eq!(p.method, "get");
    assert_eq!(p.path, "/greet");
    assert_eq!(p.request.url_params.get("name").unwrap(), "Alice");
    assert_eq!(p.request.headers.get("Host").unwrap(), "localhost");
    assert_eq!(p.request.body, Some("the body".to_string()));
    assert_eq!(
        p.accepted,
        Some(vec![CompressionMethod::Gzip, CompressionMethod::Brotli])
    );
}

#[test]
fn request_without_body_or_encoding() {
    let p = parse_request("PoSt /submit HTTP/1.1\r\nHost: x\r\n\r\n").unwrap();
    assert_eq!(p.method, "post");
    assert_eq!(p.path, "/submit");
    assert!(p.request.url_params.is_empty());
    assert_eq!(p.request.body, None);
    assert_eq!(p.accepted, None);
    let p = parse_request("GET / HTTP/1.1\r\naccept-encoding: br\r\nAccept-Encoding: gzip\r\n\r\n").unwrap();
    assert_eq!(p.accepted, Some(vec![CompressionMethod::Brotli]));
    let p = parse_request("GET / HTTP/1.1\r\nAccept-encoding: deflate\r\n\r\n").unwrap();
    assert_eq!(p.accepted, Some(vec![]));
}

#[test]
fn malformed_requests() {
    assert_eq!(parse_request("GET /\r\n\r\n").err(), Some(RequestError::MissingRequestLine));
    assert_eq!(parse_request("").err(), Some(RequestError::MissingRequestLine));
    assert_eq!(
        parse_request("GET\r\nHost: x\r\n\r\n").err(),
        Some(RequestError::MalformedRequestLine)
    );
    assert_eq!(
        parse_request("GET /\r\nHost: x\r\n\r\n").err(),
        Some(RequestError::MalformedRequestLine)
    );
    assert_eq!(
        parse_request("GET /?a HTTP/1.1\r\nHost: x\r\n\r\n").err(),
        Some(RequestError::MalformedUrlParams)
    );
    assert_eq!(
        parse_request("GET / HTTP/1.1\r\n\r\n").err(),
        Some(RequestError::MissingRequestLine)
    );
}

#[test]
fn request_bytes_must_be_utf8() {
    assert_eq!(decode_request(vec![0xff, 0xfe]).err(), Some(RequestError::InvalidUtf8));
    assert_eq!(decode_request("héllo".as_bytes().to_vec()).unwrap(), "héllo");
    assert_eq!(
        parse_request_bytes(vec![b'G', 0xc3]).err(),
        Some(RequestError::InvalidUtf8)
    );
    let p = parse_request_bytes(b"GET /x HTTP/1.1\r\nHost: x\r\n\r\n".to_vec()).unwrap();
    assert_eq!(p.path, "/x");
}

#[test]
fn codings_from_header_fields() {
    let mut h = TextMap::new();
    assert_eq!(accepted_codings(&h), None);
    h.insert("Accept-Encoding".to_string(), "br, gzip".to_string());
    assert_eq!(
        accepted_codings(&h),
        Some(vec![CompressionMethod::Brotli, CompressionMethod::Gzip])
    );
}

#[test]
fn reading_chunks() {
    let mut req = Vec::new();
    assert!(absorb_chunk(&mut req, &[7u8; READ_CHUNK]));
    assert!(!absorb_chunk(&mut req, b"tail"));
    assert_eq!(req.len(), READ_CHUNK + 4);
    assert!(!absorb_chunk(&mut req, b""));
    assert_eq!(&req[READ_CHUNK..], b"tail");
}

#[test]
fn request_constructor() {
    let r = Request::new(TextMap::new(), Some("b".to_string()), TextMap::new());
    assert_eq!(r.body, Some("b".to_string()));
    assert!(r.headers.is_empty());
}
