use std::cmp::Ordering;
use std::io::Read;

use slhs::compression::{
    contains_method, enabled_methods, parse_accept_encoding, pick_method, sort_methods,
    CompressionMethod,
};
use slhs::Response;
use CompressionMethod::{Brotli, Gzip};

const GZIP_OF_NOTHING: [u8; 20] = [
    0x1f, 0x8b, 0x08, 0x00, 0x00, 0x00, 0x00, 0x00, 0x02, 0xff, 0x03, 0x00, 0x00, 0x00, 0x00,
    0x00, 0x00, 0x00, 0x00, 0x00,
];

#[test]
fn names_of_methods() {
    assert_eq!(CompressionMethod::from_name("gzip"), Some(CompressionMethod::Gzip));
    assert_eq!(CompressionMethod::from_name("br"), Some(CompressionMethod::Brotli));
    assert_eq!(CompressionMethod::from_name("brotli"), Some(CompressionMethod::Brotli));
    assert_eq!(CompressionMethod::from_name("deflate"), None);
    assert_eq!(CompressionMethod::from_name("GZIP"), None);
    assert_eq!(CompressionMethod::from_name(""), None);
    assert_eq!("br".parse::<CompressionMethod>(), Ok(CompressionMethod::Brotli));
    assert_eq!("x".parse::<CompressionMethod>(), Err(()));
    assert_eq!(CompressionMethod::Brotli.token(), "br");
    assert_eq!(CompressionMethod::Gzip.token(), "gzip");
}

#[test]
fn brotli_is_preferred() {
    let b = CompressionMethod::Brotli;
    let g = CompressionMethod::Gzip;
    assert_eq!(b.compare(&g), Ordering::Less);
    assert_eq!(g.compare(&b), Ordering::Greater);
    assert_eq!(g.compare(&g), Ordering::Equal);
    assert_eq!(b.partial_cmp(&g), Some(Ordering::Less));
    assert!(b < g);
}

#[test]
fn sorting_puts_brotli_first() {
    assert_eq!(sort_methods(&vec![Gzip, Brotli, Gzip, Brotli]), vec![Brotli, Brotli, Gzip, Gzip]);
    assert_eq!(sort_methods(&vec![]), vec![]);
    assert_eq!(enabled_methods(), vec![Brotli, Gzip]);
}

#[test]
fn picking_a_method() {
    let order = vec![Brotli, Gzip];
    assert_eq!(pick_method(&order, &vec![Gzip, Brotli]), Some(Brotli));
    assert_eq!(pick_method(&order, &vec![Gzip]), Some(Gzip));
    assert_eq!(pick_method(&order, &vec![]), None);
    assert!(contains_method(&vec![Gzip], Gzip));
    assert!(!contains_method(&vec![Gzip], Brotli));
}

#[test]
fn accept_encoding_lists() {
    assert_eq!(parse_accept_encoding("gzip, br"), vec![Gzip, Brotli]);
    assert_eq!(parse_accept_encoding(" br ,deflate,\tgzip "), vec![Brotli, Gzip]);
    assert_eq!(parse_accept_encoding("gzip;q=1.0, identity"), vec![]);
    assert_eq!(parse_accept_encoding(""), vec![]);
    assert_eq!(parse_accept_encoding("brotli,brotli"), vec![Brotli, Brotli]);
}

#[test]
fn no_accept_encoding_means_plain_body() {
    let res = Response::new(None);
    let (data, used) = res.compress(b"plain".to_vec());
    assert_eq!(data, b"plain".to_vec());
    assert_eq!(used, None);
    let res = Response::new(Some(vec![]));
    let (data, used) = res.compress(b"plain".to_vec());
    assert_eq!(data, b"plain".to_vec());
    assert_eq!(used, None);
}

#[test]
fn brotli_body_decodes_back() {
    let body = b"I'm a little teapot, short and stout...".repeat(10);
    let res = Response::new(Some(vec![CompressionMethod::Gzip, CompressionMethod::Brotli]));
    let (data, used) = res.compress(body.clone());
    assert_eq!(used, Some(CompressionMethod::Brotli));
    assert_ne!(data, body);
    let mut decoded = Vec::new();
    brotli::BrotliDecompress(&mut &data[..], &mut decoded).unwrap();
    assert_eq!(decoded, body);
}

fn gunzip(data: &[u8]) -> Vec<u8> {
    let mut decoded = Vec::new();
    flate2::read::GzDecoder::new(data).read_to_end(&mut decoded).unwrap();
    decoded
}

#[test]
fn gzip_body_decodes_back() {
    let body = b"some body, some body, some body".to_vec();
    let res = Response::new(Some(vec![CompressionMethod::Gzip]));
    let (data, used) = res.compress(body.clone());
    assert_eq!(used, Some(CompressionMethod::Gzip));
    assert_ne!(data, body);
    assert_eq!(gunzip(&data), body);
}

#[test]
fn gzip_of_empty_body() {
    let res = Response::new(None);
    assert_eq!(res.compress_with_gzip(Vec::new()), GZIP_OF_NOTHING.to_vec());
}

#[test]
fn end_with_gzip_announces_it() {
    let mut res = Response::new(Some(vec![CompressionMethod::Gzip]));
    res.status(418);
    let (head, body) = res.end("I'm a little teapot");
    assert_eq!(
        head,
        format!(
            "HTTP/1.1 418 I'm a teapot\r\nContent-Length: {}\r\nServer: BootLeg-HTTP\r\nContent-Encoding: gzip\r\n\r\n",
            body.len()
        )
    );
    assert_eq!(gunzip(&body), b"I'm a little teapot".to_vec());
}

#[test]
fn compress_with_each_method() {
    let res = Response::new(None);
    assert_eq!(gunzip(&res.compress_with_gzip(b"abc".to_vec())), b"abc".to_vec());
    assert_eq!(
        gunzip(&res.compress_with(b"abc".to_vec(), CompressionMethod::Gzip)),
        b"abc".to_vec()
    );
    let br = res.compress_with_brotli(b"abc".to_vec());
    let mut decoded = Vec::new();
    brotli::BrotliDecompress(&mut &br[..], &mut decoded).unwrap();
    assert_eq!(decoded, b"abc".to_vec());
    let br2 = res.compress_with(b"abc".to_vec(), CompressionMethod::Brotli);
    assert_eq!(br2, br);
}
