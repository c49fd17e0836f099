//! Tests of the header container and the typed header fields.

use hyper::header::common::{ContentLength, Encoding, Header, Host, TransferEncoding};
use hyper::header::Headers;
use hyper::http::head::parse_request;

#[test]
fn test_from_raw() {
    let (inc, _) = parse_request(b"GET / HTTP/1.1\r\nContent-Length: 10\r\n\r\n")
        .unwrap()
        .unwrap();
    assert_eq!(inc.headers.get::<ContentLength>(), Some(ContentLength(10)));
}

#[test]
fn test_trailing_whitespace() {
    let (inc, _) = parse_request(b"GET / HTTP/1.1\r\nContent-Length: 10   \r\n\r\n")
        .unwrap()
        .unwrap();
    assert_eq!(inc.headers.get::<ContentLength>(), Some(ContentLength(10)));
}

#[test]
fn test_multiple_reads() {
    let (inc, _) = parse_request(b"GET / HTTP/1.1\r\nContent-Length: 10\r\n\r\n")
        .unwrap()
        .unwrap();
    let ContentLength(one) = inc.headers.get::<ContentLength>().unwrap();
    let ContentLength(two) = inc.headers.get::<ContentLength>().unwrap();
    assert_eq!(one, two);
}

#[test]
fn test_set_raw() {
    let mut headers = Headers::new();
    headers.set(ContentLength(10));
    headers.set_raw(b"content-LENGTH".to_vec(), vec![b"20".to_vec()]);
    assert_eq!(
        headers.get_raw(b"Content-length").unwrap(),
        vec![b"20".to_vec()]
    );
    assert_eq!(headers.get::<ContentLength>(), Some(ContentLength(20)));
}

#[test]
fn test_remove_raw() {
    let mut headers = Headers::new();
    headers.set_raw(b"content-LENGTH".to_vec(), vec![b"20".to_vec()]);
    headers.remove_raw(b"content-LENGTH");
    assert_eq!(headers.get_raw(b"Content-length"), None);
}

#[test]
fn test_len() {
    let mut headers = Headers::new();
    headers.set(ContentLength(10));
    assert_eq!(headers.len(), 1);
    headers.set(TransferEncoding(vec![Encoding::Chunked]));
    assert_eq!(headers.len(), 2);
    // Redundant, should not increase count.
    headers.set(ContentLength(20));
    assert_eq!(headers.len(), 2);
}

#[test]
fn test_clear() {
    let mut headers = Headers::new();
    headers.set(ContentLength(10));
    headers.set(TransferEncoding(vec![Encoding::Chunked]));
    assert_eq!(headers.len(), 2);
    headers.clear();
    assert_eq!(headers.len(), 0);
}

#[test]
fn test_transfer_encoding_parse() {
    let raw = vec![b"gzip, chunked".to_vec()];
    let te = TransferEncoding::parse_header(&raw).unwrap();
    assert_eq!(te.len(), 2);
    assert_eq!(te.encodings()[0], Encoding::Gzip);
    assert_eq!(te.encodings()[1], Encoding::Chunked);
}

#[test]
fn test_iter() {
    let mut headers = Headers::new();
    headers.set(ContentLength(11));
    let mut seen = 0;
    for i in 0..headers.len() {
        assert_eq!(headers.name_at(i), b"content-length".to_vec());
        assert_eq!(headers.raw_at(i), vec![b"11".to_vec()]);
        seen += 1;
    }
    assert_eq!(seen, 1);
}

#[test]
fn test_host() {
    let raw = vec![b"foo.com".to_vec()];
    let host = Host::parse_header(&raw);
    assert_eq!(
        host,
        Some(Host { hostname: "foo.com".to_string(), port: None })
    );

    let raw = vec![b"foo.com:8080".to_vec()];
    let host = Host::parse_header(&raw);
    assert_eq!(
        host,
        Some(Host { hostname: "foo.com".to_string(), port: Some(8080) })
    );
}
