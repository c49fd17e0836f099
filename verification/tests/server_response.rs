//! Tests of the handler-facing response writer.

use hyper::header::common::ContentLength;
use hyper::server::response::Response;
use hyper::status::StatusCode;

#[test]
fn test_fresh_start() {
    let mut res = Response::new();
    res.start();
    let wire = res.end().unwrap();
    let text = String::from_utf8(wire).unwrap();
    let mut lines = text.split_terminator("\r\n");
    assert_eq!(lines.next(), Some("HTTP/1.1 200 OK"));
    assert_eq!(lines.next(), Some("transfer-encoding: chunked"));
    assert_eq!(lines.next(), Some(""));
    assert_eq!(lines.next(), Some("0"));
    assert_eq!(lines.next(), Some(""));
    assert_eq!(lines.next(), None);
}

#[test]
fn test_streaming_end() {
    let mut res = Response::new();
    *res.status_mut() = StatusCode(404);
    res.start();
    res.write(b"foo").unwrap();
    let wire = res.end().unwrap();
    let text = String::from_utf8(wire).unwrap();
    assert!(text.starts_with("HTTP/1.1 404 Not Found\r\n"));
    assert!(text.ends_with("\r\n3\r\nfoo\r\n0\r\n\r\n"));
}

#[test]
fn test_send_sets_content_length() {
    let res = Response::new();
    let wire = res.send(b"Hello World!").unwrap();
    let text = String::from_utf8(wire).unwrap();
    assert!(text.starts_with("HTTP/1.1 200 OK\r\n"));
    assert!(text.contains("content-length: 12\r\n"));
    assert!(text.ends_with("\r\n\r\nHello World!"));
}

#[test]
fn test_typed_content_length_round_trip() {
    let mut res = Response::new();
    res.headers_mut().set(ContentLength(3));
    res.start();
    res.write(b"abc").unwrap();
    let wire = res.end().unwrap();
    let text = String::from_utf8(wire).unwrap();
    assert!(text.contains("content-length: 3\r\n"));
    assert!(text.ends_with("\r\n\r\nabc"));
}

#[test]
fn explicit_chunked_wins_over_length() {
    // the handler set both framings: chunked wins and the length is dropped
    let mut res = Response::new();
    res.headers_mut()
        .set_raw(b"transfer-encoding".to_vec(), vec![b"chunked".to_vec()]);
    res.headers_mut()
        .set_raw(b"content-length".to_vec(), vec![b"5".to_vec()]);
    res.start();
    res.write(b"hello").unwrap();
    let text = String::from_utf8(res.end().unwrap()).unwrap();
    assert!(!text.to_ascii_lowercase().contains("content-length"));
    assert!(text.ends_with("\r\n\r\n5\r\nhello\r\n0\r\n\r\n"));
}

#[test]
fn send_is_exactly_head_then_body() {
    let res = Response::new();
    let wire = res.send(b"foo bar baz").unwrap();
    let text = String::from_utf8(wire).unwrap();
    assert_eq!(
        text,
        "HTTP/1.1 200 OK\r\ncontent-length: 11\r\n\r\nfoo bar baz"
    );
}

#[test]
fn chunked_appends_to_existing_codings() {
    let mut res = Response::new();
    res.headers_mut()
        .set_raw(b"transfer-encoding".to_vec(), vec![b"gzip".to_vec()]);
    res.start();
    let text = String::from_utf8(res.end().unwrap()).unwrap();
    assert!(text.to_ascii_lowercase().contains("transfer-encoding: gzip, chunked"));
}
