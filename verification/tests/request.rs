//! Tests of reading requests off a connection: body framing and the chunked
//! decoder's error cases, as a server sees them.

use hyper::error::{HttpError, IoErrorKind};
use hyper::proto::conn::{Conn, Reading};
use hyper::proto::DecodedLength;

fn read_to_string(conn: &mut Conn) -> Result<String, IoErrorKind> {
    let mut body = Vec::new();
    // the transport already closed, so every poll either progresses or errors
    loop {
        if !matches!(conn.reading, Reading::Body(_)) {
            break;
        }
        match conn.poll_read_body(4096) {
            Ok(Some(mut data)) => body.append(&mut data),
            Ok(None) => {}
            Err(HttpError::HttpIoError(k)) => return Err(k),
            Err(_) => return Err(IoErrorKind::Other),
        }
    }
    Ok(String::from_utf8(body).unwrap())
}

fn request_conn(bytes: &[u8]) -> Conn {
    let mut conn = Conn::new(true);
    conn.feed(bytes);
    conn.set_read_eof();
    conn.poll_read_head().unwrap().unwrap();
    conn
}

#[test]
fn test_get_empty_body() {
    let mut conn = Conn::new(true);
    conn.feed(b"GET / HTTP/1.1\r\nHost: example.domain\r\n\r\nI'm a bad request.\r\n");
    let (_inc, len, _up) = conn.poll_read_head().unwrap().unwrap();
    assert_eq!(len, DecodedLength::Zero);
    assert!(matches!(conn.reading, Reading::KeepAlive));
}

#[test]
fn test_head_empty_body() {
    let mut conn = Conn::new(true);
    conn.feed(b"HEAD / HTTP/1.1\r\nHost: example.domain\r\n\r\nI'm a bad request.\r\n");
    let (_inc, len, _up) = conn.poll_read_head().unwrap().unwrap();
    assert_eq!(len, DecodedLength::Zero);
}

#[test]
fn test_post_empty_body() {
    let mut conn = Conn::new(true);
    conn.feed(b"POST / HTTP/1.1\r\nHost: example.domain\r\n\r\nI'm a bad request.\r\n");
    let (_inc, len, _up) = conn.poll_read_head().unwrap().unwrap();
    // no framing header names a body
    assert_eq!(len, DecodedLength::Zero);
}

#[test]
fn test_parse_chunked_request() {
    let mut conn = request_conn(
        b"POST / HTTP/1.1\r\nHost: example.domain\r\nTransfer-Encoding: chunked\r\n\r\n1\r\nq\r\n2\r\nwe\r\n2\r\nrt\r\n0\r\n\r\n",
    );
    assert_eq!(read_to_string(&mut conn), Ok("qwert".to_string()));
}

#[test]
fn request_test_invalid_chunk_size_not_hex_digit() {
    let mut conn = request_conn(
        b"POST / HTTP/1.1\r\nHost: example.domain\r\nTransfer-Encoding: chunked\r\n\r\nX\r\n1\r\n0\r\n\r\n",
    );
    assert!(read_to_string(&mut conn).is_err());
}

#[test]
fn request_test_invalid_chunk_size_extension() {
    let mut conn = request_conn(
        b"POST / HTTP/1.1\r\nHost: example.domain\r\nTransfer-Encoding: chunked\r\n\r\n1 this is an invalid extension\r\n1\r\n0\r\n\r\n",
    );
    assert!(read_to_string(&mut conn).is_err());
}

#[test]
fn request_test_chunk_size_with_extension() {
    let mut conn = request_conn(
        b"POST / HTTP/1.1\r\nHost: example.domain\r\nTransfer-Encoding: chunked\r\n\r\n1;this is an extension with a digit 1\r\n1\r\n0\r\n\r\n",
    );
    assert_eq!(read_to_string(&mut conn), Ok("1".to_string()));
}
