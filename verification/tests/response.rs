//! Tests of reading responses, as a client sees them.

use hyper::buffer::BufReader;
use hyper::http::head::parse_response;
use hyper::http::{ChunkedState, HttpReader};
use hyper::version::HttpVersion;

fn body_reader(bytes: &[u8]) -> HttpReader {
    let (inc, used) = parse_response(bytes).unwrap().unwrap();
    assert_eq!(inc.subject.0, 200);
    HttpReader::ChunkedReader(BufReader::with_input(bytes[used..].to_vec()), ChunkedState::Size)
}

#[test]
fn test_parse_chunked_response() {
    let bytes =
        b"HTTP/1.1 200 OK\r\nTransfer-Encoding: chunked\r\n\r\n1\r\nq\r\n2\r\nwe\r\n2\r\nrt\r\n0\r\n\r\n";
    let (inc, used) = parse_response(bytes).unwrap().unwrap();
    // The status line is correct?
    assert_eq!(inc.subject.0, 200);
    assert!(matches!(inc.version, HttpVersion::Http11));
    // The header is correct?
    let te = inc.headers.get_raw(b"transfer-encoding").unwrap();
    assert_eq!(te, vec![b"chunked".to_vec()]);
    // The body is correct?
    let mut r = HttpReader::ChunkedReader(BufReader::with_input(bytes[used..].to_vec()), ChunkedState::Size);
    assert_eq!(r.read_to_end().unwrap(), b"qwert".to_vec());
}

#[test]
fn response_test_invalid_chunk_size_not_hex_digit() {
    let mut r = body_reader(
        b"HTTP/1.1 200 OK\r\nTransfer-Encoding: chunked\r\n\r\nX\r\n1\r\n0\r\n\r\n",
    );
    assert!(r.read_to_end().is_err());
}

#[test]
fn response_test_invalid_chunk_size_extension() {
    let mut r = body_reader(
        b"HTTP/1.1 200 OK\r\nTransfer-Encoding: chunked\r\n\r\n1 this is an invalid extension\r\n1\r\n0\r\n\r\n",
    );
    assert!(r.read_to_end().is_err());
}

#[test]
fn response_test_chunk_size_with_extension() {
    let mut r = body_reader(
        b"HTTP/1.1 200 OK\r\nTransfer-Encoding: chunked\r\n\r\n1;this is an extension with a digit 1\r\n1\r\n0\r\n\r\n",
    );
    assert_eq!(r.read_to_end().unwrap(), b"1".to_vec());
}
