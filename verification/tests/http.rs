//! Tests of the wire codec: body writers, the chunk-size scanner, and head
//! parsing.

use hyper::buffer::BufReader;
use hyper::error::{HttpError, IoErrorKind};
use hyper::http::head::{parse_request, parse_response, serialize_response};
use hyper::header::Headers;
use hyper::http::{read_chunk_size, ChunkedState, HttpReader, HttpWriter};
use hyper::method::Method;
use hyper::uri::RequestUri;
use hyper::proto::conn::Conn;
use hyper::version::HttpVersion;

#[test]
fn test_write_chunked() {
    let mut w = HttpWriter::ChunkedWriter(Vec::new());
    w.write(b"foo bar").unwrap();
    w.write(b"baz quux herp").unwrap();
    let buf = w.end().unwrap();
    let s = std::str::from_utf8(buf.as_ref()).unwrap();
    assert_eq!(s, "7\r\nfoo bar\r\nD\r\nbaz quux herp\r\n0\r\n\r\n");
}

#[test]
fn test_write_sized() {
    let mut w = HttpWriter::SizedWriter(Vec::new(), 8);
    w.write(b"foo bar").unwrap();
    assert_eq!(w.write(b"baz").unwrap(), 1);

    let buf = w.end().unwrap();
    let s = std::str::from_utf8(buf.as_ref()).unwrap();
    assert_eq!(s, "foo barb");
}

#[test]
fn test_read_chunk_size() {
    fn read(s: &str, result: u64) {
        let mut rdr = BufReader::with_input(s.as_bytes().to_vec());
        assert_eq!(read_chunk_size(&mut rdr).unwrap(), result);
    }

    fn read_err(s: &str) {
        let mut rdr = BufReader::with_input(s.as_bytes().to_vec());
        assert_eq!(read_chunk_size(&mut rdr).unwrap_err(), IoErrorKind::InvalidInput);
    }

    read("1\r\n", 1);
    read("01\r\n", 1);
    read("0\r\n", 0);
    read("00\r\n", 0);
    read("A\r\n", 10);
    read("a\r\n", 10);
    read("Ff\r\n", 255);
    read("Ff   \r\n", 255);
    // Missing LF or CRLF
    read_err("F\rF");
    read_err("F");
    // Invalid hex digit
    read_err("X\r\n");
    read_err("1X\r\n");
    read_err("-\r\n");
    read_err("-1\r\n");
    // Acceptable (if not fully valid) extensions do not influence the size
    read("1;extension\r\n", 1);
    read("a;ext name=value\r\n", 10);
    read("1;extension;extension2\r\n", 1);
    read("1;;;  ;\r\n", 1);
    read("2; extension...\r\n", 2);
    read("3   ; extension=123\r\n", 3);
    read("3   ;\r\n", 3);
    read("3   ;   \r\n", 3);
    // Invalid extensions cause an error
    read_err("1 invalid extension\r\n");
    read_err("1 A\r\n");
    read_err("1;no CRLF");
}

#[test]
fn test_parse_incoming() {
    let (inc, used) = parse_request(b"GET /echo HTTP/1.1\r\nHost: hyper.rs\r\n\r\n")
        .unwrap()
        .unwrap();
    assert_eq!(used, 38);
    assert!(matches!(inc.subject.0, Method::Get));
    assert!(matches!(inc.subject.1, RequestUri::AbsolutePath(_)));
    assert!(matches!(inc.version, HttpVersion::Http11));
    assert_eq!(inc.headers.len(), 1);
}

#[test]
fn test_parse_partial() {
    // an incomplete head asks for more bytes rather than failing
    assert!(parse_request(b"GET / HTTP/1.1\r\nHost:").unwrap().is_none());
    assert!(parse_request(b"").unwrap().is_none());
}

#[test]
fn test_parse_response_head() {
    let (inc, used) = parse_response(b"HTTP/1.1 200 OK\r\nContent-Length: 5\r\n\r\nhello")
        .unwrap()
        .unwrap();
    assert_eq!(used, 38);
    assert_eq!(inc.subject.0, 200);
    assert_eq!(inc.subject.1, b"OK".to_vec());
}

#[test]
fn test_response_head_round_trip() {
    // serializing a response head and parsing it back returns the same parts
    // and consumes exactly the serialized bytes
    let mut headers = Headers::new();
    headers.set_raw(b"content-length".to_vec(), vec![b"5".to_vec()]);
    let bytes = serialize_response(200, b"OK", &HttpVersion::Http11, &headers);
    let (inc, used) = parse_response(&bytes).unwrap().unwrap();
    assert_eq!(used, bytes.len());
    assert_eq!(inc.subject.0, 200);
    assert_eq!(inc.subject.1, b"OK".to_vec());
    assert!(matches!(inc.version, HttpVersion::Http11));
    assert_eq!(inc.headers.get_raw(b"content-length").unwrap(), vec![b"5".to_vec()]);
}

#[test]
fn test_overlong_header_name_rejected() {
    // a field name may span at most 1024 bytes
    let mut req = b"GET / HTTP/1.1\r\n".to_vec();
    req.extend(std::iter::repeat(b'a').take(1025));
    req.extend_from_slice(b": v\r\n\r\n");
    let err = parse_request(&req).unwrap_err();
    assert_eq!(err, HttpError::HttpHeaderError);
    // exactly 1024 bytes pass
    let mut req = b"GET / HTTP/1.1\r\n".to_vec();
    req.extend(std::iter::repeat(b'a').take(1024));
    req.extend_from_slice(b": v\r\n\r\n");
    assert!(parse_request(&req).unwrap().is_some());
}

#[test]
fn test_parse_bad_version() {
    let err = parse_request(b"GET / HTTP/2.9\r\n\r\n").unwrap_err();
    assert_eq!(err, HttpError::HttpVersionError);
}

#[test]
fn test_sized_reader() {
    let mut r = HttpReader::SizedReader(BufReader::with_input(b"hello world".to_vec()), 5);
    let body = r.read_to_end().unwrap();
    assert_eq!(body, b"hello".to_vec());
}

#[test]
fn test_chunked_reader() {
    let mut r = HttpReader::ChunkedReader(
        BufReader::with_input(b"1\r\nq\r\n2\r\nwe\r\n2\r\nrt\r\n0\r\n\r\n".to_vec()),
        ChunkedState::Size,
    );
    let body = r.read_to_end().unwrap();
    assert_eq!(body, b"qwert".to_vec());
}

#[test]
fn test_chunked_zero_immediately() {
    // a terminal chunk right away yields a zero-length body
    let mut r = HttpReader::ChunkedReader(BufReader::with_input(b"0\r\n\r\n".to_vec()), ChunkedState::Size);
    let body = r.read_to_end().unwrap();
    assert_eq!(body, Vec::<u8>::new());
}

#[test]
fn test_chunked_reader_consumes_trailers() {
    // trailer headers after the terminal chunk belong to the body's framing:
    // the decoder consumes them through the final CRLF, leaving the stream
    // positioned at the next message
    let mut r = HttpReader::ChunkedReader(
        BufReader::with_input(b"3\r\nfoo\r\n0\r\nExpires: never\r\n\r\nNEXT".to_vec()),
        ChunkedState::Size,
    );
    assert_eq!(r.read_to_end().unwrap(), b"foo".to_vec());
    let rest = r.into_inner();
    assert_eq!(rest.rest().to_vec(), b"NEXT".to_vec());
}

#[test]
fn test_chunked_reader_consumes_final_crlf() {
    // the trailer-less ending "0\r\n\r\n" is consumed whole
    let mut r = HttpReader::ChunkedReader(
        BufReader::with_input(b"1\r\nz\r\n0\r\n\r\nGET".to_vec()),
        ChunkedState::Size,
    );
    assert_eq!(r.read_to_end().unwrap(), b"z".to_vec());
    let rest = r.into_inner();
    assert_eq!(rest.rest().to_vec(), b"GET".to_vec());
}

#[test]
fn test_chunked_writer_empty_piece_is_terminator() {
    // the writer frames every piece, so an empty piece is the terminator;
    // callers that mean "no data" drop the piece instead (the connection's
    // body writer does exactly that)
    let mut w = HttpWriter::ChunkedWriter(Vec::new());
    w.write(b"").unwrap();
    let buf = w.into_inner();
    assert_eq!(buf, b"0\r\n\r\n".to_vec());
}

#[test]
fn test_eof_reader() {
    let mut r = HttpReader::EofReader(BufReader::with_input(b"anything goes".to_vec()));
    assert_eq!(r.read_to_end().unwrap(), b"anything goes".to_vec());
}

#[test]
fn test_empty_reader() {
    let mut r = HttpReader::EmptyReader(BufReader::with_input(b"ignored".to_vec()));
    assert_eq!(r.read_to_end().unwrap(), Vec::<u8>::new());
}

#[test]
fn test_parse_tcp_closed() {
    // the transport closed before any byte of a head arrived
    let mut conn = Conn::new(true);
    conn.set_read_eof();
    match conn.poll_read_head() {
        Err(HttpError::HttpIoError(IoErrorKind::ConnectionAborted)) => (),
        other => panic!("unexpected result: {:?}", other),
    }
}
