//! End-to-end scenarios over one connection: framing decisions, keep-alive,
//! suppressed bodies, upgrades, and the buffer bound.

use hyper::buffer::BufReader;
use hyper::error::HttpError;
use hyper::header::Headers;
use hyper::http::head::parse_response;
use hyper::http::HttpReader;
use hyper::proto::conn::{Conn, Reading, Writing};
use hyper::proto::dispatch::{Dispatcher, OutgoingResponse, ServerEvent};
use hyper::proto::DecodedLength;
use hyper::proto::decide_response_framing;
use hyper::proto::h2::strip_connection_headers;
use hyper::method::Method;
use hyper::client::{should_follow_redirect, should_retry_request, RedirectPolicy};
use hyper::proto::insert_date_header;
use hyper::uri::RequestUri;

fn drain_body(conn: &mut Conn) -> Vec<u8> {
    let mut body = Vec::new();
    // complete bodies only: every poll makes progress until reading leaves Body
    for _ in 0..10_000 {
        if !matches!(conn.reading, Reading::Body(_)) {
            return body;
        }
        match conn.poll_read_body(4096) {
            Ok(Some(mut data)) => body.append(&mut data),
            Ok(None) => {}
            Err(e) => panic!("body error: {:?}", e),
        }
    }
    panic!("body did not finish");
}

#[test]
fn get_should_ignore_body() {
    let mut conn = Conn::new(true);
    conn.feed(b"GET / HTTP/1.1\r\nHost: x\r\nConnection: close\r\n\r\nI shouldn't be read.\r\n");
    let (inc, len, up) = conn.poll_read_head().unwrap().unwrap();
    assert!(!up);
    assert_eq!(len, DecodedLength::Zero);
    assert_eq!(inc.headers.len(), 2);
    // no body: reading went straight past the body phase
    assert!(matches!(conn.reading, Reading::KeepAlive));
}

#[test]
fn post_with_chunked_body() {
    let mut conn = Conn::new(true);
    conn.feed(
        b"POST / HTTP/1.1\r\nHost: x\r\nTransfer-Encoding: chunked\r\n\r\n1\r\nq\r\n2\r\nwe\r\n2\r\nrt\r\n0\r\n\r\n",
    );
    let (_inc, len, _up) = conn.poll_read_head().unwrap().unwrap();
    assert_eq!(len, DecodedLength::Chunked);
    let body = drain_body(&mut conn);
    assert_eq!(body, b"qwert".to_vec());
    assert!(matches!(conn.reading, Reading::KeepAlive));
}

#[test]
fn post_with_sized_body() {
    let mut conn = Conn::new(true);
    conn.feed(b"POST / HTTP/1.1\r\nHost: x\r\nContent-Length: 5\r\n\r\nhelloEXTRA");
    let (_inc, len, _up) = conn.poll_read_head().unwrap().unwrap();
    assert_eq!(len, DecodedLength::Known(5));
    let body = drain_body(&mut conn);
    // the sum of the body bytes equals the announced length, nothing more
    assert_eq!(body, b"hello".to_vec());
}

#[test]
fn conflicting_content_lengths_rejected() {
    let mut conn = Conn::new(true);
    conn.feed(b"POST / HTTP/1.1\r\nContent-Length: 5\r\nContent-Length: 6\r\n\r\n");
    assert_eq!(
        conn.poll_read_head().unwrap_err(),
        HttpError::HttpHeaderError
    );
}

#[test]
fn framed_response_round_trip_and_reuse() {
    let mut conn = Conn::new(true);
    conn.feed(b"GET / HTTP/1.1\r\nHost: x\r\n\r\n");
    let (_inc, len, _up) = conn.poll_read_head().unwrap().unwrap();
    assert_eq!(len, DecodedLength::Zero);

    let mut d = Dispatcher::new(conn);
    let response = OutgoingResponse {
        status: 200,
        reason: b"OK".to_vec(),
        headers: Headers::new(),
        body: b"foo bar baz".to_vec(),
    };
    d.poll_write(response, false).unwrap();
    let wire = d.poll_flush();

    // the client parses the response and reads exactly the body back
    let (res, used) = parse_response(&wire).unwrap().unwrap();
    assert_eq!(res.subject.0, 200);
    let mut body_reader =
        HttpReader::SizedReader(BufReader::with_input(wire[used..].to_vec()), 11);
    assert_eq!(body_reader.read_to_end().unwrap(), b"foo bar baz".to_vec());

    // both halves are at rest and nothing said close: the connection is
    // reused for the next exchange
    d.conn.try_keep_alive();
    assert!(matches!(d.conn.reading, Reading::Init));
    assert!(matches!(d.conn.writing, Writing::Init));
}

#[test]
fn head_response_suppresses_body() {
    let mut conn = Conn::new(true);
    conn.feed(b"HEAD / HTTP/1.1\r\nHost: x\r\n\r\n");
    let (inc, _len, _up) = conn.poll_read_head().unwrap().unwrap();
    let is_head = inc.subject.0.is_head();
    assert!(is_head);

    let mut d = Dispatcher::new(conn);
    let mut headers = Headers::new();
    headers.set_raw(b"content-length".to_vec(), vec![b"11".to_vec()]);
    let response = OutgoingResponse {
        status: 200,
        reason: b"OK".to_vec(),
        headers,
        body: b"foo bar baz".to_vec(),
    };
    d.poll_write(response, true).unwrap();
    let wire = d.poll_flush();
    let text = String::from_utf8(wire.clone()).unwrap();

    // on the wire: the length is announced but not a single body octet
    assert!(text.to_ascii_lowercase().contains("content-length: 11"));
    assert!(text.ends_with("\r\n\r\n"));
    let (_res, used) = parse_response(&wire).unwrap().unwrap();
    assert_eq!(used, wire.len());
}

#[test]
fn upgrade_hands_back_buffered_bytes() {
    let mut conn = Conn::new(true);
    conn.feed(b"GET / HTTP/1.1\r\nUpgrade: foo\r\nConnection: upgrade\r\n\r\neagerly optimistic");
    let (_inc, _len, up) = conn.poll_read_head().unwrap().unwrap();
    assert!(up);
    assert!(matches!(conn.reading, Reading::Upgrade));
    let read_buf = conn.into_parts();
    assert_eq!(read_buf, b"eagerly optimistic".to_vec());
}

#[test]
fn header_block_at_max_buf_size_succeeds() {
    // a head of exactly the buffer bound parses; one byte more is too large
    let bound: usize = 8193;
    let mut head = b"GET / HTTP/1.1\r\nx-filler: ".to_vec();
    let fixed_tail = b"\r\n\r\n".len();
    let padding = bound - head.len() - fixed_tail;
    head.extend(std::iter::repeat(b'a').take(padding));
    head.extend_from_slice(b"\r\n\r\n");
    assert_eq!(head.len(), bound);

    let mut conn = Conn::new(true);
    conn.set_max_buf_size(bound);
    conn.feed(&head);
    assert!(conn.poll_read_head().unwrap().is_some());

    // one more filler byte pushes the head one past the bound
    let mut big = b"GET / HTTP/1.1\r\nx-filler: ".to_vec();
    big.extend(std::iter::repeat(b'a').take(padding + 1));
    big.extend_from_slice(b"\r\n\r\n");
    assert_eq!(big.len(), bound + 1);

    let mut conn = Conn::new(true);
    conn.set_max_buf_size(bound);
    conn.feed(&big);
    assert_eq!(
        conn.poll_read_head().unwrap_err(),
        HttpError::HttpTooLargeError
    );
}

#[test]
fn error_closes_both_halves() {
    let mut conn = Conn::new(true);
    conn.feed(b"BAD REQUEST LINE\r\n\r\n");
    let mut d = Dispatcher::new(conn);
    let err = d.poll_catch();
    assert!(err.is_err());
    assert!(matches!(d.conn.reading, Reading::Closed));
    assert!(matches!(d.conn.writing, Writing::Closed));
    assert!(d.is_done());
}

#[test]
fn connection_close_ends_reuse() {
    let mut conn = Conn::new(true);
    conn.feed(b"GET / HTTP/1.1\r\nConnection: close\r\n\r\n");
    let (_inc, _len, _up) = conn.poll_read_head().unwrap().unwrap();
    let mut d = Dispatcher::new(conn);
    let response = OutgoingResponse {
        status: 200,
        reason: b"OK".to_vec(),
        headers: Headers::new(),
        body: Vec::new(),
    };
    d.poll_write(response, false).unwrap();
    d.conn.try_keep_alive();
    assert!(matches!(d.conn.reading, Reading::Closed));
    assert!(matches!(d.conn.writing, Writing::Closed));
}

#[test]
fn echo_round_trip() {
    // a client request carried to a server whose handler echoes body and
    // headers; the response the client reads matches what it sent
    let request_body = b"the quick brown fox".to_vec();
    let mut request = b"POST /echo HTTP/1.1\r\nHost: x\r\nx-token: opaque-value\r\nContent-Length: 19\r\n\r\n".to_vec();
    request.extend_from_slice(&request_body);

    // server side
    let mut conn = Conn::new(true);
    conn.feed(&request);
    let (inc, len, _up) = conn.poll_read_head().unwrap().unwrap();
    assert_eq!(len, DecodedLength::Known(19));
    let body = drain_body(&mut conn);
    assert_eq!(body, request_body);

    // the handler echoes the body and the x-token header
    let mut headers = Headers::new();
    let token = inc.headers.get_raw(b"x-token").unwrap();
    headers.set_raw(b"x-token".to_vec(), token);
    let mut d = Dispatcher::new(conn);
    d.poll_write(
        OutgoingResponse { status: 200, reason: b"OK".to_vec(), headers, body },
        false,
    )
    .unwrap();
    let wire = d.poll_flush();

    // client side
    let (res, used) = parse_response(&wire).unwrap().unwrap();
    assert_eq!(res.subject.0, 200);
    assert_eq!(
        res.headers.get_raw(b"x-token").unwrap(),
        vec![b"opaque-value".to_vec()]
    );
    let mut body_reader =
        HttpReader::SizedReader(BufReader::with_input(wire[used..].to_vec()), 19);
    assert_eq!(body_reader.read_to_end().unwrap(), request_body);
}

#[test]
fn http10_unknown_length_closes() {
    let mut conn = Conn::new(true);
    conn.feed(b"GET / HTTP/1.0\r\n\r\n");
    let (_inc, _len, _up) = conn.poll_read_head().unwrap().unwrap();
    let mut headers = Headers::new();
    // no content length and no chunked: HTTP/1.0 falls back to closing
    headers.set_raw(b"x-any".to_vec(), vec![b"1".to_vec()]);
    let mut d = Dispatcher::new(conn);
    // force the unknown-length path through the connection directly
    let r = d.conn.write_response_head(
        200,
        b"OK",
        false,
        hyper::proto::BodyLength::Unknown,
        &mut headers,
    );
    assert!(r.is_ok());
    let wire = d.poll_flush();
    let text = String::from_utf8(wire).unwrap();
    assert!(text.to_ascii_lowercase().contains("connection: close"));
}

#[test]
fn empty_chunks_mid_stream_are_dropped() {
    // an empty piece written mid-body leaves no bytes behind and does not
    // end the body
    let mut conn = Conn::new(true);
    conn.feed(b"GET / HTTP/1.1\r\nHost: x\r\n\r\n");
    conn.poll_read_head().unwrap().unwrap();
    let mut headers = Headers::new();
    conn.write_response_head(200, b"OK", false, hyper::proto::BodyLength::Unknown, &mut headers)
        .unwrap();
    let head = conn.take_output();
    assert!(String::from_utf8(head).unwrap().to_ascii_lowercase().contains("chunked"));

    assert_eq!(conn.write_body(b"abc"), 3);
    assert_eq!(conn.write_body(b""), 0);
    let mid = conn.take_output();
    assert_eq!(mid, b"3\r\nabc\r\n".to_vec());
    assert!(matches!(conn.writing, Writing::Body(_)));

    conn.write_body(b"de");
    conn.end_body();
    let tail = conn.take_output();
    assert_eq!(tail, b"2\r\nde\r\n0\r\n\r\n".to_vec());
}

#[test]
fn response_framing_for_head_requests() {
    // a HEAD response has no body whatever the headers say
    let (inc, used) =
        parse_response(b"HTTP/1.1 200 OK\r\nContent-Length: 11\r\n\r\n").unwrap().unwrap();
    assert_eq!(used, 39);
    let len = decide_response_framing(&Method::Head, 200, &inc.headers).unwrap();
    assert_eq!(len, DecodedLength::Zero);
    // the same response to a GET carries eleven bytes
    let len = decide_response_framing(&Method::Get, 200, &inc.headers).unwrap();
    assert_eq!(len, DecodedLength::Known(11));
    // and without any framing header it runs to the close
    let (bare, _) = parse_response(b"HTTP/1.1 200 OK\r\n\r\n").unwrap().unwrap();
    let len = decide_response_framing(&Method::Get, 200, &bare.headers).unwrap();
    assert_eq!(len, DecodedLength::CloseDelimited);
}

#[test]
fn strip_connection_headers_for_framed_protocols() {
    let mut headers = Headers::new();
    headers.set_raw(b"connection".to_vec(), vec![b"close, x-custom".to_vec()]);
    headers.set_raw(b"x-custom".to_vec(), vec![b"1".to_vec()]);
    headers.set_raw(b"upgrade".to_vec(), vec![b"foo".to_vec()]);
    headers.set_raw(b"x-kept".to_vec(), vec![b"2".to_vec()]);
    strip_connection_headers(&mut headers, true);
    assert!(headers.get_raw(b"connection").is_none());
    assert!(headers.get_raw(b"x-custom").is_none());
    assert!(headers.get_raw(b"upgrade").is_none());
    assert_eq!(headers.get_raw(b"x-kept").unwrap(), vec![b"2".to_vec()]);
}

#[test]
fn redirect_policy_decisions() {
    assert!(should_follow_redirect(&RedirectPolicy::FollowAll, 301));
    assert!(!should_follow_redirect(&RedirectPolicy::FollowNone, 301));
    assert!(!should_follow_redirect(&RedirectPolicy::FollowAll, 200));
    assert!(!should_follow_redirect(&RedirectPolicy::FollowAll, 404));
}

#[test]
fn client_request_without_body_omits_framing() {
    let mut conn = Conn::new(true);
    let mut headers = Headers::new();
    headers.set_raw(b"host".to_vec(), vec![b"x".to_vec()]);
    let uri = RequestUri::AbsolutePath(b"/".to_vec());
    conn.write_request_head(&Method::Get, &uri, None, &mut headers).unwrap();
    let wire = conn.take_output();
    let text = String::from_utf8(wire).unwrap();
    assert_eq!(text, "GET / HTTP/1.1\r\nhost: x\r\n\r\n");
    assert!(matches!(conn.writing, Writing::KeepAlive));
}

#[test]
fn client_request_with_unknown_length_is_chunked() {
    let mut conn = Conn::new(true);
    let mut headers = Headers::new();
    let uri = RequestUri::AbsolutePath(b"/up".to_vec());
    conn.write_request_head(
        &Method::Post,
        &uri,
        Some(hyper::proto::BodyLength::Unknown),
        &mut headers,
    )
    .unwrap();
    conn.write_body(b"q");
    conn.write_body(b"wert");
    conn.end_body();
    let wire = conn.take_output();
    let text = String::from_utf8(wire).unwrap();
    assert_eq!(
        text,
        "POST /up HTTP/1.1\r\ntransfer-encoding: chunked\r\n\r\n1\r\nq\r\n4\r\nwert\r\n0\r\n\r\n"
    );
}

#[test]
fn pipelined_requests_are_served_in_order() {
    let mut conn = Conn::new(true);
    conn.feed(b"GET /first HTTP/1.1\r\nHost: x\r\n\r\nGET /second HTTP/1.1\r\nHost: x\r\n\r\n");

    let (first, _len, _up) = conn.poll_read_head().unwrap().unwrap();
    assert_eq!(first.subject.1.wire_bytes(), b"/first".to_vec());

    let mut d = Dispatcher::new(conn);
    d.poll_write(
        OutgoingResponse {
            status: 200,
            reason: b"OK".to_vec(),
            headers: Headers::new(),
            body: b"one".to_vec(),
        },
        false,
    )
    .unwrap();
    d.conn.try_keep_alive();
    assert!(matches!(d.conn.reading, Reading::Init));

    // the second pipelined request was already buffered and is read next
    let (second, _len, _up) = d.conn.poll_read_head().unwrap().unwrap();
    assert_eq!(second.subject.1.wire_bytes(), b"/second".to_vec());
}

#[test]
fn parse_errors_send_4xx_response() {
    // a malformed header line earns a 400 before the connection closes
    let mut conn = Conn::new(true);
    conn.feed(b"GET / HTTP/1.1\r\nBad Header: x\r\n\r\n");
    let mut d = Dispatcher::new(conn);
    assert!(d.poll_catch().is_err());
    let wire = d.poll_flush();
    assert!(String::from_utf8(wire).unwrap().starts_with("HTTP/1.1 400"));

    // an oversized head earns a 431
    let mut conn = Conn::new(true);
    conn.set_max_buf_size(8193);
    let mut big = b"GET / HTTP/1.1\r\nx-filler: ".to_vec();
    big.extend(std::iter::repeat(b'a').take(9000));
    conn.feed(&big);
    let mut d = Dispatcher::new(conn);
    assert!(d.poll_catch().is_err());
    let wire = d.poll_flush();
    assert!(String::from_utf8(wire).unwrap().starts_with("HTTP/1.1 431"));

    // an unsupported version earns a 505
    let mut conn = Conn::new(true);
    conn.feed(b"GET / HTTP/4.4\r\n\r\n");
    let mut d = Dispatcher::new(conn);
    assert!(d.poll_catch().is_err());
    let wire = d.poll_flush();
    assert!(String::from_utf8(wire).unwrap().starts_with("HTTP/1.1 505"));
}

#[test]
fn client_reads_response_per_request_method() {
    // the same response bytes frame differently after a HEAD
    let mut conn = Conn::new(true);
    conn.feed(b"HTTP/1.1 200 OK\r\nContent-Length: 3\r\n\r\nabc");
    let (_inc, len) = conn.poll_read_response_head(&Method::Get).unwrap().unwrap();
    assert_eq!(len, DecodedLength::Known(3));
    let body = drain_body(&mut conn);
    assert_eq!(body, b"abc".to_vec());

    let mut conn = Conn::new(true);
    conn.feed(b"HTTP/1.1 200 OK\r\nContent-Length: 3\r\n\r\n");
    let (_inc, len) = conn.poll_read_response_head(&Method::Head).unwrap().unwrap();
    assert_eq!(len, DecodedLength::Zero);

    // 204 and 304 responses never carry a body
    let mut conn = Conn::new(true);
    conn.feed(b"HTTP/1.1 304 Not Modified\r\nContent-Length: 3\r\n\r\n");
    let (_inc, len) = conn.poll_read_response_head(&Method::Get).unwrap().unwrap();
    assert_eq!(len, DecodedLength::Zero);
}

#[test]
fn explicit_chunked_removes_content_length() {
    // the user asked for the chunked framing and also set a length: chunked
    // wins and the length leaves the head
    let mut conn = Conn::new(true);
    conn.feed(b"GET / HTTP/1.1\r\nHost: x\r\n\r\n");
    conn.poll_read_head().unwrap().unwrap();
    let mut headers = Headers::new();
    headers.set_raw(b"transfer-encoding".to_vec(), vec![b"chunked".to_vec()]);
    headers.set_raw(b"content-length".to_vec(), vec![b"11".to_vec()]);
    conn.write_response_head(
        200,
        b"OK",
        false,
        hyper::proto::BodyLength::Known(11),
        &mut headers,
    )
    .unwrap();
    let text = String::from_utf8(conn.take_output()).unwrap().to_ascii_lowercase();
    assert!(text.contains("transfer-encoding: chunked"));
    assert!(!text.contains("content-length"));
    assert!(matches!(
        conn.writing,
        Writing::Body(hyper::proto::EncoderKind::ChunkedEncoder)
    ));
}

#[test]
fn outgoing_close_header_disables_reuse() {
    // the handler said close: the connection must not be reused even though
    // the peer never asked to close
    let mut conn = Conn::new(true);
    conn.feed(b"GET / HTTP/1.1\r\nHost: x\r\n\r\n");
    conn.poll_read_head().unwrap().unwrap();
    let mut headers = Headers::new();
    headers.set_raw(b"connection".to_vec(), vec![b"close".to_vec()]);
    conn.write_response_head(
        200,
        b"OK",
        false,
        hyper::proto::BodyLength::Known(0),
        &mut headers,
    )
    .unwrap();
    conn.end_body();
    conn.try_keep_alive();
    assert!(matches!(conn.reading, Reading::Closed));
    assert!(matches!(conn.writing, Writing::Closed));
}

#[test]
fn http10_keep_alive_advertised_when_asked() {
    // an HTTP/1.0 peer asked for keep-alive: the response advertises it
    // back and the exchange is reused
    let mut conn = Conn::new(true);
    conn.feed(b"GET / HTTP/1.0\r\nConnection: keep-alive\r\n\r\n");
    conn.poll_read_head().unwrap().unwrap();
    let mut headers = Headers::new();
    conn.write_response_head(
        200,
        b"OK",
        false,
        hyper::proto::BodyLength::Known(0),
        &mut headers,
    )
    .unwrap();
    conn.end_body();
    let text = String::from_utf8(conn.take_output()).unwrap().to_ascii_lowercase();
    assert!(text.contains("connection: keep-alive"));
    conn.try_keep_alive();
    assert!(matches!(conn.reading, Reading::Init));
    assert!(matches!(conn.writing, Writing::Init));

    // without the peer asking, an HTTP/1.0 exchange closes
    let mut conn = Conn::new(true);
    conn.feed(b"GET / HTTP/1.0\r\n\r\n");
    conn.poll_read_head().unwrap().unwrap();
    let mut headers = Headers::new();
    conn.write_response_head(
        200,
        b"OK",
        false,
        hyper::proto::BodyLength::Known(0),
        &mut headers,
    )
    .unwrap();
    conn.end_body();
    conn.try_keep_alive();
    assert!(matches!(conn.reading, Reading::Closed));
}

#[test]
fn strip_keeps_te_trailers_on_requests() {
    let mut headers = Headers::new();
    headers.set_raw(b"te".to_vec(), vec![b"trailers".to_vec()]);
    headers.set_raw(b"keep-alive".to_vec(), vec![b"1".to_vec()]);
    strip_connection_headers(&mut headers, true);
    assert!(headers.get_raw(b"te").is_some());
    assert!(headers.get_raw(b"keep-alive").is_none());

    // a response always loses `te`; a request with anything else does too
    let mut headers = Headers::new();
    headers.set_raw(b"te".to_vec(), vec![b"trailers".to_vec()]);
    strip_connection_headers(&mut headers, false);
    assert!(headers.get_raw(b"te").is_none());

    let mut headers = Headers::new();
    headers.set_raw(b"te".to_vec(), vec![b"gzip".to_vec()]);
    strip_connection_headers(&mut headers, true);
    assert!(headers.get_raw(b"te").is_none());
}

#[test]
fn fairness_step_budget() {
    // the loop takes at most sixteen read steps per call
    let mut d = Dispatcher::new(Conn::new(true));
    assert_eq!(d.steps, 0);
    let _ = d.poll_loop();
    assert!(d.steps >= 1 && d.steps <= 16);
}

#[test]
fn retry_decision() {
    // only a reused connection that wrote nothing is retried, and only when
    // the policy allows
    assert!(should_retry_request(true, true, false));
    assert!(!should_retry_request(true, true, true));
    assert!(!should_retry_request(true, false, false));
    assert!(!should_retry_request(false, true, false));
}

#[test]
fn informational_status_from_handler_is_an_error() {
    // 1xx heads are the engine's to send; a handler's is refused before any
    // byte reaches the wire
    let mut conn = Conn::new(true);
    conn.feed(b"GET / HTTP/1.1\r\nHost: x\r\n\r\n");
    let mut d = Dispatcher::new(conn);
    let _ = d.poll_read().unwrap();
    let response = OutgoingResponse {
        status: 100,
        reason: Vec::new(),
        headers: Headers::new(),
        body: Vec::new(),
    };
    assert!(d.poll_write(response, false).is_err());
    assert!(d.poll_flush().is_empty());
}

#[test]
fn chunked_request_trailers_are_consumed() {
    // trailer headers after the terminal chunk are part of the body framing:
    // the next head parses cleanly right after them
    let mut conn = Conn::new(true);
    conn.feed(
        b"POST / HTTP/1.1\r\nHost: x\r\nTransfer-Encoding: chunked\r\n\r\n3\r\nfoo\r\n0\r\nExpires: never\r\n\r\nGET / HTTP/1.1\r\nHost: x\r\n\r\n",
    );
    let (_inc, len, _up) = conn.poll_read_head().unwrap().unwrap();
    assert_eq!(len, DecodedLength::Chunked);
    let body = drain_body(&mut conn);
    assert_eq!(body, b"foo".to_vec());
    assert!(matches!(conn.reading, Reading::KeepAlive));
    // the buffered input now starts exactly at the next request's head
    assert_eq!(
        conn.input.rest().to_vec(),
        b"GET / HTTP/1.1\r\nHost: x\r\n\r\n".to_vec()
    );
}

#[test]
fn date_header_inserted_when_absent() {
    let mut headers = Headers::new();
    insert_date_header(&mut headers, b"Sun, 06 Nov 1994 08:49:37 GMT".to_vec());
    assert_eq!(
        headers.get_raw(b"date").unwrap(),
        vec![b"Sun, 06 Nov 1994 08:49:37 GMT".to_vec()]
    );
    // an existing date is kept
    insert_date_header(&mut headers, b"Mon, 07 Nov 1994 08:49:37 GMT".to_vec());
    assert_eq!(
        headers.get_raw(b"date").unwrap(),
        vec![b"Sun, 06 Nov 1994 08:49:37 GMT".to_vec()]
    );
}
