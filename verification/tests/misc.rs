//! Tests of the smaller public pieces: body chunks, raw header items,
//! typed header round trips, and configuration builders.

use hyper::client::{Body, Builder, IntoBody};
use hyper::header::common::{
    Header, HeaderFormat, HeaderFormatter, Protocol, Upgrade, UserAgent,
};
use hyper::header::internals::Item;
use hyper::http::chunk::Chunk;
use hyper::server::{opaque, Http, Serve};
use hyper::status::{StatusClass, StatusCode};

#[test]
fn chunk_wraps_bytes() {
    let c: Chunk = Chunk::from(b"abc".to_vec());
    assert_eq!(c.len(), 3);
    assert!(!c.is_empty());
    assert_eq!(c.as_bytes(), b"abc");
}

#[test]
fn item_keeps_raw_lines() {
    let mut item = Item::new_raw(vec![b"a".to_vec()]);
    item.mut_raw().push(b"b".to_vec());
    assert_eq!(item.raw().len(), 2);
    assert_eq!(item.raw()[1], b"b".to_vec());
}

#[test]
fn user_agent_round_trips() {
    let raw = vec![b"hyper/13".to_vec()];
    let ua = UserAgent::parse_header(&raw).unwrap();
    assert_eq!(ua.0, "hyper/13".to_string());
    assert_eq!(ua.fmt_header(), b"hyper/13".to_vec());
}

#[test]
fn upgrade_header_round_trips() {
    let raw = vec![b"websocket, proto2".to_vec()];
    let up = Upgrade::parse_header(&raw).unwrap();
    assert!(matches!(up.0[0], Protocol::WebSocket));
    let formatted = HeaderFormatter(&up).display_string();
    assert_eq!(formatted, "websocket, proto2".to_string());
}

#[test]
fn body_sizes() {
    let body = b"12345".to_vec().into_body();
    assert_eq!(body.size(), Some(5));
    let streamed = Body::ChunkedBody(hyper::buffer::BufReader::new());
    assert_eq!(streamed.size(), None);
}

#[test]
fn http_configuration() {
    let mut http = Http::new();
    assert!(http.keep_alive);
    http.keep_alive(false);
    http.pipeline(true);
    assert!(!http.keep_alive);
    assert!(http.pipeline);

    let serve = Serve { incoming: 7u8, new_service: (), protocol: http };
    assert_eq!(*serve.incoming_ref(), 7u8);
    let _token = opaque();
}

#[test]
fn status_classes() {
    assert_eq!(StatusCode(204).class(), StatusClass::Success);
    assert_eq!(StatusCode(301).class(), StatusClass::Redirection);
    assert_eq!(StatusCode(431).class(), StatusClass::ClientError);
    assert_eq!(StatusCode(505).class(), StatusClass::ServerError);
    assert_eq!(StatusCode(431).canonical_reason().unwrap(), "Request Header Fields Too Large");
}

#[test]
fn builder_options() {
    let mut b = Builder::new();
    assert!(b.h1_writev);
    b.h1_writev(false);
    assert!(!b.h1_writev);
}
