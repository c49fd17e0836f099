//! The connection state machine: one byte stream, one exchange at a time.
//! Reading walks `Init → Body → KeepAlive/Closed` (or `Upgrade`); writing
//! walks `Init → Body → KeepAlive/Closed`; the keep-alive decision at the end
//! of an exchange decides whether the connection is reused.

use vstd::prelude::*;
use crate::buffer::BufReader;
use crate::error::{HttpError, IoErrorKind};
use crate::header::Headers;
use crate::http::{spec_encode_chunk, ChunkedState};
use crate::http::head::{
    Incoming, RawStatus, parse_request, spec_parse_request_head, HeadParse, MAX_HEADERS,
    serialize_request, spec_serialize_request,
};
use crate::method::Method;
use crate::proto::{
    DecodedLength, BodyLength, decide_request_framing, spec_request_framing, wants_upgrade,
    connection_has, spec_connection_has, spec_upgrade_name, spec_te_chunked, spec_content_length,
};
use crate::header::spec_find_header;
use crate::uri::RequestUri;
use crate::version::HttpVersion;

verus! {

/// The bytes `close`.
pub open spec fn spec_close_bytes() -> Seq<u8> {
    seq![99u8, 108u8, 111u8, 115u8, 101u8]
}

/// The bytes `keep-alive`.
pub open spec fn spec_keep_alive_bytes() -> Seq<u8> {
    seq![107u8, 101u8, 101u8, 112u8, 45u8, 97u8, 108u8, 105u8, 118u8, 101u8]
}

/// The body decoder a reading connection carries.
#[derive(Clone, Copy, Debug, PartialEq, Eq, Structural)]
pub enum BodyDecoder {
    /// This many bytes remain.
    SizedDecoder(u64),
    /// Chunked, with where the decoder stands in the framing.
    ChunkedDecoder(ChunkedState),
    /// Until the stream closes.
    EofDecoder,
}

/// The read half's state.
#[derive(Clone, Copy, Debug, PartialEq, Eq, Structural)]
pub enum Reading {
    /// Ready to read the next message head.
    Init,
    /// Mid-body, with its decoder.
    Body(BodyDecoder),
    /// Between exchanges.
    KeepAlive,
    /// The read half is done.
    Closed,
    /// The connection is switching protocols; remaining bytes belong to the
    /// caller.
    Upgrade,
}

/// The write half's state.
#[derive(Clone, Copy, Debug, PartialEq, Eq, Structural)]
pub enum Writing {
    /// Ready to write the next head.
    Init,
    /// Mid-body, with its encoder.
    Body(crate::proto::EncoderKind),
    /// Between exchanges.
    KeepAlive,
    /// The write half is done.
    Closed,
}

/// The keep-alive account of the connection.
#[derive(Clone, Copy, Debug, PartialEq, Eq, Structural)]
pub enum KA {
    /// An exchange is in flight.
    Busy,
    /// The connection sits idle between exchanges.
    Idle,
    /// Keep-alive is off: the connection closes after the exchange.
    Disabled,
}

/// The keep-alive decision after one exchange, per the decision matrix: an
/// HTTP/1.1 exchange stays alive unless either side said `close` or
/// keep-alive was disabled; an HTTP/1.0 exchange stays alive only when both
/// sides said `keep-alive` explicitly.
pub open spec fn spec_keep_alive_decision(
    version: HttpVersion,
    ka: KA,
    close_seen: bool,
    close_sent: bool,
    ka_seen: bool,
    ka_sent: bool,
) -> bool {
    if ka is Disabled {
        false
    } else {
        match version {
            HttpVersion::Http11 => !close_seen && !close_sent,
            HttpVersion::Http10 => ka_seen && ka_sent,
        }
    }
}

/// Computes the keep-alive decision.
pub fn keep_alive_decision(
    version: &HttpVersion,
    ka: &KA,
    close_seen: bool,
    close_sent: bool,
    ka_seen: bool,
    ka_sent: bool,
) -> (r: bool)
    ensures
        r == spec_keep_alive_decision(*version, *ka, close_seen, close_sent, ka_seen, ka_sent),
{
    match ka {
        KA::Disabled => false,
        _ => match version {
            HttpVersion::Http11 => !close_seen && !close_sent,
            HttpVersion::Http10 => ka_seen && ka_sent,
        },
    }
}

/// Whether an HTTP/1.0 response advertises `Connection: keep-alive` back:
/// only when the peer asked for it, keep-alive is not disabled, and the
/// response neither forces nor already carries `close`.
pub open spec fn spec_advertise_keep_alive(
    conn: Conn,
    force_close: bool,
    m: Seq<(Seq<u8>, Seq<Seq<u8>>)>,
) -> bool {
    conn.version is Http10 && conn.ka_seen && !(conn.keep_alive is Disabled) && !force_close
        && !spec_connection_has(m, spec_close_bytes())
}

/// The response headers after the framing fixups, in the order the writer
/// applies them: strip both framing headers when the status forbids a body,
/// drop `Content-Length` when an explicit chunked framing wins, insert the
/// decided `Content-Length` or `Transfer-Encoding: chunked`, force
/// `Connection: close`, and advertise `Connection: keep-alive` on an
/// HTTP/1.0 exchange whose peer asked for it.
pub open spec fn spec_response_header_fixup(
    m: Seq<(Seq<u8>, Seq<Seq<u8>>)>,
    body_allowed: bool,
    decision: (crate::proto::EncoderKind, Option<u64>, bool, bool, bool),
    add_keep_alive: bool,
) -> Seq<(Seq<u8>, Seq<Seq<u8>>)> {
    let m1 = if !body_allowed {
        crate::proto::spec_remove_header(
            crate::proto::spec_remove_header(m, crate::proto::spec_cl_name()),
            crate::proto::spec_te_name(),
        )
    } else {
        m
    };
    let m2 = if decision.4 {
        crate::proto::spec_remove_header(m1, crate::proto::spec_cl_name())
    } else {
        m1
    };
    let m3 = match decision.1 {
        Some(n) => crate::proto::spec_set_header(
            m2,
            crate::proto::spec_cl_name(),
            seq![crate::numerals::spec_dec_digits(n as nat)],
        ),
        None => m2,
    };
    let m4 = if decision.2 {
        crate::proto::spec_set_header(
            m3,
            crate::proto::spec_te_name(),
            seq![crate::proto::spec_chunked_bytes()],
        )
    } else {
        m3
    };
    let m5 = if decision.3 {
        crate::proto::spec_set_header(
            m4,
            crate::proto::spec_conn_name(),
            seq![spec_close_bytes()],
        )
    } else {
        m4
    };
    if add_keep_alive {
        crate::proto::spec_set_header(
            m5,
            crate::proto::spec_conn_name(),
            seq![spec_keep_alive_bytes()],
        )
    } else {
        m5
    }
}

/// The request headers after the framing fixups: drop `Content-Length` when
/// an explicit chunked framing wins, then insert the decided
/// `Content-Length` or `Transfer-Encoding: chunked`.
pub open spec fn spec_request_header_fixup(
    m: Seq<(Seq<u8>, Seq<Seq<u8>>)>,
    decision: (crate::proto::EncoderKind, Option<u64>, bool, bool, bool),
) -> Seq<(Seq<u8>, Seq<Seq<u8>>)> {
    let m2 = if decision.4 {
        crate::proto::spec_remove_header(m, crate::proto::spec_cl_name())
    } else {
        m
    };
    let m3 = match decision.1 {
        Some(n) => crate::proto::spec_set_header(
            m2,
            crate::proto::spec_cl_name(),
            seq![crate::numerals::spec_dec_digits(n as nat)],
        ),
        None => m2,
    };
    if decision.2 {
        crate::proto::spec_set_header(
            m3,
            crate::proto::spec_te_name(),
            seq![crate::proto::spec_chunked_bytes()],
        )
    } else {
        m3
    }
}

/// A server-side connection over one byte stream: the buffered input, the
/// pending output, and the state of both halves.
pub struct Conn {
    /// The buffered, unread input.
    pub input: BufReader,
    /// Whether the transport reported its end.
    pub input_eof: bool,
    /// Output bytes awaiting the transport.
    pub output: Vec<u8>,
    /// The read half's state.
    pub reading: Reading,
    /// The write half's state.
    pub writing: Writing,
    /// The keep-alive account.
    pub keep_alive: KA,
    /// The negotiated version of the exchange in flight.
    pub version: HttpVersion,
    /// Whether the peer sent `Connection: close`.
    pub close_seen: bool,
    /// Whether this side sent `Connection: close`.
    pub close_sent: bool,
    /// Whether the peer sent `Connection: keep-alive`.
    pub ka_seen: bool,
    /// Whether this side sent `Connection: keep-alive`.
    pub ka_sent: bool,
    /// The read-buffer bound.
    pub max_buf_size: usize,
}

/// The smallest allowed read-buffer bound.
pub const MINIMUM_MAX_BUF_SIZE: usize = 8193;

/// The default read-buffer bound.
pub const DEFAULT_MAX_BUF_SIZE: usize = 409600;

impl Conn {
    /// The connection's buffers are well-formed.
    pub open spec fn wf(&self) -> bool {
        self.input.wf()
    }

    /// The unread input bytes.
    pub open spec fn input_view(&self) -> Seq<u8> {
        self.input@
    }

    /// The output bytes not yet taken for the transport.
    pub open spec fn output_view(&self) -> Seq<u8> {
        self.output@
    }

    /// The configured read-buffer bound.
    pub open spec fn spec_max_buf_size(&self) -> int {
        self.max_buf_size as int
    }

    /// A fresh connection: both halves at `Init`, keep-alive per the flag.
    pub fn new(keep_alive_enabled: bool) -> (r: Conn)
        ensures
            r.wf(),
            r.reading == Reading::Init,
            r.writing == Writing::Init,
            r.keep_alive == (if keep_alive_enabled {
                KA::Busy
            } else {
                KA::Disabled
            }),
            r.input_view() =~= Seq::<u8>::empty(),
            r.output_view() =~= Seq::<u8>::empty(),
            r.spec_max_buf_size() == DEFAULT_MAX_BUF_SIZE,
    {
        Conn {
            input: BufReader::new(),
            input_eof: false,
            output: Vec::new(),
            reading: Reading::Init,
            writing: Writing::Init,
            keep_alive: if keep_alive_enabled {
                KA::Busy
            } else {
                KA::Disabled
            },
            version: HttpVersion::Http11,
            close_seen: false,
            close_sent: false,
            ka_seen: false,
            ka_sent: false,
            max_buf_size: DEFAULT_MAX_BUF_SIZE,
        }
    }

    /// Bounds the read buffer. The bound must leave room for an initial
    /// buffer's worth of head.
    pub fn set_max_buf_size(&mut self, max: usize)
        requires
            max >= MINIMUM_MAX_BUF_SIZE,
        ensures
            *final(self) == (Conn { max_buf_size: max, ..*old(self) }),
    {
        self.max_buf_size = max;
    }

    /// Hands bytes that arrived from the transport to the connection.
    pub fn feed(&mut self, bytes: &[u8])
        requires
            old(self).wf(),
        ensures
            final(self).wf(),
            final(self).input_view() == old(self).input_view() + bytes@,
            *final(self) == (Conn { input: final(self).input, ..*old(self) }),
    {
        self.input.feed(bytes);
    }

    /// Tells the connection the transport has no more bytes to give.
    pub fn set_read_eof(&mut self)
        ensures
            *final(self) == (Conn { input_eof: true, ..*old(self) }),
    {
        self.input_eof = true;
    }

    /// Takes the pending output bytes for the transport.
    pub fn take_output(&mut self) -> (r: Vec<u8>)
        ensures
            r@ == old(self).output_view(),
            final(self).output_view() =~= Seq::<u8>::empty(),
            *final(self) == (Conn { output: final(self).output, ..*old(self) }),
    {
        let mut out: Vec<u8> = Vec::new();
        let taken = &mut self.output;
        let r = replace_vec(taken, out);
        r
    }

    /// Closes the read half.
    pub fn close_read(&mut self)
        ensures
            *final(self) == (Conn { reading: Reading::Closed, ..*old(self) }),
    {
        self.reading = Reading::Closed;
    }

    /// Closes the write half.
    pub fn close_write(&mut self)
        ensures
            *final(self) == (Conn { writing: Writing::Closed, ..*old(self) }),
    {
        self.writing = Writing::Closed;
    }

    /// Disables keep-alive: the connection closes after the exchange in
    /// flight.
    pub fn disable_keep_alive(&mut self)
        ensures
            *final(self) == (Conn { keep_alive: KA::Disabled, ..*old(self) }),
    {
        self.keep_alive = KA::Disabled;
    }

    /// Whether the read half is done.
    pub fn is_read_closed(&self) -> (r: bool)
        ensures
            r == (self.reading is Closed),
    {
        match self.reading {
            Reading::Closed => true,
            _ => false,
        }
    }

    /// Whether the write half is done.
    pub fn is_write_closed(&self) -> (r: bool)
        ensures
            r == (self.writing is Closed),
    {
        match self.writing {
            Writing::Closed => true,
            _ => false,
        }
    }

    /// Whether a new head may be read.
    pub fn can_read_head(&self) -> (r: bool)
        ensures
            r == (self.reading is Init),
    {
        match self.reading {
            Reading::Init => true,
            _ => false,
        }
    }

    /// Whether body bytes may be read.
    pub fn can_read_body(&self) -> (r: bool)
        ensures
            r == (self.reading is Body),
    {
        match self.reading {
            Reading::Body(_) => true,
            _ => false,
        }
    }

    /// Whether a head may be written.
    pub fn can_write_head(&self) -> (r: bool)
        ensures
            r == (self.writing is Init),
    {
        match self.writing {
            Writing::Init => true,
            _ => false,
        }
    }

    /// Whether body bytes may be written.
    pub fn can_write_body(&self) -> (r: bool)
        ensures
            r == (self.writing is Body),
    {
        match self.writing {
            Writing::Body(_) => true,
            _ => false,
        }
    }

    /// The remaining buffered input and the state, released to the caller at
    /// an upgrade: the bytes after the head belong to the next protocol.
    pub fn into_parts(self) -> (r: Vec<u8>)
        requires
            self.wf(),
        ensures
            r@ == self.input_view(),
    {
        let mut input = self.input;
        let n = input.remaining();
        let parts = input.read_upto(n);
        proof {
            assert(parts@ =~= self.input_view());
        }
        parts
    }
}

impl Conn {
    /// Tries to read a request head. `Ok(Some)` hands out the head, the
    /// body-framing decision, and whether the request asks to upgrade, and
    /// moves reading to the body (or past it). `Ok(None)` waits for more
    /// bytes. A head that cannot fit the buffer bound is too large; spent
    /// input at the transport's end aborts.
    #[verifier::rlimit(100)]
    pub fn poll_read_head(&mut self) -> (r: Result<
        Option<(Incoming<(Method, RequestUri)>, DecodedLength, bool)>,
        HttpError,
    >)
        requires
            old(self).wf(),
            old(self).reading is Init,
        ensures
            final(self).wf(),
            final(self).writing == old(self).writing,
            final(self).output_view() == old(self).output_view(),
            final(self).input_eof == old(self).input_eof,
            final(self).max_buf_size == old(self).max_buf_size,
            final(self).keep_alive == old(self).keep_alive,
            final(self).close_sent == old(self).close_sent,
            final(self).ka_sent == old(self).ka_sent,
            match r {
                Ok(Some((inc, len, up))) => {
                    &&& (spec_parse_request_head(old(self).input_view())
                        matches HeadParse::Complete(v, mu, hm, used))
                    &&& (match spec_parse_request_head(old(self).input_view()) {
                        HeadParse::Complete(v, mu, hm, used) => {
                            &&& inc.version == v
                            &&& inc.subject.0@ == mu.0
                            &&& inc.subject.1@ == mu.1
                            &&& inc.headers@ == hm
                            &&& used <= old(self).spec_max_buf_size()
                            &&& final(self).input_view() == old(self).input_view().skip(used)
                            &&& spec_request_framing(hm) == Ok::<DecodedLength, HttpError>(len)
                            &&& up == (spec_find_header(hm, spec_upgrade_name()) is Some
                                && spec_connection_has(hm, spec_upgrade_name()))
                            &&& final(self).close_seen == spec_connection_has(
                                hm,
                                spec_close_bytes(),
                            )
                            &&& final(self).ka_seen == spec_connection_has(
                                hm,
                                spec_keep_alive_bytes(),
                            )
                            &&& final(self).version == v
                            &&& crate::method::spec_method_wf(inc.subject.0)
                            &&& crate::uri::spec_uri_wf(inc.subject.1)
                            &&& inc.headers.wf()
                        },
                        _ => false,
                    })
                    &&& final(self).reading == (if up {
                        Reading::Upgrade
                    } else {
                        match len {
                            DecodedLength::Zero => Reading::KeepAlive,
                            DecodedLength::Known(n) => Reading::Body(BodyDecoder::SizedDecoder(n)),
                            DecodedLength::Chunked => Reading::Body(
                                BodyDecoder::ChunkedDecoder(ChunkedState::Size),
                            ),
                            DecodedLength::CloseDelimited => Reading::Body(BodyDecoder::EofDecoder),
                        }
                    })
                },
                Ok(None) => spec_parse_request_head(old(self).input_view()) is Partial && old(self).input_view().len() < old(self).spec_max_buf_size() && !old(self).input_eof
                    && final(self).reading == old(self).reading && final(self).input_view() == old(self).input_view()
                    && final(self).version == old(self).version && final(self).close_seen == old(self).close_seen
                    && final(self).ka_seen == old(self).ka_seen,
                Err(e) => {
                    &&& *final(self) == *old(self)
                    &&& {
                        ||| (spec_parse_request_head(old(self).input_view())
                            matches HeadParse::Bad(e2) && e == e2)
                        ||| (e == HttpError::HttpTooLargeError && (spec_parse_request_head(
                            old(self).input_view(),
                        ) is Partial && old(self).input_view().len()
                            >= old(self).spec_max_buf_size() || (spec_parse_request_head(
                            old(self).input_view(),
                        ) matches HeadParse::Complete(v, mu, hm, used) && used > old(
                            self,
                        ).spec_max_buf_size())))
                        ||| (e == HttpError::HttpIoError(IoErrorKind::ConnectionAborted) && old(
                            self,
                        ).input_eof && old(self).input_view().len() == 0 && spec_parse_request_head(
                            old(self).input_view(),
                        ) is Partial)
                        ||| (e == HttpError::HttpIoError(IoErrorKind::UnexpectedEof) && old(
                            self,
                        ).input_eof && old(self).input_view().len() > 0 && spec_parse_request_head(
                            old(self).input_view(),
                        ) is Partial)
                        ||| (spec_parse_request_head(old(self).input_view())
                            matches HeadParse::Complete(v, mu, hm, used) && spec_request_framing(hm)
                            == Err::<DecodedLength, HttpError>(e))
                    }
                },
            },
    {
        let parsed = parse_request(self.input.rest());
        match parsed {
            Err(e) => Err(e),
            Ok(None) => {
                if self.input.remaining() >= self.max_buf_size {
                    return Err(HttpError::HttpTooLargeError);
                }
                if self.input_eof {
                    if self.input.remaining() == 0 {
                        return Err(HttpError::HttpIoError(IoErrorKind::ConnectionAborted));
                    }
                    return Err(HttpError::HttpIoError(IoErrorKind::UnexpectedEof));
                }
                Ok(None)
            },
            Ok(Some((inc, used))) => {
                if used > self.max_buf_size {
                    return Err(HttpError::HttpTooLargeError);
                }
                let len = match decide_request_framing(&inc.headers) {
                    Ok(len) => len,
                    Err(e) => {
                        return Err(e);
                    },
                };
                self.input.consume(used);
                let close: [u8; 5] = [99, 108, 111, 115, 101];
                let ka: [u8; 10] = [107, 101, 101, 112, 45, 97, 108, 105, 118, 101];
                proof {
                    assert(close@ =~= spec_close_bytes());
                    assert(ka@ =~= spec_keep_alive_bytes());
                    assert(crate::ascii::spec_lower(close@) =~= close@);
                    assert(crate::ascii::spec_lower(ka@) =~= ka@);
                }
                self.close_seen = connection_has(&inc.headers, close.as_slice());
                self.ka_seen = connection_has(&inc.headers, ka.as_slice());
                self.version = inc.version;
                let up = wants_upgrade(&inc.headers);
                if up {
                    self.reading = Reading::Upgrade;
                } else {
                    self.reading = match len {
                        DecodedLength::Zero => Reading::KeepAlive,
                        DecodedLength::Known(n) => Reading::Body(BodyDecoder::SizedDecoder(n)),
                        DecodedLength::Chunked => Reading::Body(BodyDecoder::ChunkedDecoder(ChunkedState::Size)),
                        DecodedLength::CloseDelimited => Reading::Body(BodyDecoder::EofDecoder),
                    };
                }
                Ok(Some((inc, len, up)))
            },
        }
    }

    /// Tries to read a response head, as a client that sent a request with
    /// the given method does. `Ok(Some)` hands out the head and the
    /// body-framing decision and moves reading to the body (or past it);
    /// `Ok(None)` waits for more bytes.
    #[verifier::rlimit(100)]
    pub fn poll_read_response_head(&mut self, req_method: &Method) -> (r: Result<
        Option<(Incoming<RawStatus>, DecodedLength)>,
        HttpError,
    >)
        requires
            old(self).wf(),
            old(self).reading is Init,
        ensures
            final(self).wf(),
            final(self).writing == old(self).writing,
            final(self).output_view() == old(self).output_view(),
            match r {
                Ok(Some((inc, len))) => {
                    &&& (crate::http::head::spec_parse_response_head(old(self).input_view())
                        matches HeadParse::Complete(v, cr, hm, used))
                    &&& (match crate::http::head::spec_parse_response_head(
                        old(self).input_view(),
                    ) {
                        HeadParse::Complete(v, cr, hm, used) => {
                            &&& inc.version == v
                            &&& inc.subject.0 == cr.0
                            &&& inc.subject.1@ == cr.1
                            &&& inc.headers@ == hm
                            &&& used <= old(self).spec_max_buf_size()
                            &&& final(self).input_view() == old(self).input_view().skip(used)
                            &&& crate::proto::spec_response_framing(*req_method, cr.0, hm)
                                == Ok::<DecodedLength, HttpError>(len)
                            &&& final(self).version == v
                        },
                        _ => false,
                    })
                    &&& final(self).reading == (match len {
                        DecodedLength::Zero => Reading::KeepAlive,
                        DecodedLength::Known(n) => Reading::Body(BodyDecoder::SizedDecoder(n)),
                        DecodedLength::Chunked => Reading::Body(BodyDecoder::ChunkedDecoder(ChunkedState::Size)),
                        DecodedLength::CloseDelimited => Reading::Body(BodyDecoder::EofDecoder),
                    })
                },
                Ok(None) => crate::http::head::spec_parse_response_head(old(self).input_view())
                    is Partial && old(self).input_view().len() < old(self).spec_max_buf_size()
                    && !old(self).input_eof && final(self).reading == old(self).reading
                    && final(self).input_view() == old(self).input_view(),
                Err(e) => {
                    ||| (crate::http::head::spec_parse_response_head(old(self).input_view())
                        matches HeadParse::Bad(e2) && e == e2)
                    ||| (e == HttpError::HttpTooLargeError && (crate::http::head::spec_parse_response_head(
                        old(self).input_view(),
                    ) is Partial && old(self).input_view().len() >= old(self).spec_max_buf_size()
                        || (crate::http::head::spec_parse_response_head(old(self).input_view())
                        matches HeadParse::Complete(v, cr, hm, used) && used > old(self).spec_max_buf_size())))
                    ||| (e == HttpError::HttpIoError(IoErrorKind::ConnectionAborted) && old(self).input_eof && old(self).input_view().len() == 0
                        && crate::http::head::spec_parse_response_head(old(self).input_view()) is Partial)
                    ||| (e == HttpError::HttpIoError(IoErrorKind::UnexpectedEof) && old(self).input_eof && old(self).input_view().len() > 0
                        && crate::http::head::spec_parse_response_head(old(self).input_view()) is Partial)
                    ||| (crate::http::head::spec_parse_response_head(old(self).input_view())
                        matches HeadParse::Complete(v, cr, hm, used)
                        && crate::proto::spec_response_framing(*req_method, cr.0, hm)
                        == Err::<DecodedLength, HttpError>(e))
                },
            },
    {
        let parsed = crate::http::head::parse_response(self.input.rest());
        match parsed {
            Err(e) => Err(e),
            Ok(None) => {
                if self.input.remaining() >= self.max_buf_size {
                    return Err(HttpError::HttpTooLargeError);
                }
                if self.input_eof {
                    if self.input.remaining() == 0 {
                        return Err(HttpError::HttpIoError(IoErrorKind::ConnectionAborted));
                    }
                    return Err(HttpError::HttpIoError(IoErrorKind::UnexpectedEof));
                }
                Ok(None)
            },
            Ok(Some((inc, used))) => {
                if used > self.max_buf_size {
                    return Err(HttpError::HttpTooLargeError);
                }
                let status = inc.subject.0;
                let len = match crate::proto::decide_response_framing(
                    req_method,
                    status,
                    &inc.headers,
                ) {
                    Ok(len) => len,
                    Err(e) => {
                        return Err(e);
                    },
                };
                self.input.consume(used);
                let close: [u8; 5] = [99, 108, 111, 115, 101];
                proof {
                    assert(close@ =~= spec_close_bytes());
                    assert(crate::ascii::spec_lower(close@) =~= close@);
                }
                self.close_seen = connection_has(&inc.headers, close.as_slice());
                self.version = inc.version;
                self.reading = match len {
                    DecodedLength::Zero => Reading::KeepAlive,
                    DecodedLength::Known(n) => Reading::Body(BodyDecoder::SizedDecoder(n)),
                    DecodedLength::Chunked => Reading::Body(BodyDecoder::ChunkedDecoder(ChunkedState::Size)),
                    DecodedLength::CloseDelimited => Reading::Body(BodyDecoder::EofDecoder),
                };
                Ok(Some((inc, len)))
            },
        }
    }

    /// What one body-read step does, given the decoder, the buffered input,
    /// whether the transport ended, and the caller's limit: the data handed
    /// out, the input consumed, the next reading state, and the error, if
    /// any. Mirrors the framing exactly: a sized body hands out up to its
    /// remaining count; a chunked body takes one step of the chunked framing
    /// (waiting for a whole size line first); a read-to-close body drains
    /// the buffer; a dry buffer pends, or fails when the transport already
    /// ended mid-body.
    pub open spec fn spec_read_body_step(
        dec: BodyDecoder,
        input: Seq<u8>,
        eof: bool,
        limit: int,
    ) -> (Result<Option<Seq<u8>>, HttpError>, int, Reading) {
        match dec {
            BodyDecoder::SizedDecoder(rem) => {
                if rem == 0 {
                    (Ok(None), 0int, Reading::KeepAlive)
                } else {
                    let n = vstd::math::min(vstd::math::min(rem as int, limit), input.len() as int);
                    if n == 0 {
                        if eof {
                            (
                                Err(HttpError::HttpIoError(IoErrorKind::UnexpectedEof)),
                                0int,
                                Reading::Closed,
                            )
                        } else {
                            (Ok(None), 0int, Reading::Body(dec))
                        }
                    } else {
                        (
                            Ok(Some(input.take(n))),
                            n,
                            if n == rem {
                                Reading::KeepAlive
                            } else {
                                Reading::Body(BodyDecoder::SizedDecoder((rem - n) as u64))
                            },
                        )
                    }
                }
            },
            BodyDecoder::ChunkedDecoder(st) => {
                if st is Size && crate::ascii::spec_find_eol(input, 0) is None {
                    if eof {
                        (
                            Err(HttpError::HttpIoError(IoErrorKind::UnexpectedEof)),
                            0int,
                            Reading::Closed,
                        )
                    } else {
                        (Ok(None), 0int, Reading::Body(dec))
                    }
                } else {
                    match crate::http::spec_chunked_step(input, st, limit) {
                        None => (
                            Err(HttpError::HttpIoError(IoErrorKind::InvalidInput)),
                            0int,
                            Reading::Closed,
                        ),
                        Some((data, used, st2)) => {
                            if st2 is Done {
                                if data.len() == 0 {
                                    (Ok(None), used, Reading::KeepAlive)
                                } else {
                                    (Ok(Some(data)), used, Reading::KeepAlive)
                                }
                            } else if data.len() == 0 {
                                if used == 0 {
                                    if eof {
                                        (
                                            Err(HttpError::HttpIoError(IoErrorKind::UnexpectedEof)),
                                            0int,
                                            Reading::Closed,
                                        )
                                    } else {
                                        (
                                            Ok(None),
                                            0int,
                                            Reading::Body(BodyDecoder::ChunkedDecoder(st2)),
                                        )
                                    }
                                } else {
                                    (
                                        Ok(None),
                                        used,
                                        Reading::Body(BodyDecoder::ChunkedDecoder(st2)),
                                    )
                                }
                            } else {
                                (
                                    Ok(Some(data)),
                                    used,
                                    Reading::Body(BodyDecoder::ChunkedDecoder(st2)),
                                )
                            }
                        },
                    }
                }
            },
            BodyDecoder::EofDecoder => {
                let n = vstd::math::min(limit, input.len() as int);
                if n == 0 {
                    if eof {
                        (Ok(None), 0int, Reading::Closed)
                    } else {
                        (Ok(None), 0int, Reading::Body(dec))
                    }
                } else {
                    (Ok(Some(input.take(n))), n, Reading::Body(dec))
                }
            },
        }
    }

    /// Reads at most `limit` body bytes, exactly as [`Self::spec_read_body_step`]
    /// says for the current decoder: `Ok(Some)` hands out data; `Ok(None)`
    /// means the body just ended (reading has left `Body`) or more transport
    /// bytes are needed. A framing error, or a transport that ends mid-body,
    /// closes the read half.
    #[verifier::rlimit(100)]
    pub fn poll_read_body(&mut self, limit: usize) -> (r: Result<Option<Vec<u8>>, HttpError>)
        requires
            old(self).wf(),
            old(self).reading is Body,
            limit >= 1,
        ensures
            final(self).wf(),
            match old(self).reading {
                Reading::Body(dec) => {
                    let step = Self::spec_read_body_step(
                        dec,
                        old(self).input_view(),
                        old(self).input_eof,
                        limit as int,
                    );
                    &&& (match (r, step.0) {
                        (Ok(Some(d)), Ok(Some(sd))) => d@ == sd,
                        (Ok(None), Ok(None)) => true,
                        (Err(e), Err(se)) => e == se,
                        _ => false,
                    })
                    &&& (r is Ok ==> final(self).input_view() == old(self).input_view().skip(
                        step.1,
                    ))
                    &&& final(self).reading == step.2
                    &&& *final(self) == (Conn {
                        input: final(self).input,
                        reading: final(self).reading,
                        ..*old(self)
                    })
                },
                _ => false,
            },
    {
        let decoder = match self.reading {
            Reading::Body(d) => d,
            _ => {
                proof {
                    assert(false);
                }
                BodyDecoder::EofDecoder
            },
        };
        match decoder {
            BodyDecoder::SizedDecoder(rem) => {
                if rem == 0 {
                    self.reading = Reading::KeepAlive;
                    proof {
                        assert(self.input@ =~= old(self).input_view().skip(0));
                    }
                    return Ok(None);
                }
                let cap: usize = if rem < (limit as u64) {
                    rem as usize
                } else {
                    limit
                };
                let data = self.input.read_upto(cap);
                let got = data.len() as u64;
                if got == 0 {
                    proof {
                        assert(self.input@ =~= old(self).input_view().skip(0));
                    }
                    if self.input_eof {
                        self.reading = Reading::Closed;
                        return Err(HttpError::HttpIoError(IoErrorKind::UnexpectedEof));
                    }
                    return Ok(None);
                }
                let left = rem - got;
                if left == 0 {
                    self.reading = Reading::KeepAlive;
                } else {
                    self.reading = Reading::Body(BodyDecoder::SizedDecoder(left));
                }
                Ok(Some(data))
            },
            BodyDecoder::ChunkedDecoder(st) => {
                let at_size_line = match st {
                    ChunkedState::Size => true,
                    _ => false,
                };
                if at_size_line {
                    // wait for a whole size line before attempting a step
                    match crate::ascii::find_eol(self.input.rest(), 0) {
                        Some(_) => {},
                        None => {
                            proof {
                                assert(self.input@ =~= old(self).input_view().skip(0));
                            }
                            if self.input_eof {
                                self.reading = Reading::Closed;
                                return Err(HttpError::HttpIoError(IoErrorKind::UnexpectedEof));
                            }
                            return Ok(None);
                        },
                    }
                }
                let before = self.input.remaining();
                let (step, new_st) = crate::http::read_chunked_step(&mut self.input, st, limit);
                let data = match step {
                    Ok(d) => d,
                    Err(e) => {
                        self.reading = Reading::Closed;
                        return Err(HttpError::HttpIoError(e));
                    },
                };
                let after = self.input.remaining();
                let done = match new_st {
                    ChunkedState::Done => true,
                    _ => false,
                };
                if done {
                    self.reading = Reading::KeepAlive;
                    if data.len() == 0 {
                        return Ok(None);
                    }
                    return Ok(Some(data));
                }
                self.reading = Reading::Body(BodyDecoder::ChunkedDecoder(new_st));
                if data.len() == 0 {
                    if after == before {
                        proof {
                            assert(self.input@ =~= old(self).input_view().skip(0));
                        }
                        if self.input_eof {
                            self.reading = Reading::Closed;
                            return Err(HttpError::HttpIoError(IoErrorKind::UnexpectedEof));
                        }
                        return Ok(None);
                    }
                    return Ok(None);
                }
                Ok(Some(data))
            },
            BodyDecoder::EofDecoder => {
                let data = self.input.read_upto(limit);
                if data.len() == 0 {
                    proof {
                        assert(self.input@ =~= old(self).input_view().skip(0));
                    }
                    if self.input_eof {
                        self.reading = Reading::Closed;
                        return Ok(None);
                    }
                    return Ok(None);
                }
                Ok(Some(data))
            },
        }
    }

    /// Writes a response head. Decides the outgoing framing per the matrix
    /// and fixes the framing headers accordingly: a bodiless status strips
    /// `Content-Length` and `Transfer-Encoding`; an explicit chunked framing
    /// removes any `Content-Length`; `Content-Length` or
    /// `Transfer-Encoding: chunked` is inserted when the framing calls for
    /// one; an HTTP/1.0 response that falls back to close-delimiting forces
    /// `Connection: close`; an HTTP/1.0 exchange whose peer asked for
    /// keep-alive advertises `Connection: keep-alive` back. A `Connection:
    /// close` on the way out — the user's or ours — disables reuse. A `HEAD`
    /// request keeps the framing headers but suppresses every body octet.
    #[verifier::rlimit(100)]
    pub fn write_response_head(
        &mut self,
        status: u16,
        reason: &[u8],
        req_is_head: bool,
        body: BodyLength,
        headers: &mut Headers,
    ) -> (r: Result<(), HttpError>)
        requires
            old(self).wf(),
            old(self).writing is Init,
            old(headers).wf(),
            100 <= status <= 599,
        ensures
            final(self).wf(),
            final(headers).wf(),
            final(self).reading == old(self).reading,
            final(self).input_view() == old(self).input_view(),
            final(self).input_eof == old(self).input_eof,
            final(self).max_buf_size == old(self).max_buf_size,
            final(self).keep_alive == old(self).keep_alive,
            final(self).version == old(self).version,
            final(self).close_seen == old(self).close_seen,
            final(self).ka_seen == old(self).ka_seen,
            match r {
                Ok(()) => {
                    let body_allowed = !crate::status::StatusCode(status).spec_disallows_body();
                    let decision = crate::proto::spec_encoder_decision(
                        old(self).version,
                        body_allowed,
                        spec_te_chunked(old(headers)@),
                        (match spec_content_length(old(headers)@) {
                            Ok(c) => c,
                            Err(_) => None,
                        }),
                        body,
                    );
                    let add_ka = spec_advertise_keep_alive(*old(self), decision.3, old(headers)@);
                    let hm = spec_response_header_fixup(
                        old(headers)@,
                        body_allowed,
                        decision,
                        add_ka,
                    );
                    &&& final(headers)@ == hm
                    &&& final(self).output_view() == old(self).output_view()
                        + crate::http::head::spec_serialize_response(
                        status,
                        reason@,
                        old(self).version,
                        hm,
                    )
                    &&& final(self).writing == (if req_is_head || decision.0 is EmptyEncoder {
                        Writing::KeepAlive
                    } else {
                        Writing::Body(decision.0)
                    })
                    &&& final(self).close_sent == (old(self).close_sent || decision.3
                        || spec_connection_has(hm, spec_close_bytes()))
                    &&& final(self).ka_sent == (old(self).ka_sent || spec_connection_has(
                        hm,
                        spec_keep_alive_bytes(),
                    ))
                },
                Err(e) => spec_content_length(old(headers)@) == Err::<Option<u64>, HttpError>(e)
                    && final(self).writing == old(self).writing && final(self).output_view()
                    == old(self).output_view() && final(headers)@ == old(headers)@ && final(self).close_sent == old(self).close_sent && final(self).ka_sent == old(self).ka_sent,
            },
    {
        let allowed = {
            let sc = crate::status::StatusCode(status);
            !sc.disallows_body()
        };
        let te = crate::proto::te_is_chunked(headers);
        let cl = match crate::proto::content_length(headers) {
            Ok(c) => c,
            Err(e) => {
                return Err(e);
            },
        };
        let (enc, add_cl, add_te, force_close, remove_cl) = crate::proto::decide_encoder(
            &self.version,
            allowed,
            te,
            cl,
            body,
        );
        let close_bytes: [u8; 5] = [99, 108, 111, 115, 101];
        let ka_bytes: [u8; 10] = [107, 101, 101, 112, 45, 97, 108, 105, 118, 101];
        proof {
            assert(close_bytes@ =~= spec_close_bytes());
            assert(ka_bytes@ =~= spec_keep_alive_bytes());
            assert(crate::ascii::spec_lower(close_bytes@) =~= close_bytes@);
            assert(crate::ascii::spec_lower(ka_bytes@) =~= ka_bytes@);
        }
        let add_ka = {
            let is_http10 = match self.version {
                HttpVersion::Http10 => true,
                HttpVersion::Http11 => false,
            };
            let ka_off = match self.keep_alive {
                KA::Disabled => true,
                _ => false,
            };
            is_http10 && self.ka_seen && !ka_off && !force_close && !connection_has(
                headers,
                close_bytes.as_slice(),
            )
        };
        let cl_name: [u8; 14] = [99, 111, 110, 116, 101, 110, 116, 45, 108, 101, 110, 103, 116, 104];
        let te_name: [u8; 17] = [
            116, 114, 97, 110, 115, 102, 101, 114, 45, 101, 110, 99, 111, 100, 105, 110, 103,
        ];
        let conn_name: [u8; 10] = [99, 111, 110, 110, 101, 99, 116, 105, 111, 110];
        proof {
            assert(cl_name@ =~= crate::proto::spec_cl_name());
            assert(te_name@ =~= crate::proto::spec_te_name());
            assert(conn_name@ =~= crate::proto::spec_conn_name());
            assert(crate::ascii::spec_is_token(cl_name@));
            assert(crate::ascii::spec_is_token(te_name@));
            assert(crate::ascii::spec_is_token(conn_name@));
        }
        if !allowed {
            headers.remove_raw(cl_name.as_slice());
            headers.remove_raw(te_name.as_slice());
        }
        if remove_cl {
            headers.remove_raw(cl_name.as_slice());
        }
        match add_cl {
            Some(n) => {
                let digits = crate::numerals::format_dec_u64(n);
                let mut vals: Vec<Vec<u8>> = Vec::new();
                vals.push(digits);
                proof {
                    assert(vals.deep_view() =~~= seq![
                        crate::numerals::spec_dec_digits(n as nat),
                    ]);
                }
                headers.set_raw(vstd::slice::slice_to_vec(cl_name.as_slice()), vals);
            },
            None => {},
        }
        if add_te {
            let chunked: [u8; 7] = [99, 104, 117, 110, 107, 101, 100];
            let mut vals: Vec<Vec<u8>> = Vec::new();
            vals.push(vstd::slice::slice_to_vec(chunked.as_slice()));
            proof {
                assert(vals.deep_view() =~~= seq![crate::proto::spec_chunked_bytes()]);
            }
            headers.set_raw(vstd::slice::slice_to_vec(te_name.as_slice()), vals);
        }
        if force_close {
            let mut vals: Vec<Vec<u8>> = Vec::new();
            vals.push(vstd::slice::slice_to_vec(close_bytes.as_slice()));
            proof {
                assert(vals.deep_view() =~~= seq![spec_close_bytes()]);
            }
            headers.set_raw(vstd::slice::slice_to_vec(conn_name.as_slice()), vals);
        }
        if add_ka {
            let mut vals: Vec<Vec<u8>> = Vec::new();
            vals.push(vstd::slice::slice_to_vec(ka_bytes.as_slice()));
            proof {
                assert(vals.deep_view() =~~= seq![spec_keep_alive_bytes()]);
            }
            headers.set_raw(vstd::slice::slice_to_vec(conn_name.as_slice()), vals);
        }
        if force_close || connection_has(headers, close_bytes.as_slice()) {
            self.close_sent = true;
        }
        if connection_has(headers, ka_bytes.as_slice()) {
            self.ka_sent = true;
        }
        let head_bytes = crate::http::head::serialize_response(
            status,
            reason,
            &self.version,
            headers,
        );
        crate::header::parsing::extend_bytes(&mut self.output, head_bytes.as_slice());
        self.writing = if req_is_head {
            Writing::KeepAlive
        } else {
            match enc {
                crate::proto::EncoderKind::EmptyEncoder => Writing::KeepAlive,
                other => Writing::Body(other),
            }
        };
        Ok(())
    }

    /// Writes a request head, as a client does: a request that carries no
    /// body and is not a `CONNECT` omits the framing headers; an explicit
    /// chunked framing removes any `Content-Length`; a body of known length
    /// announces `Content-Length`; a body of unknown length is sent chunked
    /// on HTTP/1.1.
    #[verifier::rlimit(100)]
    pub fn write_request_head(
        &mut self,
        method: &Method,
        uri: &RequestUri,
        body: Option<BodyLength>,
        headers: &mut Headers,
    ) -> (r: Result<(), HttpError>)
        requires
            old(self).wf(),
            old(self).writing is Init,
            old(headers).wf(),
        ensures
            final(self).wf(),
            final(headers).wf(),
            final(self).reading == old(self).reading,
            final(self).input_view() == old(self).input_view(),
            final(self).input_eof == old(self).input_eof,
            final(self).max_buf_size == old(self).max_buf_size,
            final(self).keep_alive == old(self).keep_alive,
            final(self).version == old(self).version,
            match r {
                Ok(()) => {
                    let hm = (match body {
                        None => old(headers)@,
                        Some(blen) => spec_request_header_fixup(
                            old(headers)@,
                            crate::proto::spec_encoder_decision(
                                old(self).version,
                                true,
                                spec_te_chunked(old(headers)@),
                                (match spec_content_length(old(headers)@) {
                                    Ok(c) => c,
                                    Err(_) => None,
                                }),
                                blen,
                            ),
                        ),
                    });
                    &&& final(headers)@ == hm
                    &&& final(self).output_view() == old(self).output_view()
                        + crate::http::head::spec_serialize_request(
                        method@,
                        uri@,
                        old(self).version,
                        hm,
                    )
                    &&& final(self).writing == (match body {
                        None => {
                            if method is Connect {
                                Writing::Body(crate::proto::EncoderKind::CloseDelimitedEncoder)
                            } else {
                                Writing::KeepAlive
                            }
                        },
                        Some(blen) => Writing::Body(
                            crate::proto::spec_encoder_decision(
                                old(self).version,
                                true,
                                spec_te_chunked(old(headers)@),
                                (match spec_content_length(old(headers)@) {
                                    Ok(c) => c,
                                    Err(_) => None,
                                }),
                                blen,
                            ).0,
                        ),
                    })
                },
                Err(e) => spec_content_length(old(headers)@) == Err::<Option<u64>, HttpError>(e)
                    && final(self).writing == old(self).writing && final(self).output_view()
                    == old(self).output_view() && final(headers)@ == old(headers)@,
            },
    {
        let is_connect = method.is_connect();
        let enc: crate::proto::EncoderKind = match body {
            None => {
                if is_connect {
                    crate::proto::EncoderKind::CloseDelimitedEncoder
                } else {
                    crate::proto::EncoderKind::EmptyEncoder
                }
            },
            Some(blen) => {
                let te = crate::proto::te_is_chunked(headers);
                let cl = match crate::proto::content_length(headers) {
                    Ok(c) => c,
                    Err(e) => {
                        return Err(e);
                    },
                };
                let (enc, add_cl, add_te, _close, remove_cl) = crate::proto::decide_encoder(
                    &self.version,
                    true,
                    te,
                    cl,
                    blen,
                );
                let cl_name: [u8; 14] = [
                    99, 111, 110, 116, 101, 110, 116, 45, 108, 101, 110, 103, 116, 104,
                ];
                let te_name: [u8; 17] = [
                    116, 114, 97, 110, 115, 102, 101, 114, 45, 101, 110, 99, 111, 100, 105, 110,
                    103,
                ];
                proof {
                    assert(cl_name@ =~= crate::proto::spec_cl_name());
                    assert(te_name@ =~= crate::proto::spec_te_name());
                    assert(crate::ascii::spec_is_token(cl_name@));
                    assert(crate::ascii::spec_is_token(te_name@));
                }
                if remove_cl {
                    headers.remove_raw(cl_name.as_slice());
                }
                match add_cl {
                    Some(n) => {
                        let digits = crate::numerals::format_dec_u64(n);
                        let mut vals: Vec<Vec<u8>> = Vec::new();
                        vals.push(digits);
                        proof {
                            assert(vals.deep_view() =~~= seq![
                                crate::numerals::spec_dec_digits(n as nat),
                            ]);
                        }
                        headers.set_raw(vstd::slice::slice_to_vec(cl_name.as_slice()), vals);
                    },
                    None => {},
                }
                if add_te {
                    let chunked: [u8; 7] = [99, 104, 117, 110, 107, 101, 100];
                    let mut vals: Vec<Vec<u8>> = Vec::new();
                    vals.push(vstd::slice::slice_to_vec(chunked.as_slice()));
                    proof {
                        assert(vals.deep_view() =~~= seq![crate::proto::spec_chunked_bytes()]);
                    }
                    headers.set_raw(vstd::slice::slice_to_vec(te_name.as_slice()), vals);
                }
                enc
            },
        };
        let head_bytes = serialize_request(method, uri, &self.version, headers);
        crate::header::parsing::extend_bytes(&mut self.output, head_bytes.as_slice());
        self.writing = match enc {
            crate::proto::EncoderKind::EmptyEncoder => Writing::KeepAlive,
            other => Writing::Body(other),
        };
        Ok(())
    }

    /// Writes one piece of body data under the negotiated framing. An empty
    /// piece under the chunked framing is dropped without a trace — it must
    /// not end the body. Returns how many bytes were accepted.
    pub fn write_body(&mut self, chunk: &[u8]) -> (r: usize)
        requires
            old(self).wf(),
            old(self).writing is Body,
        ensures
            final(self).wf(),
            final(self).reading == old(self).reading,
            final(self).input_view() == old(self).input_view(),
            match old(self).writing {
                Writing::Body(enc) => match enc {
                    crate::proto::EncoderKind::ChunkedEncoder => {
                        if chunk@.len() == 0 {
                            final(self).output_view() == old(self).output_view() && final(self).writing == old(self).writing && r == 0
                        } else {
                            final(self).output_view() == old(self).output_view()
                                + spec_encode_chunk(chunk@) && final(self).writing == old(self).writing && r as int == chunk@.len()
                        }
                    },
                    crate::proto::EncoderKind::SizedEncoder(rem) => {
                        let n = vstd::math::min(rem as int, chunk@.len() as int);
                        final(self).output_view() == old(self).output_view() + chunk@.take(n)
                            && final(self).writing == Writing::Body(
                            crate::proto::EncoderKind::SizedEncoder((rem - n) as u64),
                        ) && r as int == n
                    },
                    crate::proto::EncoderKind::CloseDelimitedEncoder => final(self).output_view()
                        == old(self).output_view() + chunk@ && final(self).writing == old(self).writing && r as int == chunk@.len(),
                    crate::proto::EncoderKind::EmptyEncoder => final(self).output_view() == old(self).output_view() && final(self).writing == old(self).writing && r == 0,
                },
                _ => false,
            },
    {
        let enc = match self.writing {
            Writing::Body(e) => e,
            _ => {
                proof {
                    assert(false);
                }
                crate::proto::EncoderKind::EmptyEncoder
            },
        };
        match enc {
            crate::proto::EncoderKind::ChunkedEncoder => {
                if chunk.len() == 0 {
                    return 0;
                }
                let size = crate::numerals::format_hex_upper_u64(chunk.len() as u64);
                crate::header::parsing::extend_bytes(&mut self.output, size.as_slice());
                self.output.push(crate::ascii::CR);
                self.output.push(crate::ascii::LF);
                crate::header::parsing::extend_bytes(&mut self.output, chunk);
                self.output.push(crate::ascii::CR);
                self.output.push(crate::ascii::LF);
                proof {
                    assert(self.output@ =~= old(self).output_view() + spec_encode_chunk(chunk@));
                }
                chunk.len()
            },
            crate::proto::EncoderKind::SizedEncoder(rem) => {
                let n: usize = if rem < (chunk.len() as u64) {
                    rem as usize
                } else {
                    chunk.len()
                };
                crate::header::parsing::extend_bytes(
                    &mut self.output,
                    vstd::slice::slice_subrange(chunk, 0, n),
                );
                proof {
                    assert(chunk@.subrange(0, n as int) =~= chunk@.take(n as int));
                }
                self.writing = Writing::Body(
                    crate::proto::EncoderKind::SizedEncoder(rem - (n as u64)),
                );
                n
            },
            crate::proto::EncoderKind::CloseDelimitedEncoder => {
                crate::header::parsing::extend_bytes(&mut self.output, chunk);
                chunk.len()
            },
            crate::proto::EncoderKind::EmptyEncoder => 0,
        }
    }

    /// Ends the body: the chunked framing writes its terminator; a sized
    /// body must have been written exactly (anything less is a caller
    /// mistake this connection refuses to express on the wire); a
    /// close-delimited body closes the write half.
    pub fn end_body(&mut self)
        requires
            old(self).wf(),
            old(self).writing is Body,
            (old(self).writing matches Writing::Body(crate::proto::EncoderKind::SizedEncoder(rem))
                ==> rem == 0),
        ensures
            final(self).wf(),
            final(self).reading == old(self).reading,
            final(self).input_view() == old(self).input_view(),
            match old(self).writing {
                Writing::Body(enc) => match enc {
                    crate::proto::EncoderKind::ChunkedEncoder => final(self).output_view() == old(self).output_view() + seq![48u8, crate::ascii::CR, crate::ascii::LF, crate::ascii::CR, crate::ascii::LF]
                        && final(self).writing == Writing::KeepAlive,
                    crate::proto::EncoderKind::CloseDelimitedEncoder => final(self).output_view()
                        == old(self).output_view() && final(self).writing == Writing::Closed,
                    _ => final(self).output_view() == old(self).output_view() && final(self).writing == Writing::KeepAlive,
                },
                _ => false,
            },
    {
        let enc = match self.writing {
            Writing::Body(e) => e,
            _ => {
                proof {
                    assert(false);
                }
                crate::proto::EncoderKind::EmptyEncoder
            },
        };
        match enc {
            crate::proto::EncoderKind::ChunkedEncoder => {
                let ghost pre = self.output@;
                self.output.push(48);
                self.output.push(crate::ascii::CR);
                self.output.push(crate::ascii::LF);
                self.output.push(crate::ascii::CR);
                self.output.push(crate::ascii::LF);
                proof {
                    assert(self.output@ =~= pre + seq![
                        48u8,
                        crate::ascii::CR,
                        crate::ascii::LF,
                        crate::ascii::CR,
                        crate::ascii::LF,
                    ]);
                }
                self.writing = Writing::KeepAlive;
            },
            crate::proto::EncoderKind::CloseDelimitedEncoder => {
                self.writing = Writing::Closed;
            },
            _ => {
                self.writing = Writing::KeepAlive;
            },
        }
    }

    /// After both halves finish an exchange, applies the keep-alive decision:
    /// both halves back to `Init` for the next exchange, or both `Closed`.
    pub fn try_keep_alive(&mut self)
        ensures
            *final(self) == (Conn {
                reading: final(self).reading,
                writing: final(self).writing,
                ..*old(self)
            }),
            if old(self).reading is KeepAlive && old(self).writing is KeepAlive {
                if spec_keep_alive_decision(
                    old(self).version,
                    old(self).keep_alive,
                    old(self).close_seen,
                    old(self).close_sent,
                    old(self).ka_seen,
                    old(self).ka_sent,
                ) {
                    final(self).reading == Reading::Init && final(self).writing == Writing::Init
                } else {
                    final(self).reading == Reading::Closed && final(self).writing
                        == Writing::Closed
                }
            } else {
                final(self).reading == old(self).reading && final(self).writing == old(self).writing
            },
    {
        let both_done = self.is_reading_keep_alive() && self.is_writing_keep_alive();
        if !both_done {
            return ;
        }
        let keep = keep_alive_decision(
            &self.version,
            &self.keep_alive,
            self.close_seen,
            self.close_sent,
            self.ka_seen,
            self.ka_sent,
        );
        if keep {
            self.reading = Reading::Init;
            self.writing = Writing::Init;
        } else {
            self.reading = Reading::Closed;
            self.writing = Writing::Closed;
        }
    }

    /// Whether the read half rests between exchanges.
    pub fn is_reading_keep_alive(&self) -> (r: bool)
        ensures
            r == (self.reading is KeepAlive),
    {
        match self.reading {
            Reading::KeepAlive => true,
            _ => false,
        }
    }

    /// Whether the write half rests between exchanges.
    pub fn is_writing_keep_alive(&self) -> (r: bool)
        ensures
            r == (self.writing is KeepAlive),
    {
        match self.writing {
            Writing::KeepAlive => true,
            _ => false,
        }
    }
}

/// Swaps a vector for another, returning the old one.
fn replace_vec(dst: &mut Vec<u8>, src: Vec<u8>) -> (r: Vec<u8>)
    ensures
        r@ == old(dst)@,
        final(dst)@ == src@,
{
    let mut tmp = src;
    core::mem::swap(dst, &mut tmp);
    tmp
}

} // verus!
