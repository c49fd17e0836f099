//! The dispatcher: the loop that couples one connection's two halves to the
//! user's handler. The handler itself runs outside this crate; the
//! dispatcher hands request heads and body data out as values, takes
//! response values in, and guarantees that an error leaves both halves of
//! the connection closed — after queueing the best-effort error response a
//! parse failure earns.

use vstd::prelude::*;
use crate::error::{HttpError, IoErrorKind};
use crate::header::Headers;
use crate::http::head::{Incoming, spec_parse_request_head, HeadParse};
use crate::method::Method;
use crate::proto::conn::{
    Conn, Reading, Writing, BodyDecoder, spec_response_header_fixup, spec_advertise_keep_alive,
};
use crate::proto::{BodyLength, DecodedLength, EncoderKind, spec_te_chunked, spec_content_length};
use crate::uri::RequestUri;

verus! {

/// A response the handler produced, ready to be written in one piece.
pub struct OutgoingResponse {
    /// The status code.
    pub status: u16,
    /// The reason phrase bytes, empty for the canonical one.
    pub reason: Vec<u8>,
    /// The response headers.
    pub headers: Headers,
    /// The whole body, when the handler had it at hand.
    pub body: Vec<u8>,
}

/// What one dispatcher step reports to its caller.
pub enum ServerEvent {
    /// A new request head, its body framing, and whether it asks to
    /// upgrade; the handler should be invoked.
    Request(Incoming<(Method, RequestUri)>, DecodedLength, bool),
    /// A piece of request body data for the handler.
    BodyData(Vec<u8>),
    /// Nothing to do until more bytes arrive.
    Pending,
    /// The connection has finished.
    Done,
}

/// Drives one server connection: reads heads and bodies out of the
/// connection, writes the handler's responses back.
pub struct Dispatcher {
    /// The connection being driven.
    pub conn: Conn,
    /// Set once the dispatcher is shutting the connection down.
    pub is_closing: bool,
    /// How many read steps have been taken, for fairness accounting: one
    /// call of the loop takes at most sixteen before yielding.
    pub steps: u64,
}

/// The status a parse failure earns as a best-effort response: `431` for a
/// head that did not fit, `505` for an unsupported version, `400` for
/// anything else malformed. Transport-level failures earn none.
pub open spec fn spec_error_status(e: HttpError) -> Option<u16> {
    match e {
        HttpError::HttpTooLargeError => Some(431u16),
        HttpError::HttpVersionError => Some(505u16),
        HttpError::HttpMethodError => Some(400u16),
        HttpError::HttpUriError => Some(400u16),
        HttpError::HttpHeaderError => Some(400u16),
        HttpError::HttpStatusError => Some(400u16),
        _ => None,
    }
}

/// The wire bytes of the bare error response with the given status: its
/// serialized head with a zero `Content-Length`, under the connection's
/// version and keep-alive circumstances.
pub open spec fn spec_error_response_bytes(conn: Conn, status: u16) -> Seq<u8> {
    let decision = crate::proto::spec_encoder_decision(
        conn.version,
        true,
        false,
        None,
        BodyLength::Known(0),
    );
    let add_ka = spec_advertise_keep_alive(conn, decision.3, Seq::empty());
    let hm = spec_response_header_fixup(Seq::empty(), true, decision, add_ka);
    crate::http::head::spec_serialize_response(
        status,
        crate::status::StatusCode::spec_canonical_reason_bytes(status),
        conn.version,
        hm,
    )
}

/// Whether a buffered request head is ready and acceptable: it parses
/// completely, fits the buffer bound, and its framing headers agree.
pub open spec fn spec_head_ready(conn: Conn) -> bool {
    &&& spec_parse_request_head(conn.input_view()) matches HeadParse::Complete(v, mu, hm, used)
        && used <= conn.max_buf_size && crate::proto::spec_request_framing(hm) is Ok
}

/// What the ready head carries, for stating the dispatcher's results: the
/// head parse outcome must be `Complete`.
pub open spec fn spec_ready_head(conn: Conn) -> (
    crate::version::HttpVersion,
    (Seq<u8>, Seq<u8>),
    Seq<(Seq<u8>, Seq<Seq<u8>>)>,
    int,
) {
    match spec_parse_request_head(conn.input_view()) {
        HeadParse::Complete(v, mu, hm, used) => (v, mu, hm, used),
        _ => (crate::version::HttpVersion::Http11, (Seq::empty(), Seq::empty()), Seq::empty(), 0),
    }
}

/// A `Request` event correctly reports the head that was buffered: the
/// parsed values match the parse of the old input, and the framing decision
/// matches the headers.
pub open spec fn spec_request_event_correct(
    old_conn: Conn,
    inc: Incoming<(Method, RequestUri)>,
    len: DecodedLength,
    up: bool,
) -> bool {
    let (v, mu, hm, used) = spec_ready_head(old_conn);
    &&& inc.version == v
    &&& inc.subject.0@ == mu.0
    &&& inc.subject.1@ == mu.1
    &&& inc.headers@ == hm
    &&& crate::proto::spec_request_framing(hm) == Ok::<DecodedLength, HttpError>(len)
    &&& up == (crate::header::spec_find_header(hm, crate::proto::spec_upgrade_name()) is Some
        && crate::proto::spec_connection_has(hm, crate::proto::spec_upgrade_name()))
}

impl Dispatcher {
    /// The connection's buffers are well-formed.
    pub open spec fn wf(&self) -> bool {
        self.conn.wf()
    }

    /// Wraps a connection.
    pub fn new(conn: Conn) -> (r: Dispatcher)
        ensures
            r.conn == conn,
            !r.is_closing,
            r.steps == 0,
    {
        Dispatcher { conn, is_closing: false, steps: 0 }
    }

    /// Disables keep-alive on the underlying connection.
    pub fn disable_keep_alive(&mut self)
        ensures
            *final(self) == (Dispatcher {
                conn: (Conn { keep_alive: crate::proto::conn::KA::Disabled, ..old(self).conn }),
                ..*old(self)
            }),
    {
        self.conn.disable_keep_alive();
    }

    /// Shuts the connection down: both halves closed, nothing more read or
    /// written.
    pub fn close(&mut self)
        ensures
            *final(self) == (Dispatcher {
                is_closing: true,
                conn: (Conn {
                    reading: Reading::Closed,
                    writing: Writing::Closed,
                    ..old(self).conn
                }),
                ..*old(self)
            }),
    {
        self.is_closing = true;
        self.conn.close_read();
        self.conn.close_write();
    }

    /// Whether the dispatcher has nothing left to drive.
    pub fn is_done(&self) -> (r: bool)
        ensures
            r == (self.is_closing || (self.conn.reading is Closed && self.conn.writing
                is Closed)),
    {
        if self.is_closing {
            return true;
        }
        self.conn.is_read_closed() && self.conn.is_write_closed()
    }

    /// Writes the best-effort response a parse failure earns, when the
    /// write half has not started: exactly the bare error head, nothing
    /// else. Transport-level failures, and a started write half, leave
    /// everything unchanged.
    pub fn write_error_response(&mut self, e: &HttpError)
        requires
            old(self).wf(),
        ensures
            final(self).wf(),
            match spec_error_status(*e) {
                None => *final(self) == *old(self),
                Some(status) => {
                    if old(self).conn.writing is Init {
                        &&& final(self).conn.output_view() == old(self).conn.output_view()
                            + spec_error_response_bytes(old(self).conn, status)
                        &&& final(self).conn.writing == Writing::KeepAlive
                        &&& final(self).conn.reading == old(self).conn.reading
                        &&& final(self).conn.input_view() == old(self).conn.input_view()
                        &&& final(self).is_closing == old(self).is_closing
                        &&& final(self).steps == old(self).steps
                    } else {
                        *final(self) == *old(self)
                    }
                },
            },
    {
        let status: u16 = match e {
            HttpError::HttpTooLargeError => 431,
            HttpError::HttpVersionError => 505,
            HttpError::HttpMethodError => 400,
            HttpError::HttpUriError => 400,
            HttpError::HttpHeaderError => 400,
            HttpError::HttpStatusError => 400,
            _ => {
                return ;
            },
        };
        if !self.conn.can_write_head() {
            return ;
        }
        let mut headers = Headers::new();
        let reason = crate::status::StatusCode(status).canonical_reason_bytes();
        let ghost pre_headers = headers@;
        let wrote = self.conn.write_response_head(
            status,
            reason.as_slice(),
            false,
            BodyLength::Known(0),
            &mut headers,
        );
        proof {
            assert(pre_headers =~= Seq::<(Seq<u8>, Seq<Seq<u8>>)>::empty());
            assert(wrote is Ok) by {
                assert(crate::header::spec_find_header(
                    pre_headers,
                    crate::proto::spec_cl_name(),
                ) is None);
            }
        }
        if self.conn.can_write_body() {
            self.conn.end_body();
        }
    }

    /// One read step: a new request head when one is ready and acceptable, a
    /// piece of body data mid-body, or nothing until more bytes arrive. Any
    /// error queues the best-effort error response and closes both halves
    /// before it is reported.
    #[verifier::rlimit(100)]
    pub fn poll_read(&mut self) -> (r: Result<ServerEvent, HttpError>)
        requires
            old(self).wf(),
        ensures
            final(self).wf(),
            final(self).steps == old(self).steps,
            r is Err ==> final(self).conn.reading == Reading::Closed && final(self).conn.writing
                == Writing::Closed && final(self).is_closing,
            old(self).is_closing ==> (r matches Ok(ev) && ev is Done && *final(self) == *old(self)),
            !old(self).is_closing && old(self).conn.reading is Init && spec_head_ready(
                old(self).conn,
            ) ==> (r matches Ok(ev) && ev matches ServerEvent::Request(inc, len, up)
                && spec_request_event_correct(old(self).conn, inc, len, up) && final(self).conn.input_view() == old(self).conn.input_view().skip(
                spec_ready_head(old(self).conn).3,
            )),
            !old(self).is_closing ==> (match old(self).conn.reading {
                Reading::Body(dec) => {
                    let step = Conn::spec_read_body_step(
                        dec,
                        old(self).conn.input_view(),
                        old(self).conn.input_eof,
                        8192,
                    );
                    match step.0 {
                        Ok(Some(d)) => (r matches Ok(ev) && ev matches ServerEvent::BodyData(bd)
                            && bd@ == d && final(self).conn.reading == step.2),
                        Ok(None) => (r matches Ok(ev) && ev is Pending && final(self).conn.reading
                            == step.2),
                        Err(e) => r == Err::<ServerEvent, HttpError>(e),
                    }
                },
                _ => true,
            }),
            !old(self).is_closing && !(old(self).conn.reading is Init) && !(old(self).conn.reading is Body) ==> (r matches Ok(ev) && ev is Pending && *final(self) == *old(self)),
            !old(self).is_closing && old(self).conn.reading is Init ==> (match r {
                Err(e) => (match spec_error_status(e) {
                    Some(status) => {
                        if old(self).conn.writing is Init {
                            final(self).conn.output_view() == old(self).conn.output_view()
                                + spec_error_response_bytes(old(self).conn, status)
                        } else {
                            final(self).conn.output_view() == old(self).conn.output_view()
                        }
                    },
                    None => final(self).conn.output_view() == old(self).conn.output_view(),
                }),
                Ok(_) => true,
            }),
            !old(self).is_closing && old(self).conn.reading is Body && r is Err
                ==> final(self).conn.output_view() == old(self).conn.output_view(),
    {
        if self.is_closing {
            return Ok(ServerEvent::Done);
        }
        if self.conn.can_read_head() {
            match self.conn.poll_read_head() {
                Ok(Some((inc, len, up))) => {
                    return Ok(ServerEvent::Request(inc, len, up));
                },
                Ok(None) => {
                    return Ok(ServerEvent::Pending);
                },
                Err(e) => {
                    self.write_error_response(&e);
                    self.close();
                    return Err(e);
                },
            }
        }
        if self.conn.can_read_body() {
            match self.conn.poll_read_body(8192) {
                Ok(Some(data)) => {
                    return Ok(ServerEvent::BodyData(data));
                },
                Ok(None) => {
                    return Ok(ServerEvent::Pending);
                },
                Err(e) => {
                    self.close();
                    return Err(e);
                },
            }
        }
        Ok(ServerEvent::Pending)
    }

    /// Reads the next request head, when the connection is ready for one:
    /// exactly what the connection's own head read does; `Ok(None)` when the
    /// connection is not at a head boundary.
    pub fn poll_read_head(&mut self) -> (r: Result<
        Option<(Incoming<(Method, RequestUri)>, DecodedLength, bool)>,
        HttpError,
    >)
        requires
            old(self).wf(),
        ensures
            final(self).wf(),
            final(self).is_closing == old(self).is_closing,
            final(self).steps == old(self).steps,
            !(old(self).conn.reading is Init) ==> r == Ok::<
                Option<(Incoming<(Method, RequestUri)>, DecodedLength, bool)>,
                HttpError,
            >(None) && *final(self) == *old(self),
            old(self).conn.reading is Init && spec_head_ready(old(self).conn) ==> (r matches Ok(
                rr,
            ) && rr matches Some((inc, len, up)) && spec_request_event_correct(
                old(self).conn,
                inc,
                len,
                up,
            ) && final(self).conn.input_view() == old(self).conn.input_view().skip(
                spec_ready_head(old(self).conn).3,
            )),
            old(self).conn.reading is Init && spec_parse_request_head(old(self).conn.input_view())
                is Partial && old(self).conn.input_view().len() < old(self).conn.max_buf_size
                && !old(self).conn.input_eof ==> (r matches Ok(rr) && rr is None && final(self).conn.reading == old(self).conn.reading && final(self).conn.input_view() == old(self).conn.input_view() && final(self).conn.output_view() == old(self).conn.output_view()),
    {
        if !self.conn.can_read_head() {
            return Ok(None);
        }
        self.conn.poll_read_head()
    }

    /// Writes one whole response: the head under the framing matrix, then
    /// the entire body, then the body's end. On success the output grows by
    /// exactly the serialized head — its headers fixed up per the framing —
    /// followed by the framed body bytes; a `HEAD` request's response
    /// carries its framing headers but no body octets. A body shorter than
    /// an announced `Content-Length` is refused and closes the connection.
    #[verifier::rlimit(100)]
    pub fn poll_write(&mut self, response: OutgoingResponse, req_is_head: bool) -> (r: Result<
        (),
        HttpError,
    >)
        requires
            old(self).wf(),
            old(self).conn.writing is Init,
            response.headers.wf(),
            100 <= response.status <= 599,
        ensures
            final(self).wf(),
            final(self).steps == old(self).steps,
            final(self).conn.input_view() == old(self).conn.input_view(),
            r is Err ==> final(self).conn.reading == Reading::Closed && final(self).conn.writing
                == Writing::Closed && final(self).is_closing,
            100 <= response.status <= 199 && response.status != 101 ==> r is Err
                && final(self).conn.output_view() == old(self).conn.output_view(),
            r is Err ==> ((100 <= response.status <= 199 && response.status != 101)
                || spec_content_length(response.headers@) is Err || ({
                let decision = crate::proto::spec_encoder_decision(
                    old(self).conn.version,
                    !crate::status::StatusCode(response.status).spec_disallows_body(),
                    spec_te_chunked(response.headers@),
                    (match spec_content_length(response.headers@) {
                        Ok(c) => c,
                        Err(_) => None,
                    }),
                    BodyLength::Known(response.body@.len() as u64),
                );
                !req_is_head && (decision.0 matches crate::proto::EncoderKind::SizedEncoder(n)
                    && n > response.body@.len())
            })),
            r is Ok ==> final(self).conn.reading == old(self).conn.reading,
            r is Ok ==> ({
                let decision = crate::proto::spec_encoder_decision(
                    old(self).conn.version,
                    !crate::status::StatusCode(response.status).spec_disallows_body(),
                    spec_te_chunked(response.headers@),
                    (match spec_content_length(response.headers@) {
                        Ok(c) => c,
                        Err(_) => None,
                    }),
                    BodyLength::Known(response.body@.len() as u64),
                );
                let add_ka = spec_advertise_keep_alive(
                    old(self).conn,
                    decision.3,
                    response.headers@,
                );
                let hm = spec_response_header_fixup(
                    response.headers@,
                    !crate::status::StatusCode(response.status).spec_disallows_body(),
                    decision,
                    add_ka,
                );
                let head = crate::http::head::spec_serialize_response(
                    response.status,
                    response.reason@,
                    old(self).conn.version,
                    hm,
                );
                let body_bytes = spec_written_body(decision.0, req_is_head, response.body@);
                &&& final(self).conn.output_view() == old(self).conn.output_view() + head
                    + body_bytes
                &&& final(self).is_closing == old(self).is_closing
                &&& final(self).conn.writing == spec_writing_after_response(
                    decision.0,
                    req_is_head,
                )
            }),
    {
        let OutgoingResponse { status, reason, mut headers, body } = response;
        if 100 <= status && status <= 199 && status != 101 {
            // an informational head is the implementation's to send, never a
            // handler's; only the upgrade handshake's 101 passes
            self.close();
            return Err(HttpError::HttpStatusError);
        }
        let blen = BodyLength::Known(body.len() as u64);
        match self.conn.write_response_head(
            status,
            reason.as_slice(),
            req_is_head,
            blen,
            &mut headers,
        ) {
            Ok(()) => {},
            Err(e) => {
                self.close();
                return Err(e);
            },
        }
        if self.conn.can_write_body() {
            let wrote = self.conn.write_body(body.as_slice());
            let short = match self.conn.writing {
                Writing::Body(EncoderKind::SizedEncoder(rem)) => rem > 0,
                _ => false,
            };
            if short {
                // the body owes more bytes than the handler gave: close
                // rather than emit a truncated sized body
                self.close();
                return Err(HttpError::HttpIoError(IoErrorKind::InvalidInput));
            }
            if self.conn.can_write_body() {
                let ghost pre = self.conn.output_view();
                self.conn.end_body();
            }
        }
        proof {
            assert(final(self).conn.output_view() =~= old(self).conn.output_view()
                + (final(self).conn.output_view().skip(old(self).conn.output_view().len() as int)));
        }
        Ok(())
    }

    /// Flushes: hands the pending output bytes to the caller for the
    /// transport.
    pub fn poll_flush(&mut self) -> (r: Vec<u8>)
        ensures
            r@ == old(self).conn.output_view(),
            final(self).conn.output_view() =~= Seq::<u8>::empty(),
            *final(self) == (Dispatcher {
                conn: (Conn { output: final(self).conn.output, ..old(self).conn }),
                ..*old(self)
            }),
    {
        self.conn.take_output()
    }

    /// One full step: one read step, then the keep-alive transition when
    /// both halves finished their exchange. Counts one step. Any error
    /// leaves the connection closed.
    pub fn poll_inner(&mut self) -> (r: Result<ServerEvent, HttpError>)
        requires
            old(self).wf(),
        ensures
            final(self).wf(),
            final(self).steps >= old(self).steps,
            old(self).steps < u64::MAX ==> final(self).steps == old(self).steps + 1,
            r is Err ==> final(self).conn.reading == Reading::Closed && final(self).conn.writing
                == Writing::Closed && final(self).is_closing,
            old(self).is_closing ==> (r matches Ok(ev) && ev is Done),
            !old(self).is_closing && old(self).conn.reading is Init && spec_head_ready(
                old(self).conn,
            ) ==> (r matches Ok(ev) && ev matches ServerEvent::Request(inc, len, up)
                && spec_request_event_correct(old(self).conn, inc, len, up)),
    {
        let ev = match self.poll_read() {
            Ok(ev) => ev,
            Err(e) => {
                if self.steps < u64::MAX {
                    self.steps = self.steps + 1;
                }
                return Err(e);
            },
        };
        self.conn.try_keep_alive();
        if self.steps < u64::MAX {
            self.steps = self.steps + 1;
        }
        Ok(ev)
    }

    /// Runs read steps until the connection pends or finishes, at most
    /// sixteen per call before yielding, so one busy connection cannot
    /// starve its peers: the step count grows by at least one and at most
    /// sixteen. Returns the first event that needs the handler.
    pub fn poll_loop(&mut self) -> (r: Result<ServerEvent, HttpError>)
        requires
            old(self).wf(),
        ensures
            final(self).wf(),
            final(self).steps <= old(self).steps + 16,
            old(self).steps < u64::MAX ==> final(self).steps > old(self).steps,
            r is Err ==> final(self).conn.reading == Reading::Closed && final(self).conn.writing
                == Writing::Closed && final(self).is_closing,
            old(self).is_closing ==> (r matches Ok(ev) && ev is Done),
            !old(self).is_closing && old(self).conn.reading is Init && spec_head_ready(
                old(self).conn,
            ) ==> (r matches Ok(ev) && ev matches ServerEvent::Request(inc, len, up)
                && spec_request_event_correct(old(self).conn, inc, len, up)),
    {
        let mut i: usize = 0;
        loop
            invariant
                self.wf(),
                0 <= i <= 16,
                self.steps >= old(self).steps,
                self.steps <= old(self).steps + i,
                i == 0 ==> *self == *old(self),
                i > 0 && old(self).steps < u64::MAX ==> self.steps > old(self).steps,
                i > 0 ==> !(old(self).is_closing),
                i > 0 && old(self).conn.reading is Init && spec_head_ready(old(self).conn)
                    ==> false,
            decreases 16 - i,
        {
            if i >= 16 {
                return Ok(ServerEvent::Pending);
            }
            let ghost pre = *self;
            let ev = match self.poll_inner() {
                Ok(ev) => ev,
                Err(e) => {
                    return Err(e);
                },
            };
            proof {
                if i == 0 {
                    assert(pre == *old(self));
                }
            }
            i = i + 1;
            match ev {
                ServerEvent::Pending => {
                },
                other => {
                    return Ok(other);
                },
            }
        }
    }

    /// Runs the loop, turning any error into a closed connection that still
    /// reports the error once: after a failure both halves are `Closed`.
    pub fn poll_catch(&mut self) -> (r: Result<ServerEvent, HttpError>)
        requires
            old(self).wf(),
        ensures
            final(self).wf(),
            final(self).steps <= old(self).steps + 16,
            r is Err ==> final(self).conn.reading == Reading::Closed && final(self).conn.writing
                == Writing::Closed && final(self).is_closing,
            old(self).is_closing ==> (r matches Ok(ev) && ev is Done),
            !old(self).is_closing && old(self).conn.reading is Init && spec_head_ready(
                old(self).conn,
            ) ==> (r matches Ok(ev) && ev matches ServerEvent::Request(inc, len, up)
                && spec_request_event_correct(old(self).conn, inc, len, up)),
    {
        self.poll_loop()
    }

    /// Like [`Self::poll_catch`], for callers that will reuse the transport
    /// after an upgrade and must not see it shut down.
    pub fn poll_without_shutdown(&mut self) -> (r: Result<ServerEvent, HttpError>)
        requires
            old(self).wf(),
        ensures
            final(self).wf(),
            final(self).steps <= old(self).steps + 16,
            r is Err ==> final(self).conn.reading == Reading::Closed && final(self).conn.writing
                == Writing::Closed && final(self).is_closing,
            old(self).is_closing ==> (r matches Ok(ev) && ev is Done),
            !old(self).is_closing && old(self).conn.reading is Init && spec_head_ready(
                old(self).conn,
            ) ==> (r matches Ok(ev) && ev matches ServerEvent::Request(inc, len, up)
                && spec_request_event_correct(old(self).conn, inc, len, up)),
    {
        self.poll_catch()
    }
}

/// The body bytes one whole response puts on the wire, given the decided
/// encoder: nothing for a `HEAD` response or an empty framing; the chunked
/// framing wraps a non-empty body as one chunk and always ends with its
/// terminator; a sized framing carries exactly the announced count; a
/// close-delimited framing carries the body as is.
pub open spec fn spec_written_body(enc: EncoderKind, req_is_head: bool, body: Seq<u8>) -> Seq<u8> {
    if req_is_head {
        Seq::empty()
    } else {
        match enc {
            EncoderKind::EmptyEncoder => Seq::empty(),
            EncoderKind::SizedEncoder(n) => body.take(vstd::math::min(n as int, body.len() as int)),
            EncoderKind::ChunkedEncoder => (if body.len() > 0 {
                crate::http::spec_encode_chunk(body)
            } else {
                Seq::empty()
            }) + seq![48u8, 13u8, 10u8, 13u8, 10u8],
            EncoderKind::CloseDelimitedEncoder => body,
        }
    }
}

/// Where the write half rests after one whole response: closed for a
/// close-delimited body, between exchanges otherwise.
pub open spec fn spec_writing_after_response(enc: EncoderKind, req_is_head: bool) -> Writing {
    if req_is_head {
        Writing::KeepAlive
    } else {
        match enc {
            EncoderKind::CloseDelimitedEncoder => Writing::Closed,
            _ => Writing::KeepAlive,
        }
    }
}

} // verus!
