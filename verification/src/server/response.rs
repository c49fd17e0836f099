//! The response writer handed to server handlers: set a status and headers
//! while fresh, then either send a complete body or start streaming one.

use vstd::prelude::*;
use crate::error::IoErrorKind;
use crate::header::Headers;
use crate::header::spec_find_header;
use crate::http::{HttpWriter, spec_encode_chunk};
use crate::http::head::{serialize_response, spec_serialize_response};
use crate::proto::{
    spec_te_chunked, spec_content_length, spec_remove_header, spec_set_header, spec_cl_name,
    spec_te_name, spec_chunked_bytes, te_is_chunked, content_length,
};
use crate::status::StatusCode;
use crate::version::HttpVersion;

verus! {

/// The `Content-Length` a fresh response will frame by: the map's coherent
/// value, or nothing when absent or malformed (a malformed value falls back
/// to the chunked framing rather than a lie on the wire).
pub open spec fn spec_framing_length(m: Seq<(Seq<u8>, Seq<Seq<u8>>)>) -> Option<u64> {
    match spec_content_length(m) {
        Ok(c) => c,
        Err(_) => None,
    }
}

/// The headers a fresh response writes, fixed up for its framing: an
/// explicit chunked coding wins and drops any `Content-Length`; otherwise a
/// coherent `Content-Length` picks the sized framing and the headers stay;
/// otherwise `chunked` joins the transfer codings (appended to the last
/// line, or as a new header).
pub open spec fn spec_start_header_fixup(
    m: Seq<(Seq<u8>, Seq<Seq<u8>>)>,
) -> Seq<(Seq<u8>, Seq<Seq<u8>>)> {
    if spec_te_chunked(m) {
        spec_remove_header(m, spec_cl_name())
    } else if spec_framing_length(m) is Some {
        m
    } else {
        spec_append_chunked(m)
    }
}

/// `chunked` joined to the transfer codings: appended after a comma to the
/// last existing value line, or set as the whole header when absent.
pub open spec fn spec_append_chunked(
    m: Seq<(Seq<u8>, Seq<Seq<u8>>)>,
) -> Seq<(Seq<u8>, Seq<Seq<u8>>)> {
    match spec_find_header(m, spec_te_name()) {
        None => spec_set_header(m, spec_te_name(), seq![spec_chunked_bytes()]),
        Some(i) => {
            let vals = m[i].1;
            spec_set_header(
                m,
                spec_te_name(),
                vals.update(
                    vals.len() - 1,
                    vals.last() + seq![44u8, 32u8] + spec_chunked_bytes(),
                ),
            )
        },
    }
}

/// Whether a fresh response with these headers will stream sized (else
/// chunked).
pub open spec fn spec_start_sized(m: Seq<(Seq<u8>, Seq<Seq<u8>>)>) -> Option<u64> {
    if spec_te_chunked(m) {
        None
    } else {
        spec_framing_length(m)
    }
}

/// A response being built: the status and headers while fresh, and the
/// framed body bytes once started.
pub struct Response {
    /// The HTTP version of this response.
    pub version: HttpVersion,
    body: HttpWriter,
    status: StatusCode,
    headers: Headers,
    started: bool,
}

impl Response {
    /// The headers are well-formed.
    pub closed spec fn wf(&self) -> bool {
        self.headers.wf()
    }

    /// Whether the head has been written.
    pub closed spec fn spec_started(&self) -> bool {
        self.started
    }

    /// The status to be written.
    pub closed spec fn spec_status(&self) -> StatusCode {
        self.status
    }

    /// The version to be written.
    pub closed spec fn spec_version(&self) -> HttpVersion {
        self.version
    }

    /// The headers, as a value.
    pub closed spec fn spec_headers(&self) -> Seq<(Seq<u8>, Seq<Seq<u8>>)> {
        self.headers@
    }

    /// Everything written so far: the head once started, then body framing.
    pub closed spec fn spec_wire(&self) -> Seq<u8> {
        self.body.buf_view()
    }

    /// The body writer, with its framing and remaining debt.
    pub closed spec fn spec_writer(&self) -> HttpWriter {
        self.body
    }

    /// A fresh `200 OK` response, HTTP/1.1, no headers, nothing written.
    pub fn new() -> (r: Response)
        ensures
            r.wf(),
            !r.spec_started(),
            r.spec_status().0 == 200,
            r.spec_version() is Http11,
            r.spec_headers() =~= Seq::<(Seq<u8>, Seq<Seq<u8>>)>::empty(),
            r.spec_wire() =~= Seq::<u8>::empty(),
    {
        Response {
            version: HttpVersion::Http11,
            body: HttpWriter::ThroughWriter(Vec::new()),
            status: StatusCode(200),
            headers: Headers::new(),
            started: false,
        }
    }

    /// The status of this response.
    pub fn status(&self) -> (r: StatusCode)
        ensures
            r == self.spec_status(),
    {
        self.status
    }

    /// The headers of this response.
    pub fn headers(&self) -> (r: &Headers)
        ensures
            r@ == self.spec_headers(),
    {
        &self.headers
    }

    /// The status, mutably; meaningful only while fresh.
    pub fn status_mut(&mut self) -> (r: &mut StatusCode) {
        &mut self.status
    }

    /// The headers, mutably; meaningful only while fresh.
    pub fn headers_mut(&mut self) -> (r: &mut Headers) {
        &mut self.headers
    }

    /// Writes the head exactly once and switches to streaming. The framing:
    /// an explicit chunked coding wins (and removes any `Content-Length`);
    /// else a coherent `Content-Length: n` streams exactly `n` bytes; else
    /// `chunked` joins the transfer codings. The wire gains exactly the
    /// serialized head with the fixed-up headers and the status's canonical
    /// reason.
    #[verifier::rlimit(100)]
    pub fn start(&mut self)
        requires
            old(self).wf(),
            !old(self).spec_started(),
            100 <= old(self).spec_status().0 <= 599,
        ensures
            final(self).wf(),
            final(self).spec_started(),
            final(self).spec_version() == old(self).spec_version(),
            final(self).spec_status() == old(self).spec_status(),
            final(self).spec_headers() == spec_start_header_fixup(old(self).spec_headers()),
            final(self).spec_wire() == spec_serialize_response(
                old(self).spec_status().0,
                StatusCode::spec_canonical_reason_bytes(old(self).spec_status().0),
                old(self).spec_version(),
                spec_start_header_fixup(old(self).spec_headers()),
            ),
            match spec_start_sized(old(self).spec_headers()) {
                Some(n) => final(self).spec_writer() matches HttpWriter::SizedWriter(b, rem)
                    && rem == n,
                None => final(self).spec_writer() is ChunkedWriter,
            },
    {
        let te = te_is_chunked(&self.headers);
        let sized: Option<u64> = if te {
            None
        } else {
            match content_length(&self.headers) {
                Ok(c) => c,
                Err(_) => None,
            }
        };
        let cl_name: [u8; 14] = [99, 111, 110, 116, 101, 110, 116, 45, 108, 101, 110, 103, 116, 104];
        let te_name: [u8; 17] = [
            116, 114, 97, 110, 115, 102, 101, 114, 45, 101, 110, 99, 111, 100, 105, 110, 103,
        ];
        proof {
            assert(cl_name@ =~= spec_cl_name());
            assert(te_name@ =~= spec_te_name());
            assert(crate::ascii::spec_is_token(te_name@));
        }
        if te {
            headers_remove(&mut self.headers, cl_name.as_slice());
        } else {
            let needs_chunked = match sized {
                None => true,
                Some(_) => false,
            };
            if needs_chunked {
                let chunked: [u8; 7] = [99, 104, 117, 110, 107, 101, 100];
                proof {
                    assert(chunked@ =~= spec_chunked_bytes());
                }
                match self.headers.get_raw(te_name.as_slice()) {
                    None => {
                        let mut vals: Vec<Vec<u8>> = Vec::new();
                        vals.push(vstd::slice::slice_to_vec(chunked.as_slice()));
                        proof {
                            assert(vals.deep_view() =~~= seq![spec_chunked_bytes()]);
                        }
                        self.headers.set_raw(
                            vstd::slice::slice_to_vec(te_name.as_slice()),
                            vals,
                        );
                    },
                    Some(old_vals) => {
                        let ghost vspec = old(self).spec_headers()[spec_find_header(
                            old(self).spec_headers(),
                            spec_te_name(),
                        ).unwrap()].1;
                        let mut vals = old_vals;
                        proof {
                            crate::header::lemma_find_some_bounds(
                                old(self).spec_headers(),
                                spec_te_name(),
                            );
                            assert(vals.deep_view() == vspec);
                            assert(vspec.len() >= 1);
                        }
                        let last_at = vals.len() - 1;
                        let mut last = vstd::slice::slice_to_vec(vals[last_at].as_slice());
                        last.push(44);
                        last.push(32);
                        crate::header::parsing::extend_bytes(&mut last, chunked.as_slice());
                        vals.set(last_at, last);
                        proof {
                            assert(vals.deep_view() =~~= vspec.update(
                                vspec.len() - 1,
                                vspec.last() + seq![44u8, 32u8] + spec_chunked_bytes(),
                            ));
                        }
                        self.headers.set_raw(
                            vstd::slice::slice_to_vec(te_name.as_slice()),
                            vals,
                        );
                    },
                }
            }
        }
        let reason = self.status.canonical_reason_bytes();
        let head = serialize_response(
            self.status.to_u16(),
            reason.as_slice(),
            &self.version,
            &self.headers,
        );
        let writer = match sized {
            Some(n) => HttpWriter::SizedWriter(head, n),
            None => HttpWriter::ChunkedWriter(head),
        };
        self.body = writer;
        self.started = true;
    }

    /// Writes a complete response: sets `Content-Length` to the body's
    /// length, writes the head, then exactly the body bytes, and ends. The
    /// returned wire bytes are the serialized head followed by the body —
    /// nothing more (a handler that explicitly asked for the chunked framing
    /// gets its body framed as one chunk instead).
    #[verifier::rlimit(100)]
    pub fn send(self, body: &[u8]) -> (r: Result<Vec<u8>, IoErrorKind>)
        requires
            self.wf(),
            !self.spec_started(),
            100 <= self.spec_status().0 <= 599,
        ensures
            ({
                let m1 = spec_set_header(
                    self.spec_headers(),
                    spec_cl_name(),
                    seq![crate::numerals::spec_dec_digits(body@.len() as nat)],
                );
                let hm = spec_start_header_fixup(m1);
                let head = spec_serialize_response(
                    self.spec_status().0,
                    StatusCode::spec_canonical_reason_bytes(self.spec_status().0),
                    self.spec_version(),
                    hm,
                );
                r matches Ok(v) && v@ == head + (if spec_te_chunked(m1) {
                    (if body@.len() > 0 {
                        spec_encode_chunk(body@)
                    } else {
                        Seq::<u8>::empty()
                    }) + seq![48u8, 13u8, 10u8, 13u8, 10u8]
                } else {
                    body@
                })
            }),
    {
        let mut this = self;
        let cl_name: [u8; 14] = [99, 111, 110, 116, 101, 110, 116, 45, 108, 101, 110, 103, 116, 104];
        let digits = crate::numerals::format_dec_u64(body.len() as u64);
        let mut vals: Vec<Vec<u8>> = Vec::new();
        vals.push(digits);
        proof {
            assert(cl_name@ =~= spec_cl_name());
            assert(crate::ascii::spec_is_token(cl_name@));
            assert(vals.deep_view() =~~= seq![
                crate::numerals::spec_dec_digits(body@.len() as nat),
            ]);
        }
        this.headers.set_raw(vstd::slice::slice_to_vec(cl_name.as_slice()), vals);
        proof {
            crate::proto::lemma_content_length_after_set(
                self.spec_headers(),
                body@.len() as u64,
            );
        }
        this.start();
        if body.len() > 0 {
            let _wrote = this.body.write(body);
        }
        this.end()
    }

    /// Writes one piece of body data under the framing the start chose: the
    /// chunked framing frames the piece as one chunk; the sized framing
    /// accepts at most what it still owes.
    pub fn write(&mut self, data: &[u8]) -> (r: Result<usize, IoErrorKind>)
        requires
            old(self).wf(),
        ensures
            final(self).wf(),
            final(self).spec_started() == old(self).spec_started(),
            final(self).spec_headers() == old(self).spec_headers(),
            final(self).spec_status() == old(self).spec_status(),
            match old(self).spec_writer() {
                HttpWriter::ChunkedWriter(w) => r == Ok::<usize, IoErrorKind>(data@.len() as usize)
                    && final(self).spec_wire() == old(self).spec_wire() + spec_encode_chunk(
                    data@,
                ),
                HttpWriter::SizedWriter(w, rem) => {
                    let n = vstd::math::min(rem as int, data@.len() as int);
                    r == Ok::<usize, IoErrorKind>(n as usize) && final(self).spec_wire() == old(self).spec_wire() + data@.take(n) && (final(self).spec_writer()
                        matches HttpWriter::SizedWriter(w2, rem2) && rem2 as int == rem - n)
                },
                HttpWriter::ThroughWriter(w) => r == Ok::<usize, IoErrorKind>(
                    data@.len() as usize,
                ) && final(self).spec_wire() == old(self).spec_wire() + data@,
                HttpWriter::EmptyWriter(w) => r == Ok::<usize, IoErrorKind>(0usize) && final(self).spec_wire() == old(self).spec_wire(),
            },
    {
        self.body.write(data)
    }

    /// Ends the response and returns everything written: the head, the body
    /// bytes, and the chunked terminator when the body was chunked.
    pub fn end(self) -> (r: Result<Vec<u8>, IoErrorKind>)
        ensures
            match self.spec_writer() {
                HttpWriter::ChunkedWriter(w) => r matches Ok(v) && v@ == self.spec_wire() + seq![
                    48u8,
                    13u8,
                    10u8,
                    13u8,
                    10u8,
                ],
                _ => r matches Ok(v) && v@ == self.spec_wire(),
            },
    {
        self.body.end()
    }
}

/// Removes a header by name; a helper so the fixup reads as its spec does.
fn headers_remove(headers: &mut Headers, name: &[u8])
    requires
        old(headers).wf(),
    ensures
        final(headers).wf(),
        final(headers)@ == spec_remove_header(old(headers)@, name@),
{
    let _removed = headers.remove_raw(name);
}

} // verus!
