//! The per-connection protocol layer: message heads as values, the framing
//! rules for incoming and outgoing bodies, and the connection state
//! machine that strings one exchange after another over a byte stream.

pub mod conn;
pub mod h2;
pub mod dispatch;

use vstd::prelude::*;
use crate::ascii::{spec_lower, lower_bytes};
use crate::error::HttpError;
use crate::header::{Headers, spec_find_header};
use crate::header::parsing::{split_commas, spec_split_commas};
use crate::http::head::RawStatus;
use crate::method::{Method, bytes_eq};
use crate::numerals::{spec_is_dec_digit, spec_dec_value, parse_dec_u64};
use crate::uri::RequestUri;
use crate::version::HttpVersion;

verus! {

/// A request line: the method and the target.
pub struct RequestLine(pub Method, pub RequestUri);

/// A message head as a value: version, start-line subject, headers.
pub struct MessageHead<S> {
    /// HTTP version of the message.
    pub version: HttpVersion,
    /// Subject (request line or status) of the message.
    pub subject: S,
    /// Headers of the message.
    pub headers: Headers,
}

/// An incoming request head.
pub type RequestHead = MessageHead<RequestLine>;

/// An incoming response head.
pub type ResponseHead = MessageHead<RawStatus>;

/// The parser's decision on how an incoming body is delimited.
#[derive(Clone, Copy, Debug, PartialEq, Eq, Structural)]
pub enum DecodedLength {
    /// No body at all.
    Zero,
    /// The body runs to the end of the stream (responses only).
    CloseDelimited,
    /// The body uses the chunked framing.
    Chunked,
    /// The body is exactly this many bytes.
    Known(u64),
}

/// What the user says about an outgoing body's length.
#[derive(Clone, Copy, Debug, PartialEq, Eq, Structural)]
pub enum BodyLength {
    /// The body is exactly this many bytes.
    Known(u64),
    /// The length is not known up front.
    Unknown,
}

/// The wire name `transfer-encoding`.
pub open spec fn spec_te_name() -> Seq<u8> {
    seq![
        116u8, 114u8, 97u8, 110u8, 115u8, 102u8, 101u8, 114u8, 45u8, 101u8, 110u8, 99u8, 111u8,
        100u8, 105u8, 110u8, 103u8,
    ]
}

/// The wire name `content-length`.
pub open spec fn spec_cl_name() -> Seq<u8> {
    seq![99u8, 111u8, 110u8, 116u8, 101u8, 110u8, 116u8, 45u8, 108u8, 101u8, 110u8, 103u8, 116u8, 104u8]
}

/// The bytes `chunked`.
pub open spec fn spec_chunked_bytes() -> Seq<u8> {
    seq![99u8, 104u8, 117u8, 110u8, 107u8, 101u8, 100u8]
}

/// Whether the header map carries `Transfer-Encoding` whose final coding is
/// `chunked`: the last comma-separated piece of its last value line.
pub open spec fn spec_te_chunked(m: Seq<(Seq<u8>, Seq<Seq<u8>>)>) -> bool {
    match spec_find_header(m, spec_te_name()) {
        None => false,
        Some(i) => {
            let vals = m[i].1;
            vals.len() > 0 && {
                let pieces = spec_split_commas(vals.last());
                pieces.len() > 0 && spec_lower(pieces.last()) == spec_chunked_bytes()
            }
        },
    }
}

/// The `Content-Length` decision for a header map: `Ok(None)` when absent,
/// `Ok(Some(n))` when every value line is the same decimal `n`, and `Err`
/// when lines disagree or are not plain decimal numbers that fit.
pub open spec fn spec_content_length(m: Seq<(Seq<u8>, Seq<Seq<u8>>)>) -> Result<
    Option<u64>,
    HttpError,
> {
    match spec_find_header(m, spec_cl_name()) {
        None => Ok(None),
        Some(i) => {
            let vals = m[i].1;
            if vals.len() == 0 {
                Err(HttpError::HttpHeaderError)
            } else if forall|j: int|
                0 <= j < vals.len() ==> spec_cl_line_ok(#[trigger] vals[j]) && spec_dec_value(
                    vals[j],
                ) == spec_dec_value(vals[0]) {
                Ok(Some((spec_dec_value(vals[0]) as u64)))
            } else {
                Err(HttpError::HttpHeaderError)
            }
        },
    }
}

/// One `Content-Length` value line: non-empty, all decimal digits, value in
/// range.
pub open spec fn spec_cl_line_ok(v: Seq<u8>) -> bool {
    v.len() >= 1 && (forall|i: int| 0 <= i < v.len() ==> spec_is_dec_digit(#[trigger] v[i]))
        && spec_dec_value(v) <= u64::MAX
}

/// The framing decision for an incoming request body: chunked when
/// `Transfer-Encoding` ends in `chunked`, else by `Content-Length`, else no
/// body. Disagreeing or malformed `Content-Length` lines are rejected.
pub open spec fn spec_request_framing(m: Seq<(Seq<u8>, Seq<Seq<u8>>)>) -> Result<
    DecodedLength,
    HttpError,
> {
    if spec_te_chunked(m) {
        Ok(DecodedLength::Chunked)
    } else {
        match spec_content_length(m) {
            Err(e) => Err(e),
            Ok(Some(n)) => Ok(DecodedLength::Known(n)),
            Ok(None) => Ok(DecodedLength::Zero),
        }
    }
}

/// The framing decision for an incoming response body, given the request
/// method and the status: `HEAD`, 1xx, 204 and 304 have no body; otherwise
/// the transfer headers decide, and without any the body runs to the end of
/// the stream.
pub open spec fn spec_response_framing(
    req_method: Method,
    status: u16,
    m: Seq<(Seq<u8>, Seq<Seq<u8>>)>,
) -> Result<DecodedLength, HttpError> {
    if req_method is Head || (100 <= status <= 199) || status == 204 || status == 304 {
        Ok(DecodedLength::Zero)
    } else if req_method is Connect && 200 <= status <= 299 {
        Ok(DecodedLength::Zero)
    } else if spec_te_chunked(m) {
        Ok(DecodedLength::Chunked)
    } else {
        match spec_content_length(m) {
            Err(e) => Err(e),
            Ok(Some(n)) => Ok(DecodedLength::Known(n)),
            Ok(None) => Ok(DecodedLength::CloseDelimited),
        }
    }
}

/// Whether the final transfer coding of this message is `chunked`.
pub fn te_is_chunked(headers: &Headers) -> (r: bool)
    ensures
        r == spec_te_chunked(headers@),
{
    let te: [u8; 17] = [
        116, 114, 97, 110, 115, 102, 101, 114, 45, 101, 110, 99, 111, 100, 105, 110, 103,
    ];
    proof {
        assert(te@ =~= spec_te_name());
    }
    let vals = match headers.get_raw(te.as_slice()) {
        Some(v) => v,
        None => {
            return false;
        },
    };
    if vals.len() == 0 {
        return false;
    }
    let last = &vals[vals.len() - 1];
    proof {
        assert(last@ == headers@[spec_find_header(headers@, spec_te_name()).unwrap()].1.last());
    }
    let pieces = split_commas(last.as_slice());
    if pieces.len() == 0 {
        return false;
    }
    let lastp = lower_bytes(pieces[pieces.len() - 1].as_slice());
    proof {
        assert(pieces.deep_view().last() == pieces@[pieces@.len() - 1]@);
    }
    let chunked: [u8; 7] = [99, 104, 117, 110, 107, 101, 100];
    proof {
        assert(chunked@ =~= spec_chunked_bytes());
    }
    bytes_eq(lastp.as_slice(), chunked.as_slice())
}

/// Reads the `Content-Length` decision of this message.
pub fn content_length(headers: &Headers) -> (r: Result<Option<u64>, HttpError>)
    ensures
        r == spec_content_length(headers@),
{
    let cl: [u8; 14] = [99, 111, 110, 116, 101, 110, 116, 45, 108, 101, 110, 103, 116, 104];
    proof {
        assert(cl@ =~= spec_cl_name());
    }
    let vals = match headers.get_raw(cl.as_slice()) {
        Some(v) => v,
        None => {
            return Ok(None);
        },
    };
    let ghost vals_spec = headers@[spec_find_header(headers@, spec_cl_name()).unwrap()].1;
    if vals.len() == 0 {
        return Err(HttpError::HttpHeaderError);
    }
    proof {
        assert(vals.deep_view()[0] == vals@[0].deep_view());
        assert(vals@[0].deep_view() =~= vals@[0]@);
    }
    let first = match parse_dec_u64(vals[0].as_slice()) {
        Some(n) => n,
        None => {
            proof {
                assert(!(spec_cl_line_ok(vals_spec[0]) && spec_dec_value(vals_spec[0])
                    == spec_dec_value(vals_spec[0])));
            }
            return Err(HttpError::HttpHeaderError);
        },
    };
    let mut j: usize = 1;
    while j < vals.len()
        invariant
            spec_find_header(headers@, spec_cl_name()) is Some,
            vals_spec == headers@[spec_find_header(headers@, spec_cl_name()).unwrap()].1,
            vals.deep_view() == vals_spec,
            vals_spec.len() >= 1,
            1 <= j <= vals_spec.len(),
            first as nat == spec_dec_value(vals_spec[0]),
            spec_cl_line_ok(vals_spec[0]),
            forall|t: int|
                0 <= t < j ==> spec_cl_line_ok(#[trigger] vals_spec[t]) && spec_dec_value(
                    vals_spec[t],
                ) == spec_dec_value(vals_spec[0]),
        decreases vals_spec.len() - j,
    {
        proof {
            assert(vals.deep_view()[j as int] == vals@[j as int].deep_view());
            assert(vals@[j as int].deep_view() =~= vals@[j as int]@);
        }
        match parse_dec_u64(vals[j].as_slice()) {
            Some(n) => {
                if n != first {
                    proof {
                        assert(!(spec_cl_line_ok(vals_spec[j as int]) && spec_dec_value(
                            vals_spec[j as int],
                        ) == spec_dec_value(vals_spec[0])));
                    }
                    return Err(HttpError::HttpHeaderError);
                }
            },
            None => {
                proof {
                    assert(!(spec_cl_line_ok(vals_spec[j as int]) && spec_dec_value(
                        vals_spec[j as int],
                    ) == spec_dec_value(vals_spec[0])));
                }
                return Err(HttpError::HttpHeaderError);
            },
        }
        j = j + 1;
    }
    Ok(Some(first))
}

/// The framing decision for an incoming request body.
pub fn decide_request_framing(headers: &Headers) -> (r: Result<DecodedLength, HttpError>)
    ensures
        r == spec_request_framing(headers@),
{
    if te_is_chunked(headers) {
        return Ok(DecodedLength::Chunked);
    }
    match content_length(headers) {
        Err(e) => Err(e),
        Ok(Some(n)) => Ok(DecodedLength::Known(n)),
        Ok(None) => Ok(DecodedLength::Zero),
    }
}

/// The framing decision for an incoming response body.
pub fn decide_response_framing(req_method: &Method, status: u16, headers: &Headers) -> (r: Result<
    DecodedLength,
    HttpError,
>)
    ensures
        r == spec_response_framing(*req_method, status, headers@),
{
    let head = req_method.is_head();
    let connect = req_method.is_connect();
    if head || (100 <= status && status <= 199) || status == 204 || status == 304 {
        return Ok(DecodedLength::Zero);
    }
    if connect && 200 <= status && status <= 299 {
        return Ok(DecodedLength::Zero);
    }
    if te_is_chunked(headers) {
        return Ok(DecodedLength::Chunked);
    }
    match content_length(headers) {
        Err(e) => Err(e),
        Ok(Some(n)) => Ok(DecodedLength::Known(n)),
        Ok(None) => Ok(DecodedLength::CloseDelimited),
    }
}

/// How an outgoing body will be framed, per the server encoding matrix: an
/// explicit `Transfer-Encoding: chunked` wins; then a matching
/// `Content-Length`; then a known length (which inserts `Content-Length`);
/// then chunked on HTTP/1.1 (inserting its header) or close-delimited on
/// HTTP/1.0.
#[derive(Clone, Copy, Debug, PartialEq, Eq, Structural)]
pub enum EncoderKind {
    /// No body bytes may follow.
    EmptyEncoder,
    /// Exactly this many bytes follow.
    SizedEncoder(u64),
    /// The chunked framing.
    ChunkedEncoder,
    /// Bytes follow until the connection closes.
    CloseDelimitedEncoder,
}

/// What the head encoder decides, given the circumstances of the exchange:
/// which body encoder to use, whether a `Content-Length: n` header must be
/// inserted, whether `Transfer-Encoding: chunked` must be inserted, whether
/// the connection must close after the response, and whether an existing
/// `Content-Length` must be removed (an explicit chunked framing wins over
/// it).
pub open spec fn spec_encoder_decision(
    version: HttpVersion,
    body_allowed: bool,
    te_chunked: bool,
    cl: Option<u64>,
    body: BodyLength,
) -> (EncoderKind, Option<u64>, bool, bool, bool) {
    if !body_allowed {
        (EncoderKind::EmptyEncoder, None, false, false, false)
    } else if te_chunked {
        (EncoderKind::ChunkedEncoder, None, false, false, cl is Some)
    } else if cl is Some {
        (EncoderKind::SizedEncoder(cl.unwrap()), None, false, false, false)
    } else {
        match body {
            BodyLength::Known(n) => (EncoderKind::SizedEncoder(n), Some(n), false, false, false),
            BodyLength::Unknown => {
                if version is Http11 {
                    (EncoderKind::ChunkedEncoder, None, true, false, false)
                } else {
                    (EncoderKind::CloseDelimitedEncoder, None, false, true, false)
                }
            },
        }
    }
}

/// Decides the outgoing framing. Returns the encoder, the `Content-Length`
/// to insert (if any), whether to insert `Transfer-Encoding: chunked`,
/// whether the connection must close afterwards, and whether an existing
/// `Content-Length` must be removed.
pub fn decide_encoder(
    version: &HttpVersion,
    body_allowed: bool,
    te_chunked: bool,
    cl: Option<u64>,
    body: BodyLength,
) -> (r: (EncoderKind, Option<u64>, bool, bool, bool))
    ensures
        r == spec_encoder_decision(*version, body_allowed, te_chunked, cl, body),
{
    if !body_allowed {
        (EncoderKind::EmptyEncoder, None, false, false, false)
    } else if te_chunked {
        let has_cl = match cl {
            Some(_) => true,
            None => false,
        };
        (EncoderKind::ChunkedEncoder, None, false, false, has_cl)
    } else {
        match cl {
            Some(n) => (EncoderKind::SizedEncoder(n), None, false, false, false),
            None => {
                match body {
                    BodyLength::Known(n) => (
                        EncoderKind::SizedEncoder(n),
                        Some(n),
                        false,
                        false,
                        false,
                    ),
                    BodyLength::Unknown => {
                        match version {
                            HttpVersion::Http11 => (
                                EncoderKind::ChunkedEncoder,
                                None,
                                true,
                                false,
                                false,
                            ),
                            HttpVersion::Http10 => (
                                EncoderKind::CloseDelimitedEncoder,
                                None,
                                false,
                                true,
                                false,
                            ),
                        }
                    },
                }
            },
        }
    }
}

/// A header map with the named field removed, as `Headers::remove_raw`
/// leaves it.
pub open spec fn spec_remove_header(
    m: Seq<(Seq<u8>, Seq<Seq<u8>>)>,
    name: Seq<u8>,
) -> Seq<(Seq<u8>, Seq<Seq<u8>>)> {
    match spec_find_header(m, name) {
        Some(i) => m.remove(i),
        None => m,
    }
}

/// A header map with the named field set to exactly `vals`, as
/// `Headers::set_raw` leaves it.
pub open spec fn spec_set_header(
    m: Seq<(Seq<u8>, Seq<Seq<u8>>)>,
    name: Seq<u8>,
    vals: Seq<Seq<u8>>,
) -> Seq<(Seq<u8>, Seq<Seq<u8>>)> {
    match spec_find_header(m, name) {
        Some(i) => m.update(i, (m[i].0, vals)),
        None => m.push((name, vals)),
    }
}

/// The wire name `connection`.
pub open spec fn spec_conn_name() -> Seq<u8> {
    seq![99u8, 111u8, 110u8, 110u8, 101u8, 99u8, 116u8, 105u8, 111u8, 110u8]
}

/// The wire name `upgrade`.
pub open spec fn spec_upgrade_name() -> Seq<u8> {
    seq![117u8, 112u8, 103u8, 114u8, 97u8, 100u8, 101u8]
}

/// Whether a `Connection` header lists the given option (case-insensitive).
pub open spec fn spec_connection_has(m: Seq<(Seq<u8>, Seq<Seq<u8>>)>, opt: Seq<u8>) -> bool {
    match spec_find_header(m, spec_conn_name()) {
        None => false,
        Some(i) => exists|j: int, p: int|
            {
                &&& 0 <= j < m[i].1.len()
                &&& 0 <= p < spec_split_commas(#[trigger] m[i].1[j]).len()
                &&& spec_lower(#[trigger] spec_split_commas(m[i].1[j])[p]) == opt
            },
    }
}

/// Scans the `Connection` header for an option such as `close`,
/// `keep-alive` or `upgrade`.
pub fn connection_has(headers: &Headers, opt: &[u8]) -> (r: bool)
    requires
        spec_lower(opt@) == opt@,
    ensures
        r == spec_connection_has(headers@, opt@),
{
    let name: [u8; 10] = [99, 111, 110, 110, 101, 99, 116, 105, 111, 110];
    proof {
        assert(name@ =~= spec_conn_name());
    }
    let vals = match headers.get_raw(name.as_slice()) {
        Some(v) => v,
        None => {
            return false;
        },
    };
    let ghost vs = headers@[spec_find_header(headers@, spec_conn_name()).unwrap()].1;
    let mut j: usize = 0;
    while j < vals.len()
        invariant
            spec_find_header(headers@, spec_conn_name()) is Some,
            vs == headers@[spec_find_header(headers@, spec_conn_name()).unwrap()].1,
            spec_lower(opt@) == opt@,
            vals.deep_view() == vs,
            0 <= j <= vs.len(),
            forall|a: int, p: int|
                0 <= a < j && 0 <= p < spec_split_commas(#[trigger] vs[a]).len() ==> spec_lower(
                    #[trigger] spec_split_commas(vs[a])[p],
                ) != opt@,
        decreases vs.len() - j,
    {
        proof {
            assert(vals.deep_view()[j as int] == vals@[j as int].deep_view());
            assert(vals@[j as int].deep_view() =~= vals@[j as int]@);
        }
        let pieces = split_commas(vals[j].as_slice());
        let mut p: usize = 0;
        while p < pieces.len()
            invariant
                spec_find_header(headers@, spec_conn_name()) is Some,
                vs == headers@[spec_find_header(headers@, spec_conn_name()).unwrap()].1,
                spec_lower(opt@) == opt@,
                vals.deep_view() == vs,
                0 <= j < vs.len(),
                pieces.deep_view() == spec_split_commas(vs[j as int]),
                0 <= p <= pieces@.len(),
                forall|q: int|
                    0 <= q < p ==> spec_lower(#[trigger] spec_split_commas(vs[j as int])[q])
                        != opt@,
            decreases pieces@.len() - p,
        {
            proof {
                assert(pieces.deep_view()[p as int] == pieces@[p as int].deep_view());
                assert(pieces@[p as int].deep_view() =~= pieces@[p as int]@);
            }
            let low = lower_bytes(pieces[p].as_slice());
            if bytes_eq(low.as_slice(), opt) {
                proof {
                    assert(spec_lower(spec_split_commas(vs[j as int])[p as int]) == opt@);
                }
                return true;
            }
            p = p + 1;
        }
        j = j + 1;
    }
    proof {
        if spec_connection_has(headers@, opt@) {
            let (a, p) = choose|a: int, p: int|
                {
                    &&& 0 <= a < vs.len()
                    &&& 0 <= p < spec_split_commas(#[trigger] vs[a]).len()
                    &&& spec_lower(#[trigger] spec_split_commas(vs[a])[p]) == opt@
                };
            assert(false);
        }
    }
    false
}

/// Whether this head asks to switch protocols: an `Upgrade` header combined
/// with `Connection: upgrade`.
pub fn wants_upgrade(headers: &Headers) -> (r: bool)
    ensures
        r == (spec_find_header(headers@, spec_upgrade_name()) is Some && spec_connection_has(
            headers@,
            spec_upgrade_name(),
        )),
{
    let up: [u8; 7] = [117, 112, 103, 114, 97, 100, 101];
    proof {
        assert(up@ =~= spec_upgrade_name());
        assert(spec_lower(up@) =~= up@);
    }
    if !headers.has_name(up.as_slice()) {
        return false;
    }
    connection_has(headers, up.as_slice())
}


/// After a set, the name is found, bearing exactly the new values; nothing
/// else moved: entries other than the one set keep their positions.
pub proof fn lemma_set_header_found(
    m: Seq<(Seq<u8>, Seq<Seq<u8>>)>,
    name: Seq<u8>,
    vals: Seq<Seq<u8>>,
)
    ensures
        ({
            let m2 = spec_set_header(m, name, vals);
            &&& spec_find_header(m2, name) is Some
            &&& m2[spec_find_header(m2, name).unwrap()].1 == vals
        }),
    decreases m.len(),
{
    let m2 = spec_set_header(m, name, vals);
    match spec_find_header(m, name) {
        Some(i) => {
            crate::header::lemma_find_some_bounds(m, name);
            assert(m2[0].0 == m[0].0);
            if crate::ascii::spec_lower(m[0].0) == crate::ascii::spec_lower(name) {
            } else {
                assert(spec_find_header(m.drop_first(), name) == Some(i - 1));
                crate::header::lemma_find_some_bounds(m.drop_first(), name);
                assert(m2.drop_first() =~= spec_set_header(m.drop_first(), name, vals));
                lemma_set_header_found(m.drop_first(), name, vals);
                crate::header::lemma_find_some_bounds(m2.drop_first(), name);
                let j = spec_find_header(m2.drop_first(), name).unwrap();
                assert(m2.drop_first()[j] == m2[j + 1]);
            }
        },
        None => {
            if m.len() == 0 {
                assert(m2[0].0 == name);
            } else {
                assert(m2[0] == m[0]);
                assert(m2.drop_first() =~= spec_set_header(m.drop_first(), name, vals));
                lemma_set_header_found(m.drop_first(), name, vals);
                crate::header::lemma_find_some_bounds(m2.drop_first(), name);
                let j = spec_find_header(m2.drop_first(), name).unwrap();
                assert(m2.drop_first()[j] == m2[j + 1]);
            }
        },
    }
}

/// Setting `Content-Length` to the decimal form of `n` makes the map's
/// `Content-Length` decision exactly `n`.
pub proof fn lemma_content_length_after_set(m: Seq<(Seq<u8>, Seq<Seq<u8>>)>, n: u64)
    ensures
        spec_content_length(
            spec_set_header(m, spec_cl_name(), seq![crate::numerals::spec_dec_digits(n as nat)]),
        ) == Ok::<Option<u64>, HttpError>(Some(n)),
{
    let digits = crate::numerals::spec_dec_digits(n as nat);
    let m2 = spec_set_header(m, spec_cl_name(), seq![digits]);
    lemma_set_header_found(m, spec_cl_name(), seq![digits]);
    let i = spec_find_header(m2, spec_cl_name()).unwrap();
    crate::numerals::lemma_dec_digits_are_digits(n as nat);
    crate::numerals::lemma_dec_round_trip(n as nat);
    assert(m2[i].1 == seq![digits]);
    assert(m2[i].1[0] == digits);
    assert(spec_cl_line_ok(digits));
    assert(forall|j: int|
        0 <= j < m2[i].1.len() ==> spec_cl_line_ok(#[trigger] m2[i].1[j]) && spec_dec_value(
            m2[i].1[j],
        ) == spec_dec_value(m2[i].1[0]));
}

/// The wire name `date`.
pub open spec fn spec_date_name() -> Seq<u8> {
    seq![100u8, 97u8, 116u8, 101u8]
}

/// Inserts a `Date` header with the given value when none is present, as a
/// server does before writing a response head; an existing one is kept. The
/// value itself — the formatted clock reading — comes from the caller, since
/// no clock lives in this crate.
pub fn insert_date_header(headers: &mut Headers, date: Vec<u8>)
    requires
        old(headers).wf(),
    ensures
        final(headers).wf(),
        final(headers)@ == (match spec_find_header(old(headers)@, spec_date_name()) {
            Some(_) => old(headers)@,
            None => old(headers)@.push((spec_date_name(), seq![date@])),
        }),
        spec_find_header(final(headers)@, spec_date_name()) is Some,
{
    let name: [u8; 4] = [100, 97, 116, 101];
    proof {
        assert(name@ =~= spec_date_name());
        assert(crate::ascii::spec_is_token(name@));
    }
    if headers.has_name(name.as_slice()) {
        proof {
            crate::header::lemma_find_some_bounds(headers@, spec_date_name());
        }
        return ;
    }
    let mut vals: Vec<Vec<u8>> = Vec::new();
    let ghost dv = date@;
    vals.push(date);
    let ghost oldm = headers@;
    proof {
        assert(vals.deep_view() =~~= seq![dv]);
    }
    headers.set_raw(vstd::slice::slice_to_vec(name.as_slice()), vals);
    proof {
        lemma_set_header_found(oldm, spec_date_name(), seq![dv]);
        assert(headers@ == oldm.push((spec_date_name(), seq![dv])));
    }
}
} // verus!
