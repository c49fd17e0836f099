//! Message heads on the wire: parsing a request or status line plus headers
//! out of a byte buffer, and writing a head back out. The parser makes a
//! single pass and never backtracks; a partial head asks for more bytes.

use vstd::prelude::*;
use crate::ascii::{
    CR, LF, SP, HTAB, spec_is_token, is_token, spec_trim_ows, trim_ows, spec_find_eol, find_eol,
    lemma_find_eol_at, spec_line_safe,
};
use crate::error::HttpError;
use crate::header::{Headers, spec_find_header, spec_headers_wf};
use crate::header::parsing::extend_bytes;
use crate::method::{Method, bytes_eq};
use crate::uri::RequestUri;
use crate::version::{HttpVersion, spec_version_bytes};

verus! {

/// The most header fields one head may carry.
pub const MAX_HEADERS: usize = 100;

/// The longest header field name accepted, in bytes.
pub const MAX_HEADER_NAME_LEN: usize = 1024;

/// An incoming message head: request or status line plus headers.
#[derive(Debug)]
pub struct Incoming<S> {
    /// HTTP version of the message.
    pub version: HttpVersion,
    /// Subject (request line or status line) of the message.
    pub subject: S,
    /// Headers of the message.
    pub headers: Headers,
}

/// The raw status code and reason phrase of a response.
#[derive(Clone, Debug)]
pub struct RawStatus(pub u16, pub Vec<u8>);

/// What one attempt at a line yields: a full line (its bytes, and the offset
/// after its CRLF), a need for more input, or a malformed line ending.
pub enum LineStep {
    /// A full line and the offset just past its CRLF.
    Line(Seq<u8>, int),
    /// No full line yet.
    Partial,
    /// A CR without LF, or a bare LF.
    Bad,
}

/// Takes one CRLF-terminated line from the front of `s`.
pub open spec fn spec_take_line(s: Seq<u8>) -> LineStep {
    match spec_find_eol(s, 0) {
        None => LineStep::Partial,
        Some(i) => {
            if s[i] == LF {
                LineStep::Bad
            } else if i + 1 >= s.len() {
                LineStep::Partial
            } else if s[i + 1] == LF {
                LineStep::Line(s.take(i), i + 2)
            } else {
                LineStep::Bad
            }
        },
    }
}

/// Finds one CRLF-terminated line at the front of the buffer: the offset of
/// its end and of the byte after the CRLF.
pub fn take_line(buf: &[u8]) -> (r: Result<Option<(usize, usize)>, HttpError>)
    ensures
        match r {
            Ok(Some((end, next))) => spec_take_line(buf@) == LineStep::Line(
                buf@.take(end as int),
                next as int,
            ) && end + 2 == next && next <= buf@.len(),
            Ok(None) => spec_take_line(buf@) is Partial,
            Err(e) => spec_take_line(buf@) is Bad && e == HttpError::HttpHeaderError,
        },
{
    match find_eol(buf, 0) {
        None => Ok(None),
        Some(i) => {
            if buf[i] == LF {
                Err(HttpError::HttpHeaderError)
            } else if i + 1 >= buf.len() {
                Ok(None)
            } else if buf[i + 1] == LF {
                Ok(Some((i, i + 2)))
            } else {
                Err(HttpError::HttpHeaderError)
            }
        },
    }
}

/// One parsed header field line: its name and its value with surrounding
/// whitespace trimmed.
pub open spec fn spec_parse_field_line(line: Seq<u8>) -> Option<(Seq<u8>, Seq<u8>)> {
    match spec_find_colon(line, 0) {
        None => None,
        Some(c) => {
            let name = line.take(c);
            let value = spec_trim_ows(line.skip(c + 1));
            if spec_is_token(name) && name.len() <= MAX_HEADER_NAME_LEN {
                Some((name, value))
            } else {
                None
            }
        },
    }
}

/// The first colon of `s` at or after `from`, if any.
pub open spec fn spec_find_colon(s: Seq<u8>, from: int) -> Option<int>
    decreases s.len() - from,
{
    if from < 0 || from >= s.len() {
        None
    } else if s[from] == 58 {
        Some(from)
    } else {
        spec_find_colon(s, from + 1)
    }
}

/// Finds the first colon of `s`.
pub fn find_colon(s: &[u8]) -> (r: Option<usize>)
    ensures
        match r {
            Some(i) => i < s@.len() && spec_find_colon(s@, 0) == Some(i as int),
            None => spec_find_colon(s@, 0) is None,
        },
{
    let mut i: usize = 0;
    while i < s.len()
        invariant
            0 <= i <= s@.len(),
            spec_find_colon(s@, 0) == spec_find_colon(s@, i as int),
        decreases s@.len() - i,
    {
        if s[i] == 58 {
            return Some(i);
        }
        i = i + 1;
    }
    None
}

/// If `s` has no colon before index `at` and a colon at `at`, the search
/// finds exactly `at`.
pub proof fn lemma_find_colon_at(s: Seq<u8>, from: int, at: int)
    requires
        0 <= from <= at < s.len(),
        forall|i: int| from <= i < at ==> #[trigger] s[i] != 58,
        s[at] == 58,
    ensures
        spec_find_colon(s, from) == Some(at),
    decreases at - from,
{
    if from < at {
        lemma_find_colon_at(s, from + 1, at);
    }
}

/// What parsing the header block yields: the accumulated header list and the
/// bytes consumed, a need for more input, or an error.
pub enum HeadersParse {
    /// The whole block, through its empty line.
    Done(Seq<(Seq<u8>, Seq<Seq<u8>>)>, int),
    /// No full block yet.
    Partial,
    /// A malformed field line, or too many fields.
    Bad(HttpError),
}

/// How a parsed field is folded into the header list: appended to the entry
/// with the same name (case-insensitively), or pushed as a new entry.
pub open spec fn spec_add_field(
    m: Seq<(Seq<u8>, Seq<Seq<u8>>)>,
    name: Seq<u8>,
    value: Seq<u8>,
) -> Seq<(Seq<u8>, Seq<Seq<u8>>)> {
    match spec_find_header(m, name) {
        Some(i) => m.update(i, (m[i].0, m[i].1.push(value))),
        None => m.push((name, seq![value])),
    }
}

/// Parses header field lines from `s` until the empty line, folding each
/// into `acc`; `count` fields were seen already.
pub open spec fn spec_parse_headers(
    s: Seq<u8>,
    acc: Seq<(Seq<u8>, Seq<Seq<u8>>)>,
    count: int,
) -> HeadersParse
    decreases s.len(),
{
    match spec_take_line(s) {
        LineStep::Partial => HeadersParse::Partial,
        LineStep::Bad => HeadersParse::Bad(HttpError::HttpHeaderError),
        LineStep::Line(line, next) => {
            if line.len() == 0 {
                HeadersParse::Done(acc, next)
            } else if count >= MAX_HEADERS {
                HeadersParse::Bad(HttpError::HttpTooLargeError)
            } else {
                match spec_parse_field_line(line) {
                    None => HeadersParse::Bad(HttpError::HttpHeaderError),
                    Some((name, value)) => {
                        if next <= 0 || next > s.len() {
                            HeadersParse::Bad(HttpError::HttpHeaderError)
                        } else {
                            match spec_parse_headers(
                                s.skip(next),
                                spec_add_field(acc, name, value),
                                count + 1,
                            ) {
                                HeadersParse::Done(m, used) => HeadersParse::Done(m, next + used),
                                HeadersParse::Partial => HeadersParse::Partial,
                                HeadersParse::Bad(e) => HeadersParse::Bad(e),
                            }
                        }
                    },
                }
            }
        },
    }
}


/// A found line end lies within the buffer.
pub proof fn lemma_find_eol_bounds(s: Seq<u8>, from: int)
    requires
        0 <= from <= s.len(),
        spec_find_eol(s, from) is Some,
    ensures
        from <= spec_find_eol(s, from).unwrap() < s.len(),
    decreases s.len() - from,
{
    if from < s.len() && !(s[from] == CR || s[from] == LF) {
        lemma_find_eol_bounds(s, from + 1);
    }
}

/// A complete header block occupies between 2 bytes and the whole input.
pub proof fn lemma_parse_headers_used_bounds(
    s: Seq<u8>,
    acc: Seq<(Seq<u8>, Seq<Seq<u8>>)>,
    count: int,
)
    requires
        spec_parse_headers(s, acc, count) is Done,
    ensures
        ({
            let used = (match spec_parse_headers(s, acc, count) {
                HeadersParse::Done(m, used) => used,
                _ => 0,
            });
            2 <= used <= s.len()
        }),
    decreases s.len(),
{
    match spec_take_line(s) {
        LineStep::Line(line, next) => {
            lemma_find_eol_bounds(s, 0);
            if line.len() != 0 && count < MAX_HEADERS {
                match spec_parse_field_line(line) {
                    Some((name, value)) => {
                        if 0 < next <= s.len() {
                            lemma_parse_headers_used_bounds(
                                s.skip(next),
                                spec_add_field(acc, name, value),
                                count + 1,
                            );
                        }
                    },
                    None => {},
                }
            }
        },
        _ => {},
    }
}

/// A header-block outcome moved `off` bytes later in a larger buffer.
pub open spec fn spec_shift_headers(r: HeadersParse, off: int) -> HeadersParse {
    match r {
        HeadersParse::Done(m, used) => HeadersParse::Done(m, used + off),
        HeadersParse::Partial => HeadersParse::Partial,
        HeadersParse::Bad(e) => HeadersParse::Bad(e),
    }
}

/// Parses the header block of `buf` starting at `start`, folding fields into
/// `headers`. Returns the offset just past the block's empty line, `None`
/// when the block is not complete yet, or the error.
#[verifier::rlimit(100)]
pub fn parse_headers_into(buf: &[u8], start: usize, headers: &mut Headers) -> (r: Result<
    Option<usize>,
    HttpError,
>)
    requires
        old(headers).wf(),
        start <= buf@.len(),
    ensures
        final(headers).wf(),
        match spec_parse_headers(buf@.skip(start as int), old(headers)@, 0) {
            HeadersParse::Done(m, used) => r matches Ok(rr) && rr == Some((start + used) as usize)
                && final(headers)@ == m && start + used <= buf@.len(),
            HeadersParse::Partial => r == Ok::<Option<usize>, HttpError>(None),
            HeadersParse::Bad(e) => r == Err::<Option<usize>, HttpError>(e),
        },
{
    let ghost orig = buf@.skip(start as int);
    let mut pos: usize = start;
    let mut count: usize = 0;
    loop
        invariant
            headers.wf(),
            orig == buf@.skip(start as int),
            start <= pos <= buf@.len(),
            count <= MAX_HEADERS,
            spec_parse_headers(orig, old(headers)@, 0) == spec_shift_headers(
                spec_parse_headers(buf@.skip(pos as int), headers@, count as int),
                pos - start,
            ),
        decreases buf@.len() - pos,
    {
        let ghost rest = buf@.skip(pos as int);
        let sub = vstd::slice::slice_subrange(buf, pos, buf.len());
        let (end, next) = match take_line(sub) {
            Ok(Some(pair)) => pair,
            Ok(None) => {
                return Ok(None);
            },
            Err(e) => {
                return Err(e);
            },
        };
        let ghost line = rest.take(end as int);
        if end == 0 {
            proof {
                assert(line =~= Seq::<u8>::empty());
            }
            return Ok(Some(pos + next));
        }
        if count >= MAX_HEADERS {
            return Err(HttpError::HttpTooLargeError);
        }
        let line_slice = vstd::slice::slice_subrange(sub, 0, end);
        let c = match find_colon(line_slice) {
            Some(c) => c,
            None => {
                return Err(HttpError::HttpHeaderError);
            },
        };
        let name_slice = vstd::slice::slice_subrange(line_slice, 0, c);
        if !is_token(name_slice) || name_slice.len() > MAX_HEADER_NAME_LEN {
            proof {
                assert(line.take(c as int) == name_slice@);
            }
            return Err(HttpError::HttpHeaderError);
        }
        let value = trim_ows(vstd::slice::slice_subrange(line_slice, c + 1, end));
        let name = vstd::slice::slice_to_vec(name_slice);
        proof {
            assert(line.take(c as int) == name@);
            assert(line.skip(c as int + 1) == line_slice@.subrange(c as int + 1, end as int));
            assert(spec_parse_field_line(line) == Some((name@, value@)));
        }
        let ghost pre_map = headers@;
        headers.add_raw(name, value);
        proof {
            assert(headers@ == spec_add_field(pre_map, line.take(c as int), spec_trim_ows(
                line.skip(c as int + 1),
            ))) by {
                match spec_find_header(pre_map, line.take(c as int)) {
                    Some(i) => {},
                    None => {},
                }
            }
            assert(rest.skip(next as int) =~= buf@.skip(pos + next));
        }
        count = count + 1;
        pos = pos + next;
    }
}

/// What parsing a start line yields.
pub enum StartLineParse<S> {
    /// The parsed subject, with the version.
    Good(S, HttpVersion),
    /// The error the line produces.
    Bad(HttpError),
}

/// The first space of `s` at or after `from`, if any.
pub open spec fn spec_find_sp(s: Seq<u8>, from: int) -> Option<int>
    decreases s.len() - from,
{
    if from < 0 || from >= s.len() {
        None
    } else if s[from] == SP {
        Some(from)
    } else {
        spec_find_sp(s, from + 1)
    }
}

/// Finds the first space of `s` at or after `from`.
pub fn find_sp(s: &[u8], from: usize) -> (r: Option<usize>)
    requires
        from <= s@.len(),
    ensures
        match r {
            Some(i) => from <= i < s@.len() && spec_find_sp(s@, from as int) == Some(i as int),
            None => spec_find_sp(s@, from as int) is None,
        },
{
    let mut i: usize = from;
    while i < s.len()
        invariant
            from <= i <= s@.len(),
            spec_find_sp(s@, from as int) == spec_find_sp(s@, i as int),
        decreases s@.len() - i,
    {
        if s[i] == SP {
            return Some(i);
        }
        i = i + 1;
    }
    None
}

/// If `s` has no space in `[from, at)` and a space at `at`, the search finds
/// exactly `at`.
pub proof fn lemma_find_sp_at(s: Seq<u8>, from: int, at: int)
    requires
        0 <= from <= at < s.len(),
        forall|i: int| from <= i < at ==> #[trigger] s[i] != SP,
        s[at] == SP,
    ensures
        spec_find_sp(s, from) == Some(at),
    decreases at - from,
{
    if from < at {
        lemma_find_sp_at(s, from + 1, at);
    }
}

/// If `s` has no space at or after `from`, the search fails.
pub proof fn lemma_find_sp_none(s: Seq<u8>, from: int)
    requires
        0 <= from <= s.len(),
        forall|i: int| from <= i < s.len() ==> #[trigger] s[i] != SP,
    ensures
        spec_find_sp(s, from) is None,
    decreases s.len() - from,
{
    if from < s.len() {
        lemma_find_sp_none(s, from + 1);
    }
}

/// Parses a request line: a method token, the request target, and the
/// version, separated by single spaces.
pub open spec fn spec_parse_request_line(line: Seq<u8>) -> StartLineParse<(Seq<u8>, Seq<u8>)> {
    match spec_find_sp(line, 0) {
        None => StartLineParse::Bad(HttpError::HttpMethodError),
        Some(i) => {
            if !spec_is_token(line.take(i)) {
                StartLineParse::Bad(HttpError::HttpMethodError)
            } else {
                match spec_find_sp(line, i + 1) {
                    None => StartLineParse::Bad(HttpError::HttpVersionError),
                    Some(j) => {
                        let uri = line.subrange(i + 1, j);
                        let ver = line.skip(j + 1);
                        if !crate::uri::spec_is_uri(uri) {
                            StartLineParse::Bad(HttpError::HttpUriError)
                        } else if ver == spec_version_bytes(HttpVersion::Http11) {
                            StartLineParse::Good((line.take(i), uri), HttpVersion::Http11)
                        } else if ver == spec_version_bytes(HttpVersion::Http10) {
                            StartLineParse::Good((line.take(i), uri), HttpVersion::Http10)
                        } else {
                            StartLineParse::Bad(HttpError::HttpVersionError)
                        }
                    },
                }
            }
        },
    }
}

/// Parses a request line into its method, target, and version.
pub fn parse_request_line(line: &[u8]) -> (r: Result<(Method, RequestUri, HttpVersion), HttpError>)
    ensures
        match spec_parse_request_line(line@) {
            StartLineParse::Good((m, u), v) => r matches Ok((pm, pu, pv)) && pm@ == m && pu@ == u
                && pv == v && crate::method::spec_method_wf(pm) && crate::uri::spec_uri_wf(pu),
            StartLineParse::Bad(e) => r == Err::<(Method, RequestUri, HttpVersion), HttpError>(e),
        },
{
    let i = match find_sp(line, 0) {
        Some(i) => i,
        None => {
            return Err(HttpError::HttpMethodError);
        },
    };
    let method_slice = vstd::slice::slice_subrange(line, 0, i);
    proof {
        assert(method_slice@ == line@.take(i as int));
    }
    let method = match Method::from_bytes(method_slice) {
        Ok(m) => m,
        Err(e) => {
            return Err(e);
        },
    };
    let total = line.len();
    proof {
        assert(i < total);
    }
    let j = match find_sp(line, i + 1) {
        Some(j) => j,
        None => {
            return Err(HttpError::HttpVersionError);
        },
    };
    let uri_slice = vstd::slice::slice_subrange(line, i + 1, j);
    proof {
        assert(j < total);
    }
    let ver_slice = vstd::slice::slice_subrange(line, j + 1, line.len());
    proof {
        assert(uri_slice@ == line@.subrange(i as int + 1, j as int));
        assert(ver_slice@ == line@.skip(j as int + 1));
    }
    let version = if bytes_eq(ver_slice, &[72, 84, 84, 80, 47, 49, 46, 49]) {
        proof {
            assert(ver_slice@ =~= spec_version_bytes(HttpVersion::Http11));
        }
        HttpVersion::Http11
    } else if bytes_eq(ver_slice, &[72, 84, 84, 80, 47, 49, 46, 48]) {
        proof {
            assert(ver_slice@ =~= spec_version_bytes(HttpVersion::Http10));
            assert(ver_slice@ != spec_version_bytes(HttpVersion::Http11));
        }
        HttpVersion::Http10
    } else {
        proof {
            assert(seq![72u8, 84u8, 84u8, 80u8, 47u8, 49u8, 46u8, 49u8] =~= spec_version_bytes(
                HttpVersion::Http11,
            ));
            assert(seq![72u8, 84u8, 84u8, 80u8, 47u8, 49u8, 46u8, 48u8] =~= spec_version_bytes(
                HttpVersion::Http10,
            ));
        }
        let uri_check = RequestUri::from_bytes(uri_slice);
        return (match uri_check {
            Ok(_) => Err(HttpError::HttpVersionError),
            Err(e) => Err(e),
        });
    };
    let uri = match RequestUri::from_bytes(uri_slice) {
        Ok(u) => u,
        Err(e) => {
            return Err(e);
        },
    };
    Ok((method, uri, version))
}

/// Parses a status line: the version, a three-digit code 100 through 599,
/// and an optional reason phrase.
pub open spec fn spec_parse_status_line(line: Seq<u8>) -> StartLineParse<(u16, Seq<u8>)> {
    if line.len() < 12 {
        StartLineParse::Bad(HttpError::HttpStatusError)
    } else {
        let ver = line.take(8);
        if !(ver == spec_version_bytes(HttpVersion::Http11) || ver == spec_version_bytes(
            HttpVersion::Http10,
        )) {
            StartLineParse::Bad(HttpError::HttpVersionError)
        } else {
            let v = if ver == spec_version_bytes(HttpVersion::Http11) {
                HttpVersion::Http11
            } else {
                HttpVersion::Http10
            };
            if line[8] != SP {
                StartLineParse::Bad(HttpError::HttpStatusError)
            } else if !(crate::numerals::spec_is_dec_digit(line[9])
                && crate::numerals::spec_is_dec_digit(line[10]) && crate::numerals::spec_is_dec_digit(
                line[11],
            )) {
                StartLineParse::Bad(HttpError::HttpStatusError)
            } else {
                let code = crate::numerals::spec_dec_value(line.subrange(9, 12));
                if code < 100 || code > 599 {
                    StartLineParse::Bad(HttpError::HttpStatusError)
                } else if line.len() == 12 {
                    StartLineParse::Good(((code as u16), Seq::empty()), v)
                } else if line[12] == SP {
                    StartLineParse::Good(((code as u16), line.skip(13)), v)
                } else {
                    StartLineParse::Bad(HttpError::HttpStatusError)
                }
            }
        }
    }
}

/// Parses a status line into its code, reason bytes, and version.
pub fn parse_status_line(line: &[u8]) -> (r: Result<(u16, Vec<u8>, HttpVersion), HttpError>)
    ensures
        match spec_parse_status_line(line@) {
            StartLineParse::Good((code, reason), v) => r matches Ok((pc, pr, pv)) && pc == code
                && pr@ == reason && pv == v,
            StartLineParse::Bad(e) => r == Err::<(u16, Vec<u8>, HttpVersion), HttpError>(e),
        },
{
    if line.len() < 12 {
        return Err(HttpError::HttpStatusError);
    }
    let ver_slice = vstd::slice::slice_subrange(line, 0, 8);
    proof {
        assert(ver_slice@ == line@.take(8));
        assert(seq![72u8, 84u8, 84u8, 80u8, 47u8, 49u8, 46u8, 49u8] =~= spec_version_bytes(
            HttpVersion::Http11,
        ));
        assert(seq![72u8, 84u8, 84u8, 80u8, 47u8, 49u8, 46u8, 48u8] =~= spec_version_bytes(
            HttpVersion::Http10,
        ));
    }
    let v = if bytes_eq(ver_slice, &[72, 84, 84, 80, 47, 49, 46, 49]) {
        HttpVersion::Http11
    } else if bytes_eq(ver_slice, &[72, 84, 84, 80, 47, 49, 46, 48]) {
        HttpVersion::Http10
    } else {
        return Err(HttpError::HttpVersionError);
    };
    if line[8] != SP {
        return Err(HttpError::HttpStatusError);
    }
    let d0 = line[9];
    let d1 = line[10];
    let d2 = line[11];
    if !(48 <= d0 && d0 <= 57 && 48 <= d1 && d1 <= 57 && 48 <= d2 && d2 <= 57) {
        return Err(HttpError::HttpStatusError);
    }
    let code: u16 = (d0 - 48) as u16 * 100 + (d1 - 48) as u16 * 10 + (d2 - 48) as u16;
    proof {
        let ds = line@.subrange(9, 12);
        assert(ds.len() == 3);
        assert(ds.drop_last() =~= line@.subrange(9, 11));
        assert(ds.drop_last().drop_last() =~= line@.subrange(9, 10));
        assert(ds.drop_last().drop_last().drop_last() =~= Seq::<u8>::empty());
        assert(crate::numerals::spec_dec_value(Seq::<u8>::empty()) == 0);
        assert(crate::numerals::spec_dec_value(line@.subrange(9, 10)) == (d0 - 48));
        assert(crate::numerals::spec_dec_value(line@.subrange(9, 11)) == (d0 - 48) * 10 + (d1
            - 48));
        assert(crate::numerals::spec_dec_value(ds) == ((d0 - 48) * 10 + (d1 - 48)) * 10 + (d2
            - 48));
    }
    if code < 100 || code > 599 {
        return Err(HttpError::HttpStatusError);
    }
    if line.len() == 12 {
        let reason: Vec<u8> = Vec::new();
        proof {
            assert(reason@ =~= Seq::<u8>::empty());
        }
        return Ok((code, reason, v));
    }
    if line[12] != SP {
        return Err(HttpError::HttpStatusError);
    }
    let reason = vstd::slice::slice_to_vec(
        vstd::slice::slice_subrange(line, 13, line.len()),
    );
    proof {
        assert(reason@ == line@.skip(13));
    }
    Ok((code, reason, v))
}

/// How many leading CRLF bytes precede the request line; a client may send
/// them between keep-alive requests.
pub open spec fn spec_skip_crlf(s: Seq<u8>) -> int
    decreases s.len(),
{
    if s.len() >= 2 && s[0] == CR && s[1] == LF {
        2 + spec_skip_crlf(s.skip(2))
    } else {
        0
    }
}

/// The leading-CRLF count never passes the end.
pub proof fn lemma_skip_crlf_bounds(s: Seq<u8>)
    ensures
        0 <= spec_skip_crlf(s) <= s.len(),
    decreases s.len(),
{
    if s.len() >= 2 && s[0] == CR && s[1] == LF {
        lemma_skip_crlf_bounds(s.skip(2));
    }
}

/// What parsing a whole head yields: the version, the subject parts, the
/// header list, and the bytes consumed.
pub enum HeadParse<S> {
    /// A complete head and its length in bytes.
    Complete(HttpVersion, S, Seq<(Seq<u8>, Seq<Seq<u8>>)>, int),
    /// More bytes are needed.
    Partial,
    /// The head is malformed.
    Bad(HttpError),
}

/// Parses a whole request head from the front of `s`.
pub open spec fn spec_parse_request_head(s: Seq<u8>) -> HeadParse<(Seq<u8>, Seq<u8>)> {
    let lead = spec_skip_crlf(s);
    let s2 = s.skip(lead);
    match spec_take_line(s2) {
        LineStep::Partial => HeadParse::Partial,
        LineStep::Bad => HeadParse::Bad(HttpError::HttpHeaderError),
        LineStep::Line(line, next) => match spec_parse_request_line(line) {
            StartLineParse::Bad(e) => HeadParse::Bad(e),
            StartLineParse::Good((m, u), v) => match spec_parse_headers(
                s2.skip(next),
                Seq::empty(),
                0,
            ) {
                HeadersParse::Done(hm, used) => HeadParse::Complete(
                    v,
                    (m, u),
                    hm,
                    lead + next + used,
                ),
                HeadersParse::Partial => HeadParse::Partial,
                HeadersParse::Bad(e) => HeadParse::Bad(e),
            },
        },
    }
}

/// Parses a whole response head from the front of `s`.
pub open spec fn spec_parse_response_head(s: Seq<u8>) -> HeadParse<(u16, Seq<u8>)> {
    match spec_take_line(s) {
        LineStep::Partial => HeadParse::Partial,
        LineStep::Bad => HeadParse::Bad(HttpError::HttpHeaderError),
        LineStep::Line(line, next) => match spec_parse_status_line(line) {
            StartLineParse::Bad(e) => HeadParse::Bad(e),
            StartLineParse::Good((code, reason), v) => match spec_parse_headers(
                s.skip(next),
                Seq::empty(),
                0,
            ) {
                HeadersParse::Done(hm, used) => HeadParse::Complete(
                    v,
                    (code, reason),
                    hm,
                    next + used,
                ),
                HeadersParse::Partial => HeadParse::Partial,
                HeadersParse::Bad(e) => HeadParse::Bad(e),
            },
        },
    }
}

/// Parses a request head out of `buf`. `Ok(Some)` carries the head and how
/// many bytes it occupied; `Ok(None)` asks for more input.
pub fn parse_request(buf: &[u8]) -> (r: Result<
    Option<(Incoming<(Method, RequestUri)>, usize)>,
    HttpError,
>)
    ensures
        match spec_parse_request_head(buf@) {
            HeadParse::Complete(v, mu, hm, used) => r matches Ok(rr) && rr matches Some(
                (inc, len),
            ) && inc.version == v && inc.subject.0@ == mu.0 && inc.subject.1@ == mu.1
                && inc.headers@ == hm && inc.headers.wf() && len == used && used <= buf@.len()
                && crate::method::spec_method_wf(inc.subject.0) && crate::uri::spec_uri_wf(
                inc.subject.1,
            ),
            HeadParse::Partial => r == Ok::<Option<(Incoming<(Method, RequestUri)>, usize)>, HttpError>(None),
            HeadParse::Bad(e) => r == Err::<Option<(Incoming<(Method, RequestUri)>, usize)>, HttpError>(e),
        },
{
    let total = buf.len();
    let mut lead: usize = 0;
    proof {
        lemma_skip_crlf_bounds(buf@);
        assert(buf@.skip(0) =~= buf@);
    }
    while total - lead >= 2 && buf[lead] == CR && buf[lead + 1] == LF
        invariant
            total == buf@.len(),
            0 <= lead <= buf@.len(),
            spec_skip_crlf(buf@) == lead + spec_skip_crlf(buf@.skip(lead as int)),
            0 <= spec_skip_crlf(buf@.skip(lead as int)) <= buf@.len() - lead,
        decreases buf@.len() - lead,
    {
        proof {
            let cur = buf@.skip(lead as int);
            assert(cur[0] == CR && cur[1] == LF);
            assert(cur.skip(2) =~= buf@.skip(lead as int + 2));
            lemma_skip_crlf_bounds(buf@.skip(lead as int + 2));
        }
        lead = lead + 2;
    }
    proof {
        let cur = buf@.skip(lead as int);
        assert(spec_skip_crlf(cur) == 0) by {
            if cur.len() >= 2 && cur[0] == CR && cur[1] == LF {
                assert(buf@[lead as int] == CR && buf@[lead as int + 1] == LF);
                assert(false);
            }
        }
        assert(spec_skip_crlf(buf@) == lead);
    }
    let s2 = vstd::slice::slice_subrange(buf, lead, buf.len());
    let (end, next) = match take_line(s2) {
        Ok(Some(pair)) => pair,
        Ok(None) => {
            return Ok(None);
        },
        Err(e) => {
            return Err(e);
        },
    };
    let line = vstd::slice::slice_subrange(s2, 0, end);
    proof {
        assert(line@ == s2@.take(end as int));
    }
    let (method, uri, version) = match parse_request_line(line) {
        Ok(t) => t,
        Err(e) => {
            return Err(e);
        },
    };
    let mut headers = Headers::new();
    proof {
        assert(headers@ =~= Seq::<(Seq<u8>, Seq<Seq<u8>>)>::empty());
        assert(s2@.skip(next as int) =~= buf@.skip(lead + next));
    }
    proof {
        if spec_parse_headers(buf@.skip(lead + next), Seq::empty(), 0) is Done {
            lemma_parse_headers_used_bounds(buf@.skip(lead + next), Seq::empty(), 0);
        }
    }
    let hdr_end = match parse_headers_into(buf, lead + next, &mut headers) {
        Ok(Some(e)) => e,
        Ok(None) => {
            return Ok(None);
        },
        Err(e) => {
            return Err(e);
        },
    };
    Ok(Some((Incoming { version, subject: (method, uri), headers }, hdr_end)))
}

/// Parses a response head out of `buf`. `Ok(Some)` carries the head and how
/// many bytes it occupied; `Ok(None)` asks for more input.
pub fn parse_response(buf: &[u8]) -> (r: Result<Option<(Incoming<RawStatus>, usize)>, HttpError>)
    ensures
        match spec_parse_response_head(buf@) {
            HeadParse::Complete(v, cr, hm, used) => r matches Ok(rr) && rr matches Some(
                (inc, len),
            ) && inc.version == v && inc.subject.0 == cr.0 && inc.subject.1@ == cr.1
                && inc.headers@ == hm && inc.headers.wf() && len == used && used <= buf@.len(),
            HeadParse::Partial => r == Ok::<Option<(Incoming<RawStatus>, usize)>, HttpError>(None),
            HeadParse::Bad(e) => r == Err::<Option<(Incoming<RawStatus>, usize)>, HttpError>(e),
        },
{
    let total = buf.len();
    let (end, next) = match take_line(buf) {
        Ok(Some(pair)) => pair,
        Ok(None) => {
            return Ok(None);
        },
        Err(e) => {
            return Err(e);
        },
    };
    let line = vstd::slice::slice_subrange(buf, 0, end);
    proof {
        assert(line@ == buf@.take(end as int));
        assert(buf@.len() == total);
    }
    let (code, reason, version) = match parse_status_line(line) {
        Ok(t) => t,
        Err(e) => {
            return Err(e);
        },
    };
    let mut headers = Headers::new();
    proof {
        assert(headers@ =~= Seq::<(Seq<u8>, Seq<Seq<u8>>)>::empty());
    }
    proof {
        if spec_parse_headers(buf@.skip(next as int), Seq::empty(), 0) is Done {
            lemma_parse_headers_used_bounds(buf@.skip(next as int), Seq::empty(), 0);
        }
    }
    let hdr_end = match parse_headers_into(buf, next, &mut headers) {
        Ok(Some(e)) => e,
        Ok(None) => {
            return Ok(None);
        },
        Err(e) => {
            return Err(e);
        },
    };
    Ok(Some((Incoming { version, subject: RawStatus(code, reason), headers }, hdr_end)))
}

/// The wire form of one header entry: one field line per raw value.
pub open spec fn spec_serialize_entry(name: Seq<u8>, pieces: Seq<Seq<u8>>) -> Seq<u8>
    decreases pieces.len(),
{
    if pieces.len() == 0 {
        Seq::empty()
    } else {
        name + seq![58u8, SP] + pieces[0] + seq![CR, LF] + spec_serialize_entry(
            name,
            pieces.drop_first(),
        )
    }
}

/// The wire form of a header block (without its closing empty line).
pub open spec fn spec_serialize_headers(m: Seq<(Seq<u8>, Seq<Seq<u8>>)>) -> Seq<u8>
    decreases m.len(),
{
    if m.len() == 0 {
        Seq::empty()
    } else {
        spec_serialize_entry(m[0].0, m[0].1) + spec_serialize_headers(m.drop_first())
    }
}

/// The wire form of a whole request head.
pub open spec fn spec_serialize_request(
    method: Seq<u8>,
    uri: Seq<u8>,
    version: HttpVersion,
    m: Seq<(Seq<u8>, Seq<Seq<u8>>)>,
) -> Seq<u8> {
    method + seq![SP] + uri + seq![SP] + spec_version_bytes(version) + seq![CR, LF]
        + spec_serialize_headers(m) + seq![CR, LF]
}

/// Writes the header block (each field line, then nothing more) into `out`.
pub fn write_headers(out: &mut Vec<u8>, headers: &Headers)
    requires
        headers.wf(),
    ensures
        final(out)@ == old(out)@ + spec_serialize_headers(headers@),
{
    let ghost m = headers@;
    let n = headers.len();
    let mut i: usize = 0;
    while i < n
        invariant
            m == headers@,
            headers.wf(),
            n == m.len(),
            0 <= i <= n,
            out@ == old(out)@ + spec_serialize_headers(m.take(i as int)),
        decreases n - i,
    {
        let name = headers.name_at(i);
        let pieces = headers.raw_at(i);
        let mut j: usize = 0;
        let pn = pieces.len();
        while j < pn
            invariant
                i < m.len() == n,
                m == headers@,
                headers.wf(),
                name@ == m[i as int].0,
                pieces.deep_view() == m[i as int].1,
                pn == pieces@.len(),
                0 <= j <= pn,
                out@ == old(out)@ + spec_serialize_headers(m.take(i as int))
                    + spec_serialize_entry(m[i as int].0, m[i as int].1.take(j as int)),
            decreases pn - j,
        {
            let ghost pre = out@;
            extend_bytes(out, name.as_slice());
            out.push(58);
            out.push(SP);
            extend_bytes(out, pieces[j].as_slice());
            out.push(CR);
            out.push(LF);
            j = j + 1;
            proof {
                let pcs = m[i as int].1;
                lemma_serialize_entry_snoc(m[i as int].0, pcs.take(j as int));
                assert(pcs.take(j as int).drop_last() =~= pcs.take(j as int - 1));
                assert(pcs.take(j as int).last() == pieces.deep_view()[j - 1]);
                assert(out@ =~= old(out)@ + spec_serialize_headers(m.take(i as int))
                    + (spec_serialize_entry(m[i as int].0, pcs.take(j as int - 1)) + (m[i as int].0
                    + seq![58u8, SP] + pcs[j - 1] + seq![CR, LF])));
            }
        }
        i = i + 1;
        proof {
            let pcs = m[i as int - 1].1;
            assert(pcs.take(pcs.len() as int) =~= pcs);
            lemma_serialize_headers_snoc(m.take(i as int));
            assert(m.take(i as int).drop_last() =~= m.take(i as int - 1));
            assert(m.take(i as int).last() == m[i as int - 1]);
            assert(out@ =~= old(out)@ + spec_serialize_headers(m.take(i as int)));
        }
    }
    proof {
        assert(m.take(m.len() as int) =~= m);
    }
}

/// Serializing one more piece appends one more field line.
pub proof fn lemma_serialize_entry_snoc(name: Seq<u8>, pieces: Seq<Seq<u8>>)
    requires
        pieces.len() >= 1,
    ensures
        spec_serialize_entry(name, pieces) == spec_serialize_entry(name, pieces.drop_last()) + (
        name + seq![58u8, SP] + pieces.last() + seq![CR, LF]),
    decreases pieces.len(),
{
    if pieces.len() == 1 {
        assert(pieces.drop_last() =~= Seq::<Seq<u8>>::empty());
        assert(pieces[0] == pieces.last());
        assert(spec_serialize_entry(name, pieces.drop_first()) =~= Seq::<u8>::empty());
        assert(spec_serialize_entry(name, pieces) =~= Seq::<u8>::empty() + (name + seq![58u8, SP]
            + pieces.last() + seq![CR, LF]));
        assert(spec_serialize_entry(name, pieces.drop_last()) =~= Seq::<u8>::empty());
    } else {
        lemma_serialize_entry_snoc(name, pieces.drop_first());
        assert(pieces.drop_first().drop_last() =~= pieces.drop_last().drop_first());
        assert(pieces.drop_first().last() == pieces.last());
        assert(pieces.drop_last()[0] == pieces[0]);
        assert(spec_serialize_entry(name, pieces) =~= spec_serialize_entry(
            name,
            pieces.drop_last(),
        ) + (name + seq![58u8, SP] + pieces.last() + seq![CR, LF]));
    }
}

/// Serializing one more entry appends that entry's lines.
pub proof fn lemma_serialize_headers_snoc(m: Seq<(Seq<u8>, Seq<Seq<u8>>)>)
    requires
        m.len() >= 1,
    ensures
        spec_serialize_headers(m) == spec_serialize_headers(m.drop_last()) + spec_serialize_entry(
            m.last().0,
            m.last().1,
        ),
    decreases m.len(),
{
    if m.len() == 1 {
        assert(m.drop_last() =~= Seq::<(Seq<u8>, Seq<Seq<u8>>)>::empty());
        assert(m.drop_first() =~= Seq::<(Seq<u8>, Seq<Seq<u8>>)>::empty());
        assert(m[0] == m.last());
        assert(spec_serialize_headers(m.drop_first()) =~= Seq::<u8>::empty());
        assert(spec_serialize_headers(m) == spec_serialize_entry(m[0].0, m[0].1)
            + spec_serialize_headers(m.drop_first()));
        assert(spec_serialize_headers(m) =~= spec_serialize_entry(m.last().0, m.last().1));
        assert(spec_serialize_headers(m.drop_last()) =~= Seq::<u8>::empty());
        assert(Seq::<u8>::empty() + spec_serialize_entry(m.last().0, m.last().1)
            =~= spec_serialize_entry(m.last().0, m.last().1));
    } else {
        lemma_serialize_headers_snoc(m.drop_first());
        assert(m.drop_first().drop_last() =~= m.drop_last().drop_first());
        assert(m.drop_first().last() == m.last());
        assert(m.drop_last()[0] == m[0]);
        assert(spec_serialize_headers(m) =~= spec_serialize_headers(m.drop_last())
            + spec_serialize_entry(m.last().0, m.last().1));
    }
}

/// Serializes a request head: request line, header block, empty line.
pub fn serialize_request(
    method: &Method,
    uri: &RequestUri,
    version: &HttpVersion,
    headers: &Headers,
) -> (r: Vec<u8>)
    requires
        headers.wf(),
    ensures
        r@ == spec_serialize_request(method@, uri@, *version, headers@),
{
    let mut out: Vec<u8> = Vec::new();
    let mb = method.name_bytes();
    extend_bytes(&mut out, mb.as_slice());
    out.push(SP);
    let ub = uri.wire_bytes();
    extend_bytes(&mut out, ub.as_slice());
    out.push(SP);
    let vb = version.wire_bytes();
    extend_bytes(&mut out, vb.as_slice());
    out.push(CR);
    out.push(LF);
    write_headers(&mut out, headers);
    out.push(CR);
    out.push(LF);
    proof {
        assert(out@ =~= spec_serialize_request(method@, uri@, *version, headers@));
    }
    out
}

/// A line-safe line followed by CRLF and anything else parses back as
/// exactly that line.
pub proof fn lemma_take_line_of(line: Seq<u8>, tail: Seq<u8>)
    requires
        spec_line_safe(line),
    ensures
        spec_take_line(line + seq![CR, LF] + tail) == LineStep::Line(line, line.len() + 2 as int),
{
    let s = line + seq![CR, LF] + tail;
    assert(s[line.len() as int] == CR);
    assert(s[line.len() as int + 1] == LF);
    lemma_find_eol_at(s, 0, line.len() as int);
    assert(s.take(line.len() as int) =~= line);
}

/// Dropping one leading space does not change a trimmed value.
pub proof fn lemma_trim_ows_leading_sp(p: Seq<u8>)
    ensures
        spec_trim_ows(seq![SP] + p) == spec_trim_ows(p),
{
    let s = seq![SP] + p;
    assert(s[0] == SP);
    assert(s.drop_first() =~= p);
}

/// A header map whose entries serialize and parse back unchanged: token
/// names (already unique by well-formedness), and exactly one value per
/// entry, already trimmed and free of line breaks.
pub open spec fn spec_headers_round_trip_wf(m: Seq<(Seq<u8>, Seq<Seq<u8>>)>) -> bool {
    &&& spec_headers_wf(m)
    &&& forall|i: int| 0 <= i < m.len() ==> (#[trigger] m[i].0).len() <= MAX_HEADER_NAME_LEN
    &&& forall|i: int| 0 <= i < m.len() ==> (#[trigger] m[i].1).len() == 1
    &&& forall|i: int|
        0 <= i < m.len() ==> spec_trim_ows(#[trigger] m[i].1[0]) == m[i].1[0] && spec_line_safe(
            m[i].1[0],
        )
}

/// Parsing the serialized form of a well-formed header block, against an
/// accumulator that shares none of its names, appends exactly its entries.
pub proof fn lemma_parse_serialized_headers(
    m: Seq<(Seq<u8>, Seq<Seq<u8>>)>,
    acc: Seq<(Seq<u8>, Seq<Seq<u8>>)>,
    count: int,
    tail: Seq<u8>,
)
    requires
        spec_headers_round_trip_wf(m),
        count >= 0,
        count + m.len() <= MAX_HEADERS,
        forall|i: int|
            0 <= i < m.len() ==> spec_find_header(acc, (#[trigger] m[i]).0) is None,
    ensures
        spec_parse_headers(spec_serialize_headers(m) + seq![CR, LF] + tail, acc, count)
            == HeadersParse::Done(acc + m, spec_serialize_headers(m).len() + 2 as int),
    decreases m.len(),
{
    let s = spec_serialize_headers(m) + seq![CR, LF] + tail;
    if m.len() == 0 {
        assert(spec_serialize_headers(m) =~= Seq::<u8>::empty());
        assert(s =~= Seq::<u8>::empty() + seq![CR, LF] + tail);
        lemma_take_line_of(Seq::empty(), tail);
        assert(s =~= Seq::<u8>::empty() + seq![CR, LF] + tail);
        assert(spec_take_line(s) == LineStep::Line(Seq::<u8>::empty(), 2int)) by {
            assert(Seq::<u8>::empty() + seq![CR, LF] + tail =~= s);
        }
        assert(acc + m =~= acc);
    } else {
        let name = m[0].0;
        let piece = m[0].1[0];
        let rest = m.drop_first();
        assert(m[0].1 =~= seq![piece]);
        let entry_line = name + seq![58u8, SP] + piece;
        assert(spec_serialize_entry(name, seq![piece]) =~= entry_line + seq![CR, LF]) by {
            assert(seq![piece].drop_first() =~= Seq::<Seq<u8>>::empty());
            assert(spec_serialize_entry(name, Seq::empty()) =~= Seq::<u8>::empty());
            assert(name + seq![58u8, SP] + piece + seq![CR, LF] + Seq::<u8>::empty()
                =~= entry_line + seq![CR, LF]);
        }
        let tail2 = spec_serialize_headers(rest) + seq![CR, LF] + tail;
        assert(s =~= entry_line + seq![CR, LF] + tail2);
        assert(spec_line_safe(entry_line)) by {
            assert(spec_trim_ows(piece) == piece && spec_line_safe(piece));
            assert(forall|i: int|
                0 <= i < name.len() ==> crate::ascii::spec_is_token_byte(#[trigger] name[i]));
            assert(forall|i: int|
                0 <= i < entry_line.len() ==> #[trigger] entry_line[i] != CR && entry_line[i]
                    != LF) by {
                assert forall|i: int|
                    0 <= i < entry_line.len() implies #[trigger] entry_line[i] != CR
                    && entry_line[i] != LF by {
                    if i < name.len() {
                        assert(entry_line[i] == name[i]);
                        assert(crate::ascii::spec_is_token_byte(name[i]));
                    } else if i < name.len() + 2 {
                    } else {
                        assert(entry_line[i] == piece[i - name.len() - 2]);
                    }
                }
            }
        }
        lemma_take_line_of(entry_line, tail2);
        assert(spec_take_line(s) == LineStep::Line(entry_line, entry_line.len() + 2 as int)) by {
            assert(entry_line + seq![CR, LF] + tail2 =~= s);
        }
        assert(entry_line.len() > 0);
        // the field line parses back to (name, piece)
        assert(forall|i: int| 0 <= i < name.len() ==> #[trigger] entry_line[i] != 58) by {
            assert forall|i: int| 0 <= i < name.len() implies #[trigger] entry_line[i] != 58 by {
                assert(entry_line[i] == name[i]);
                assert(crate::ascii::spec_is_token_byte(name[i]));
            }
        }
        assert(entry_line[name.len() as int] == 58);
        lemma_find_colon_at(entry_line, 0, name.len() as int);
        assert(entry_line.take(name.len() as int) =~= name);
        assert(entry_line.skip(name.len() as int + 1) =~= seq![SP] + piece);
        lemma_trim_ows_leading_sp(piece);
        assert(spec_parse_field_line(entry_line) == Some((name, piece)));
        // folding the field pushes a fresh entry
        assert(spec_find_header(acc, name) is None);
        assert(spec_add_field(acc, name, piece) == acc.push((name, seq![piece])));
        let acc2 = acc.push((name, seq![piece]));
        assert(acc2.last() == m[0]);
        // freshness of the remaining names against the grown accumulator
        assert forall|i: int|
            0 <= i < rest.len() implies spec_find_header(acc2, (#[trigger] rest[i]).0)
            is None by {
            assert(rest[i] == m[i + 1]);
            crate::header::lemma_find_none_means_absent(acc, m[i + 1].0);
            assert(crate::ascii::spec_lower(m[0].0) != crate::ascii::spec_lower(m[i + 1].0));
            lemma_absent_means_find_none(acc2, m[i + 1].0);
        }
        assert(spec_headers_round_trip_wf(rest)) by {
            assert(forall|i: int| 0 <= i < rest.len() ==> #[trigger] rest[i] == m[i + 1]);
        }
        lemma_parse_serialized_headers(rest, acc2, count + 1, tail);
        let next: int = entry_line.len() + 2 as int;
        assert(s.skip(next) =~= spec_serialize_headers(rest) + seq![CR, LF] + tail);
        assert(acc2 + rest =~= acc + m);
        assert(spec_serialize_headers(m) =~= spec_serialize_entry(name, m[0].1)
            + spec_serialize_headers(rest));
    }
}

/// When no entry of `m` bears `name` in any case, the lookup fails.
pub proof fn lemma_absent_means_find_none(m: Seq<(Seq<u8>, Seq<Seq<u8>>)>, name: Seq<u8>)
    requires
        forall|i: int|
            0 <= i < m.len() ==> crate::ascii::spec_lower((#[trigger] m[i]).0)
                != crate::ascii::spec_lower(name),
    ensures
        spec_find_header(m, name) is None,
    decreases m.len(),
{
    if m.len() > 0 {
        assert(forall|i: int|
            0 <= i < m.drop_first().len() ==> #[trigger] m.drop_first()[i] == m[i + 1]);
        lemma_absent_means_find_none(m.drop_first(), name);
    }
}

/// Parsing a serialized request head yields the head that was written: the
/// same version, the same method and target bytes, and the same header
/// entries, consuming exactly the serialized bytes. This holds for any token
/// method, any visible-ASCII target, and any well-formed header block whose
/// entries each carry one trimmed, line-safe value.
#[verifier::rlimit(100)]
pub proof fn lemma_head_round_trip(
    method: Seq<u8>,
    uri: Seq<u8>,
    version: HttpVersion,
    m: Seq<(Seq<u8>, Seq<Seq<u8>>)>,
)
    requires
        spec_is_token(method),
        crate::uri::spec_is_uri(uri),
        spec_headers_round_trip_wf(m),
        m.len() <= MAX_HEADERS,
    ensures
        spec_parse_request_head(spec_serialize_request(method, uri, version, m))
            == HeadParse::Complete(
            version,
            (method, uri),
            m,
            spec_serialize_request(method, uri, version, m).len() as int,
        ),
{
    let s = spec_serialize_request(method, uri, version, m);
    let vbytes = spec_version_bytes(version);
    let line = method + seq![SP] + uri + seq![SP] + vbytes;
    let hdr_tail = spec_serialize_headers(m) + seq![CR, LF];
    assert(s =~= line + seq![CR, LF] + hdr_tail);
    // no leading CRLF: the first byte is a token byte
    assert(s[0] == method[0]);
    assert(crate::ascii::spec_is_token_byte(method[0]));
    assert(spec_skip_crlf(s) == 0);
    assert(s.skip(0) =~= s);
    // the request line is line-safe
    assert(spec_line_safe(vbytes)) by {
        match version {
            HttpVersion::Http10 => {},
            HttpVersion::Http11 => {},
        }
    }
    assert(spec_line_safe(line)) by {
        assert forall|i: int| 0 <= i < line.len() implies #[trigger] line[i] != CR && line[i]
            != LF by {
            if i < method.len() {
                assert(line[i] == method[i]);
                assert(crate::ascii::spec_is_token_byte(method[i]));
            } else if i == method.len() {
            } else if i < method.len() + 1 + uri.len() {
                assert(line[i] == uri[i - method.len() - 1]);
                assert(crate::uri::spec_is_uri_byte(uri[i - method.len() - 1]));
            } else if i == method.len() + 1 + uri.len() {
            } else {
                assert(line[i] == vbytes[i - method.len() - 2 - uri.len()]);
            }
        }
    }
    lemma_take_line_of(line, hdr_tail);
    assert(spec_take_line(s) == LineStep::Line(line, line.len() + 2 as int)) by {
        assert(line + seq![CR, LF] + hdr_tail =~= s);
    }
    // the request line parses back
    assert(forall|i: int| 0 <= i < method.len() ==> #[trigger] line[i] != SP) by {
        assert forall|i: int| 0 <= i < method.len() implies #[trigger] line[i] != SP by {
            assert(line[i] == method[i]);
            assert(crate::ascii::spec_is_token_byte(method[i]));
        }
    }
    assert(line[method.len() as int] == SP);
    lemma_find_sp_at(line, 0, method.len() as int);
    assert(line.take(method.len() as int) =~= method);
    let upos = method.len() + 1 as int;
    assert(forall|i: int| upos <= i < upos + uri.len() ==> #[trigger] line[i] != SP) by {
        assert forall|i: int| upos <= i < upos + uri.len() implies #[trigger] line[i] != SP by {
            assert(line[i] == uri[i - upos]);
            assert(crate::uri::spec_is_uri_byte(uri[i - upos]));
        }
    }
    assert(line[upos + uri.len()] == SP);
    lemma_find_sp_at(line, upos, upos + uri.len() as int);
    assert(line.subrange(upos, upos + uri.len()) =~= uri);
    assert(line.skip(upos + uri.len() + 1) =~= vbytes);
    assert(spec_version_bytes(HttpVersion::Http11)[7] == 49
        && spec_version_bytes(HttpVersion::Http10)[7] == 48);
    assert(spec_parse_request_line(line) == StartLineParse::Good(
        (method, uri),
        version,
    ));
    // the header block parses back
    lemma_parse_serialized_headers(m, Seq::empty(), 0, Seq::empty());
    assert(s.skip(line.len() + 2 as int) =~= spec_serialize_headers(m) + seq![CR, LF] + Seq::<
        u8,
    >::empty());
    assert(Seq::<(Seq<u8>, Seq<Seq<u8>>)>::empty() + m =~= m);
    assert(spec_parse_headers(s.skip(line.len() + 2 as int), Seq::empty(), 0)
        == HeadersParse::Done(m, spec_serialize_headers(m).len() + 2 as int));
}

/// Parsing the serialized form of a response head returns the same status,
/// reason bytes, version, and header entries, consuming exactly the
/// serialized bytes. This holds for any status in the wire range, any
/// line-safe reason phrase, and any well-formed header block whose entries
/// each carry one trimmed, line-safe value.
#[verifier::rlimit(100)]
pub proof fn lemma_response_head_round_trip(
    status: u16,
    reason: Seq<u8>,
    version: HttpVersion,
    m: Seq<(Seq<u8>, Seq<Seq<u8>>)>,
)
    requires
        100 <= status <= 599,
        spec_line_safe(reason),
        spec_headers_round_trip_wf(m),
        m.len() <= MAX_HEADERS,
    ensures
        spec_parse_response_head(spec_serialize_response(status, reason, version, m))
            == HeadParse::Complete(
            version,
            (status, reason),
            m,
            spec_serialize_response(status, reason, version, m).len() as int,
        ),
{
    let s = spec_serialize_response(status, reason, version, m);
    let vbytes = spec_version_bytes(version);
    let digits = crate::numerals::spec_dec_digits(status as nat);
    let line = vbytes + seq![SP] + digits + (if reason.len() > 0 {
        seq![SP] + reason
    } else {
        Seq::<u8>::empty()
    });
    let hdr_tail = spec_serialize_headers(m) + seq![CR, LF];
    assert(s =~= line + seq![CR, LF] + hdr_tail);
    // the code is exactly three digits
    let n = status as nat;
    assert(n / 10 >= 10 && n / 10 <= 59);
    assert(n / 10 / 10 >= 1 && n / 10 / 10 <= 5);
    let d1 = crate::numerals::spec_dec_digits(n / 10 / 10);
    let d2 = crate::numerals::spec_dec_digits(n / 10);
    assert(d1.len() == 1);
    assert(d2 == d1.push((48 + (n / 10) % 10) as u8));
    assert(digits == d2.push((48 + n % 10) as u8));
    assert(digits.len() == 3);
    crate::numerals::lemma_dec_digits_are_digits(n);
    crate::numerals::lemma_dec_round_trip(n);
    // the status line is line-safe
    assert(spec_line_safe(vbytes)) by {
        match version {
            HttpVersion::Http10 => {},
            HttpVersion::Http11 => {},
        }
    }
    assert(spec_line_safe(line)) by {
        assert forall|i: int| 0 <= i < line.len() implies #[trigger] line[i] != CR && line[i]
            != LF by {
            if i < 8 {
                assert(line[i] == vbytes[i]);
            } else if i == 8 {
            } else if i < 12 {
                assert(line[i] == digits[i - 9]);
                assert(crate::numerals::spec_is_dec_digit(digits[i - 9]));
            } else if reason.len() > 0 && i == 12 {
            } else {
                assert(line[i] == reason[i - 13]);
            }
        }
    }
    lemma_take_line_of(line, hdr_tail);
    assert(spec_take_line(s) == LineStep::Line(line, line.len() + 2 as int)) by {
        assert(line + seq![CR, LF] + hdr_tail =~= s);
    }
    // the status line parses back
    assert(line.take(8) =~= vbytes);
    assert(spec_version_bytes(HttpVersion::Http11)[7] == 49 && spec_version_bytes(
        HttpVersion::Http10,
    )[7] == 48);
    assert(line[8] == SP);
    assert(line[9] == digits[0] && line[10] == digits[1] && line[11] == digits[2]);
    assert(crate::numerals::spec_is_dec_digit(digits[0]) && crate::numerals::spec_is_dec_digit(
        digits[1],
    ) && crate::numerals::spec_is_dec_digit(digits[2]));
    assert(line.subrange(9, 12) =~= digits);
    assert(crate::numerals::spec_dec_value(line.subrange(9, 12)) == n);
    if reason.len() > 0 {
        assert(line[12] == SP);
        assert(line.skip(13) =~= reason);
    } else {
        assert(line.len() == 12);
        assert(reason =~= Seq::<u8>::empty());
    }
    match version {
        HttpVersion::Http11 => {
            assert(line.take(8) == spec_version_bytes(HttpVersion::Http11));
        },
        HttpVersion::Http10 => {
            assert(line.take(8) == spec_version_bytes(HttpVersion::Http10));
            assert(line.take(8) != spec_version_bytes(HttpVersion::Http11)) by {
                assert(spec_version_bytes(HttpVersion::Http10)[7] == 48);
                assert(spec_version_bytes(HttpVersion::Http11)[7] == 49);
            }
        },
    }
    assert(spec_parse_status_line(line) == StartLineParse::Good(
        ((status, reason)),
        version,
    ));
    // the header block parses back
    lemma_parse_serialized_headers(m, Seq::empty(), 0, Seq::empty());
    assert(s.skip(line.len() + 2 as int) =~= spec_serialize_headers(m) + seq![CR, LF] + Seq::<
        u8,
    >::empty());
    assert(Seq::<(Seq<u8>, Seq<Seq<u8>>)>::empty() + m =~= m);
    assert(spec_parse_headers(s.skip(line.len() + 2 as int), Seq::empty(), 0)
        == HeadersParse::Done(m, spec_serialize_headers(m).len() + 2 as int));
}

/// The wire form of a status line: version, the three-digit code, and the
/// reason phrase when there is one.
pub open spec fn spec_serialize_status_line(
    status: u16,
    reason: Seq<u8>,
    version: HttpVersion,
) -> Seq<u8> {
    spec_version_bytes(version) + seq![SP] + crate::numerals::spec_dec_digits(status as nat) + (
    if reason.len() > 0 {
        seq![SP] + reason
    } else {
        Seq::empty()
    }) + seq![CR, LF]
}

/// The wire form of a whole response head.
pub open spec fn spec_serialize_response(
    status: u16,
    reason: Seq<u8>,
    version: HttpVersion,
    m: Seq<(Seq<u8>, Seq<Seq<u8>>)>,
) -> Seq<u8> {
    spec_serialize_status_line(status, reason, version) + spec_serialize_headers(m) + seq![CR, LF]
}

/// Serializes a response head: status line, header block, empty line.
pub fn serialize_response(
    status: u16,
    reason: &[u8],
    version: &HttpVersion,
    headers: &Headers,
) -> (r: Vec<u8>)
    requires
        headers.wf(),
    ensures
        r@ == spec_serialize_response(status, reason@, *version, headers@),
{
    let mut out: Vec<u8> = Vec::new();
    let vb = version.wire_bytes();
    extend_bytes(&mut out, vb.as_slice());
    out.push(SP);
    let code = crate::numerals::format_dec_u64(status as u64);
    extend_bytes(&mut out, code.as_slice());
    if reason.len() > 0 {
        out.push(SP);
        extend_bytes(&mut out, reason);
    }
    out.push(CR);
    out.push(LF);
    write_headers(&mut out, headers);
    out.push(CR);
    out.push(LF);
    proof {
        assert(out@ =~= spec_serialize_response(status, reason@, *version, headers@));
    }
    out
}
} // verus!
