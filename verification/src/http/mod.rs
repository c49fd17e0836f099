//! The HTTP/1 wire codec: message head parsing and serialization, and the
//! framed body readers and writers for the four framings (sized, chunked,
//! read-to-close, and empty).

pub mod chunk;
pub mod head;

use vstd::prelude::*;
use crate::ascii::{CR, LF, SP, HTAB};
use crate::buffer::BufReader;
use crate::error::IoErrorKind;
use crate::numerals::{
    spec_is_hex_digit, spec_hex_digit_value, spec_hex_value, spec_hex_upper, lemma_hex_round_trip,
    lemma_hex_upper_digits,
};

verus! {

/// The semicolon that opens a chunk extension.
pub const SEMI: u8 = 59;

/// Scans one chunk-size line, as the decoder does: hex digits, optional
/// whitespace, an optional extension after `;` whose bytes are ignored, then
/// CRLF. Returns the digit string and the bytes consumed, or `None` when the
/// line is malformed or the input ends first. `digits` holds the digits seen
/// so far; `in_size` while digits may still come; `in_ext` inside an
/// extension.
pub open spec fn spec_chunk_size_line(
    s: Seq<u8>,
    digits: Seq<u8>,
    in_size: bool,
    in_ext: bool,
) -> Option<(Seq<u8>, int)>
    decreases s.len(),
{
    if s.len() == 0 {
        None
    } else {
        let b = s[0];
        if in_size && spec_is_hex_digit(b) {
            if digits.len() >= 16 {
                None
            } else {
                match spec_chunk_size_line(s.drop_first(), digits.push(b), true, false) {
                    Some((d, c)) => Some((d, c + 1)),
                    None => None,
                }
            }
        } else if b == CR {
            if s.len() >= 2 && s[1] == LF {
                Some((digits, 2))
            } else {
                None
            }
        } else if b == SEMI && !in_ext {
            match spec_chunk_size_line(s.drop_first(), digits, false, true) {
                Some((d, c)) => Some((d, c + 1)),
                None => None,
            }
        } else if (b == SP || b == HTAB) && !in_ext {
            match spec_chunk_size_line(s.drop_first(), digits, false, false) {
                Some((d, c)) => Some((d, c + 1)),
                None => None,
            }
        } else if in_ext {
            match spec_chunk_size_line(s.drop_first(), digits, false, true) {
                Some((d, c)) => Some((d, c + 1)),
                None => None,
            }
        } else {
            None
        }
    }
}

/// A successful scan consumes between 2 bytes and the whole input, and the
/// digit string it returns stays within 16 digits (given it starts within).
pub proof fn lemma_size_line_bounds(s: Seq<u8>, digits: Seq<u8>, in_size: bool, in_ext: bool)
    requires
        digits.len() <= 16,
        forall|i: int| 0 <= i < digits.len() ==> spec_is_hex_digit(#[trigger] digits[i]),
        spec_chunk_size_line(s, digits, in_size, in_ext) is Some,
    ensures
        ({
            let (d, c) = spec_chunk_size_line(s, digits, in_size, in_ext).unwrap();
            2 <= c <= s.len() && d.len() <= 16 && (forall|i: int|
                0 <= i < d.len() ==> spec_is_hex_digit(#[trigger] d[i]))
        }),
    decreases s.len(),
{
    let b = s[0];
    if in_size && spec_is_hex_digit(b) && digits.len() < 16 {
        lemma_size_line_bounds(s.drop_first(), digits.push(b), true, false);
    } else if b == CR {
    } else if b == SEMI && !in_ext {
        lemma_size_line_bounds(s.drop_first(), digits, false, true);
    } else if (b == SP || b == HTAB) && !in_ext {
        lemma_size_line_bounds(s.drop_first(), digits, false, false);
    } else if in_ext {
        lemma_size_line_bounds(s.drop_first(), digits, false, true);
    }
}

/// Scanning a well-formed size line — digits, CRLF, anything after — finds
/// exactly those digits and consumes through the CRLF.
pub proof fn lemma_size_line_of_digits(ds: Seq<u8>, acc: Seq<u8>, tail: Seq<u8>)
    requires
        forall|i: int| 0 <= i < ds.len() ==> spec_is_hex_digit(#[trigger] ds[i]),
        acc.len() + ds.len() <= 16,
    ensures
        spec_chunk_size_line(ds + seq![CR, LF] + tail, acc, true, false) == Some(
            (acc + ds, ds.len() + 2 as int),
        ),
    decreases ds.len(),
{
    let s = ds + seq![CR, LF] + tail;
    if ds.len() == 0 {
        assert(s[0] == CR);
        assert(!spec_is_hex_digit(CR));
        assert(s.len() >= 2 && s[1] == LF);
        assert(acc + ds =~= acc);
    } else {
        let b = ds[0];
        assert(s[0] == b);
        assert(spec_is_hex_digit(b));
        assert(b != CR && b != SEMI && b != SP && b != HTAB);
        lemma_size_line_of_digits(ds.drop_first(), acc.push(b), tail);
        assert(s.drop_first() =~= ds.drop_first() + seq![CR, LF] + tail);
        assert(acc.push(b) + ds.drop_first() =~= acc + ds);
    }
}

/// A scan outcome moved `off` bytes later in a larger stream.
pub open spec fn spec_shift_scan(r: Option<(Seq<u8>, int)>, off: int) -> Option<(Seq<u8>, int)> {
    match r {
        Some((d, c)) => Some((d, c + off)),
        None => None,
    }
}

/// Reads one chunk-size line from the stream, returning the size. Consumes
/// through the terminating CRLF on success; a malformed line — or one that
/// the stream ends in the middle of — is invalid input.
pub fn read_chunk_size(rdr: &mut BufReader) -> (r: Result<u64, IoErrorKind>)
    requires
        old(rdr).wf(),
    ensures
        final(rdr).wf(),
        match spec_chunk_size_line(old(rdr)@, Seq::empty(), true, false) {
            Some((digits, used)) => r == Ok::<u64, IoErrorKind>((spec_hex_value(digits) as u64)) && final(rdr)@ == old(
                rdr,
            )@.skip(used),
            None => r == Err::<u64, IoErrorKind>(IoErrorKind::InvalidInput),
        },
{
    let ghost orig = rdr@;
    let mut size: u64 = 0;
    let ghost mut digits: Seq<u8> = Seq::empty();
    let mut count: usize = 0;
    let mut in_size = true;
    let mut in_ext = false;
    proof {
        vstd::arithmetic::power::lemma_pow0(16);
    }
    loop
        invariant
            orig == old(rdr)@,
            rdr.wf(),
            count == digits.len(),
            count <= 16,
            size as nat == spec_hex_value(digits),
            (size as nat) < (vstd::arithmetic::power::pow(16, count as nat)),
            forall|i: int| 0 <= i < digits.len() ==> spec_is_hex_digit(#[trigger] digits[i]),
            !(in_size && in_ext),
            spec_chunk_size_line(orig, Seq::empty(), true, false) == spec_shift_scan(
                spec_chunk_size_line(rdr@, digits, in_size, in_ext),
                orig.len() - rdr@.len(),
            ),
            orig.len() >= rdr@.len(),
            rdr@ == orig.skip(orig.len() - rdr@.len()),
        decreases rdr@.len(),
    {
        let ghost pre = rdr@;
        let ghost pre_digits = digits;
        let ghost pre_in_size = in_size;
        let ghost pre_in_ext = in_ext;
        let b = match rdr.read_byte() {
            Some(b) => b,
            None => {
                return Err(IoErrorKind::InvalidInput);
            },
        };
        proof {
            assert(pre.drop_first() =~= rdr@);
            assert(pre[0] == b);
            assert(rdr@ =~= orig.skip(orig.len() - rdr@.len()));
        }
        let is_hex = (48 <= b && b <= 57) || (97 <= b && b <= 102) || (65 <= b && b <= 70);
        if in_size && is_hex {
            if count >= 16 {
                proof {
                    assert(spec_chunk_size_line(pre, pre_digits, pre_in_size, pre_in_ext)
                        is None);
                }
                return Err(IoErrorKind::InvalidInput);
            }
            let d: u8 = if b <= 57 {
                b - 48
            } else if b >= 97 {
                b - 97 + 10
            } else {
                b - 65 + 10
            };
            proof {
                assert(vstd::arithmetic::power::pow(16, 15) == 0x1000000000000000) by {
                    reveal_with_fuel(vstd::arithmetic::power::pow, 17);
                }
                assert(size as nat <= vstd::arithmetic::power::pow(16, 15) - 1) by {
                    vstd::arithmetic::power::lemma_pow_increases(16, count as nat, 15);
                }
            }
            size = size * 16 + (d as u64);
            count = count + 1;
            proof {
                let d2 = pre_digits.push(b);
                assert(d2.drop_last() =~= pre_digits);
                assert(d2.last() == b);
                assert(spec_hex_digit_value(b) == d as nat);
                assert(vstd::arithmetic::power::pow(16, count as nat) == 16
                    * vstd::arithmetic::power::pow(16, (count - 1) as nat)) by {
                    vstd::arithmetic::power::lemma_pow_adds(16, 1, (count - 1) as nat);
                    vstd::arithmetic::power::lemma_pow1(16);
                }
                assert((size as nat) < (vstd::arithmetic::power::pow(16, count as nat))) by {
                    assert(spec_hex_value(pre_digits) * 16 + spec_hex_digit_value(b) < (16
                        * vstd::arithmetic::power::pow(16, (count - 1) as nat))) by (
                    nonlinear_arith)
                        requires
                            spec_hex_value(pre_digits) < (vstd::arithmetic::power::pow(
                                16,
                                (count - 1) as nat,
                            )),
                            spec_hex_digit_value(b) < 16,
                    ;
                }
                digits = d2;
            }
        } else if b == CR {
            let second = rdr.read_byte();
            match second {
                Some(lf) => {
                    if lf == LF {
                        proof {
                            assert(pre.len() >= 2 && pre[1] == LF);
                            assert(spec_chunk_size_line(pre, pre_digits, pre_in_size, pre_in_ext)
                                == Some((pre_digits, 2int)));
                            assert(final(rdr)@ =~= orig.skip(
                                2 + orig.len() - pre.len(),
                            ));
                        }
                        return Ok(size);
                    } else {
                        proof {
                            assert(pre.len() >= 2 && pre[1] != LF);
                            assert(spec_chunk_size_line(pre, pre_digits, pre_in_size, pre_in_ext)
                                is None);
                        }
                        return Err(IoErrorKind::InvalidInput);
                    }
                },
                None => {
                    proof {
                        assert(pre.len() == 1);
                        assert(spec_chunk_size_line(pre, pre_digits, pre_in_size, pre_in_ext)
                            is None);
                    }
                    return Err(IoErrorKind::InvalidInput);
                },
            }
        } else if b == SEMI && !in_ext {
            in_size = false;
            in_ext = true;
        } else if (b == SP || b == HTAB) && !in_ext {
            in_size = false;
            in_ext = false;
        } else if in_ext {
            in_size = false;
            in_ext = true;
        } else {
            proof {
                assert(spec_chunk_size_line(orig, Seq::empty(), true, false) == spec_shift_scan(
                    spec_chunk_size_line(pre, pre_digits, pre_in_size, pre_in_ext),
                    orig.len() - pre.len(),
                ));
                assert(spec_chunk_size_line(pre, pre_digits, pre_in_size, pre_in_ext) is None);
                assert(spec_chunk_size_line(orig, Seq::empty(), true, false) is None);
            }
            return Err(IoErrorKind::InvalidInput);
        }
    }
}

/// Consumes exactly the bytes `expect` from the stream; any other byte — or
/// the stream ending first — is invalid input.
pub fn eat(rdr: &mut BufReader, expect: &[u8]) -> (r: Result<(), IoErrorKind>)
    requires
        old(rdr).wf(),
    ensures
        final(rdr).wf(),
        if expect@.len() <= old(rdr)@.len() && old(rdr)@.take(expect@.len() as int) == expect@ {
            r == Ok::<(), IoErrorKind>(()) && final(rdr)@ == old(rdr)@.skip(expect@.len() as int)
        } else {
            r == Err::<(), IoErrorKind>(IoErrorKind::InvalidInput)
        },
{
    let ghost orig = rdr@;
    let mut i: usize = 0;
    while i < expect.len()
        invariant
            orig == old(rdr)@,
            rdr.wf(),
            0 <= i <= expect@.len(),
            i <= orig.len(),
            rdr@ == orig.skip(i as int),
            orig.take(i as int) == expect@.take(i as int),
        decreases expect@.len() - i,
    {
        let got = rdr.read_byte();
        let ok = match got {
            Some(b) => b == expect[i],
            None => false,
        };
        if !ok {
            proof {
                if expect@.len() <= orig.len() && orig.take(expect@.len() as int) == expect@ {
                    assert(orig[i as int] == orig.take(expect@.len() as int)[i as int]);
                    assert(expect@[i as int] == expect@.take(expect@.len() as int)[i as int]);
                    assert(false);
                }
            }
            return Err(IoErrorKind::InvalidInput);
        }
        i = i + 1;
        proof {
            assert(rdr@ =~= orig.skip(i as int));
            assert(orig.take(i as int) =~= orig.take(i as int - 1).push(orig[i as int - 1]));
            assert(expect@.take(i as int) =~= expect@.take(i as int - 1).push(
                expect@[i as int - 1],
            ));
        }
    }
    proof {
        assert(expect@.take(expect@.len() as int) =~= expect@);
        assert(orig.take(expect@.len() as int) == expect@);
    }
    Ok(())
}

/// Where a chunked-body decoder stands in the framing.
#[derive(Clone, Copy, Debug, PartialEq, Eq, Structural)]
pub enum ChunkedState {
    /// Before a chunk-size line.
    Size,
    /// Inside a chunk's data, owing this many bytes.
    Data(u64),
    /// The terminal size line was consumed; the trailer section — optional
    /// trailer lines and the final CRLF — has not been.
    Trailer,
    /// The body is over: the final CRLF was consumed.
    Done,
}

/// The trailer section at the front of `s`: zero or more non-empty lines,
/// each ended by CRLF, then the final empty line's CRLF. `Complete` gives
/// the bytes the whole section spans; `Partial` means the input ends before
/// the final CRLF does; `Malformed` means a bare CR or LF breaks a line.
pub enum TrailerScan {
    /// The whole section is present, spanning this many bytes.
    Complete {
        /// Bytes from the start of `s` through the final CRLF.
        used: int,
    },
    /// The input ends before the final CRLF.
    Partial,
    /// A bare CR or LF breaks the line framing.
    Malformed,
}

/// Scans the trailer section at the front of `s`.
pub open spec fn spec_trailer_scan(s: Seq<u8>) -> TrailerScan
    decreases s.len(),
{
    if s.len() == 0 {
        TrailerScan::Partial
    } else if s[0] == CR {
        if s.len() < 2 {
            TrailerScan::Partial
        } else if s[1] == LF {
            TrailerScan::Complete { used: 2 }
        } else {
            TrailerScan::Malformed
        }
    } else if s[0] == LF {
        TrailerScan::Malformed
    } else {
        match crate::ascii::spec_find_eol(s, 0) {
            None => TrailerScan::Partial,
            Some(e) => {
                if e < 0 || e >= s.len() {
                    TrailerScan::Malformed
                } else if s[e] == LF {
                    TrailerScan::Malformed
                } else if e + 1 >= s.len() {
                    TrailerScan::Partial
                } else if s[e + 1] != LF {
                    TrailerScan::Malformed
                } else {
                    match spec_trailer_scan(s.skip(e + 2)) {
                        TrailerScan::Complete { used } => TrailerScan::Complete {
                            used: e + 2 + used,
                        },
                        TrailerScan::Partial => TrailerScan::Partial,
                        TrailerScan::Malformed => TrailerScan::Malformed,
                    }
                }
            },
        }
    }
}

/// A trailer scan seen `off` bytes later in a larger stream.
pub open spec fn spec_trailer_shift(off: int, t: TrailerScan) -> TrailerScan {
    match t {
        TrailerScan::Complete { used } => TrailerScan::Complete { used: off + used },
        TrailerScan::Partial => TrailerScan::Partial,
        TrailerScan::Malformed => TrailerScan::Malformed,
    }
}

/// A complete trailer section spans at least its final CRLF and at most the
/// whole input.
pub proof fn lemma_trailer_scan_bounds(s: Seq<u8>)
    ensures
        spec_trailer_scan(s) matches TrailerScan::Complete { used } ==> 2 <= used <= s.len(),
    decreases s.len(),
{
    if s.len() == 0 {
    } else if s[0] == CR {
    } else if s[0] == LF {
    } else {
        match crate::ascii::spec_find_eol(s, 0) {
            None => {},
            Some(e) => {
                if 0 <= e && e + 1 < s.len() && s[e] != LF && s[e + 1] == LF {
                    lemma_trailer_scan_bounds(s.skip(e + 2));
                }
            },
        }
    }
}

/// Searching for a line end commutes with skipping a prefix.
pub proof fn lemma_find_eol_skip(s: Seq<u8>, off: int, from: int)
    requires
        0 <= off,
        0 <= from,
        off + from <= s.len(),
    ensures
        crate::ascii::spec_find_eol(s, off + from) == (match crate::ascii::spec_find_eol(
            s.skip(off),
            from,
        ) {
            Some(e) => Some(e + off),
            None => None::<int>,
        }),
    decreases s.len() - off - from,
{
    if off + from < s.len() {
        assert(s.skip(off)[from] == s[off + from]);
        if !(s[off + from] == CR || s[off + from] == LF) {
            lemma_find_eol_skip(s, off, from + 1);
        }
    } else {
        assert(s.skip(off).len() == s.len() - off);
    }
}

/// Finds the end of the trailer section at the front of `s`: `Ok(Some(n))`
/// when the section is complete and spans `n` bytes, `Ok(None)` when the
/// input ends before the section does, an error when a bare CR or LF breaks
/// the line framing. Consumes nothing.
fn scan_trailers(s: &[u8]) -> (r: Result<Option<usize>, IoErrorKind>)
    ensures
        match spec_trailer_scan(s@) {
            TrailerScan::Complete { used } => r matches Ok(o) && o matches Some(n) && n == used,
            TrailerScan::Partial => r == Ok::<Option<usize>, IoErrorKind>(None::<usize>),
            TrailerScan::Malformed => r == Err::<Option<usize>, IoErrorKind>(
                IoErrorKind::InvalidInput,
            ),
        },
{
    let mut off: usize = 0;
    proof {
        assert(s@.skip(0) =~= s@);
    }
    loop
        invariant
            0 <= off <= s@.len(),
            spec_trailer_scan(s@) == spec_trailer_shift(
                off as int,
                spec_trailer_scan(s@.skip(off as int)),
            ),
        decreases s@.len() - off,
    {
        let ghost sub = s@.skip(off as int);
        if off >= s.len() {
            return Ok(None);
        }
        let b = s[off];
        proof {
            assert(sub[0] == b);
        }
        if b == CR {
            if off + 1 >= s.len() {
                proof {
                    assert(sub.len() < 2);
                }
                return Ok(None);
            }
            proof {
                assert(sub[1] == s@[off + 1]);
            }
            if s[off + 1] == LF {
                return Ok(Some(off + 2));
            }
            return Err(IoErrorKind::InvalidInput);
        }
        if b == LF {
            return Err(IoErrorKind::InvalidInput);
        }
        match crate::ascii::find_eol(s, off) {
            None => {
                proof {
                    lemma_find_eol_skip(s@, off as int, 0);
                }
                return Ok(None);
            },
            Some(e) => {
                proof {
                    lemma_find_eol_skip(s@, off as int, 0);
                    assert(crate::ascii::spec_find_eol(sub, 0) == Some(e - off));
                    assert(sub[e - off] == s@[e as int]);
                }
                if s[e] == LF {
                    return Err(IoErrorKind::InvalidInput);
                }
                if e + 1 >= s.len() {
                    return Ok(None);
                }
                proof {
                    assert(sub[e - off + 1] == s@[e as int + 1]);
                }
                if s[e + 1] != LF {
                    return Err(IoErrorKind::InvalidInput);
                }
                proof {
                    assert(sub.skip(e - off + 2) =~= s@.skip(e as int + 2));
                    assert(spec_trailer_scan(sub) == spec_trailer_shift(
                        e - off + 2,
                        spec_trailer_scan(s@.skip(e as int + 2)),
                    ));
                }
                off = e + 2;
            },
        }
    }
}

/// What one call of the chunked reader does, given the stream, where the
/// decoder stands in the framing, and the caller's limit. Returns the data
/// handed out, the bytes consumed, and the new state, or `None` on a framing
/// error. At `Trailer`, a wholly buffered trailer section is consumed
/// through the final CRLF; a partial one is left untouched (zero progress).
pub open spec fn spec_chunked_step(s: Seq<u8>, st: ChunkedState, limit: int) -> Option<
    (Seq<u8>, int, ChunkedState),
> {
    match st {
        ChunkedState::Done => Some((Seq::empty(), 0int, ChunkedState::Done)),
        ChunkedState::Data(k) => {
            if k == 0 {
                Some((Seq::empty(), 0int, ChunkedState::Size))
            } else {
                spec_chunk_data_part(s, k as nat, limit)
            }
        },
        ChunkedState::Size => {
            match spec_chunk_size_line(s, Seq::empty(), true, false) {
                None => None,
                Some((digits, used)) => {
                    let size = spec_hex_value(digits);
                    if size == 0 {
                        Some((Seq::empty(), used, ChunkedState::Trailer))
                    } else {
                        match spec_chunk_data_part(s.skip(used), size, limit) {
                            Some((data, c, st2)) => Some((data, c + used, st2)),
                            None => None,
                        }
                    }
                },
            }
        },
        ChunkedState::Trailer => {
            match spec_trailer_scan(s) {
                TrailerScan::Complete { used } => Some((Seq::empty(), used, ChunkedState::Done)),
                TrailerScan::Partial => Some((Seq::empty(), 0int, ChunkedState::Trailer)),
                TrailerScan::Malformed => None,
            }
        },
    }
}

/// Reading data of a chunk that still owes `k` bytes: hands out up to
/// `limit` bytes of what the stream holds; when the chunk completes, its
/// trailing CRLF is consumed too.
pub open spec fn spec_chunk_data_part(s: Seq<u8>, k: nat, limit: int) -> Option<
    (Seq<u8>, int, ChunkedState),
> {
    let n = vstd::math::min(vstd::math::min(k as int, limit), s.len() as int);
    let data = s.take(n);
    if n < k {
        Some((data, n, ChunkedState::Data((k - n) as u64)))
    } else {
        if s.len() >= k + 2 && s[k as int] == CR && s[k as int + 1] == LF {
            Some((data, k + 2 as int, ChunkedState::Size))
        } else {
            None
        }
    }
}

/// The decoding of a whole chunked body: the data of every chunk through the
/// terminal size line, the trailer section and the final CRLF. `Complete`
/// carries the data and the bytes consumed (trailer section included);
/// `Truncated` means the stream ended inside a chunk or the trailer section,
/// with the data that was delivered; `Malformed` means a size line, a
/// chunk-ending CRLF or a trailer line was wrong.
pub enum ChunkedDecode {
    /// The body decoded through its terminal chunk.
    Complete {
        /// All data bytes, in order.
        data: Seq<u8>,
        /// Bytes of the stream consumed.
        used: int,
    },
    /// The stream ended before the body did.
    Truncated {
        /// The data delivered before the stream ran dry.
        data: Seq<u8>,
    },
    /// A size line or a chunk terminator was malformed.
    Malformed,
}

/// Decodes a chunked body from the front of `s`.
pub open spec fn spec_decode_chunked(s: Seq<u8>) -> ChunkedDecode
    decreases s.len(),
{
    match spec_chunk_size_line(s, Seq::empty(), true, false) {
        None => ChunkedDecode::Malformed,
        Some((digits, used)) => {
            let size = spec_hex_value(digits);
            if used < 2 || used > s.len() {
                ChunkedDecode::Malformed
            } else if size == 0 {
                match spec_trailer_scan(s.skip(used)) {
                    TrailerScan::Complete { used: t } => ChunkedDecode::Complete {
                        data: Seq::empty(),
                        used: used + t,
                    },
                    TrailerScan::Partial => ChunkedDecode::Truncated { data: Seq::empty() },
                    TrailerScan::Malformed => ChunkedDecode::Malformed,
                }
            } else {
                let rest = s.skip(used);
                if rest.len() < size {
                    ChunkedDecode::Truncated { data: rest }
                } else if rest.len() < size + 2 || rest[size as int] != CR || rest[size as int + 1]
                    != LF {
                    ChunkedDecode::Malformed
                } else {
                    spec_prepend_decode(
                        rest.take(size as int),
                        used + size + 2,
                        spec_decode_chunked(rest.skip(size + 2 as int)),
                    )
                }
            }
        },
    }
}

/// Readers for the four body framings. Each wraps the stream it reads from.
pub enum HttpReader {
    /// A reader for a body announced by `Content-Length`: hands out exactly
    /// that many bytes.
    SizedReader(BufReader, u64),
    /// A reader for a chunked body; the second field is where the decoder
    /// stands in the framing.
    ChunkedReader(BufReader, ChunkedState),
    /// A reader for a body delimited by the end of the stream.
    EofReader(BufReader),
    /// A reader for a message that has no body.
    EmptyReader(BufReader),
}

impl HttpReader {
    /// The inner stream is well-formed.
    pub open spec fn wf(&self) -> bool {
        match self {
            HttpReader::SizedReader(s, _) => s.wf(),
            HttpReader::ChunkedReader(s, _) => s.wf(),
            HttpReader::EofReader(s) => s.wf(),
            HttpReader::EmptyReader(s) => s.wf(),
        }
    }

    /// The bytes the stream still holds.
    pub open spec fn stream(&self) -> Seq<u8> {
        match self {
            HttpReader::SizedReader(s, _) => s@,
            HttpReader::ChunkedReader(s, _) => s@,
            HttpReader::EofReader(s) => s@,
            HttpReader::EmptyReader(s) => s@,
        }
    }

    /// Unwraps this reader and returns the underlying stream.
    pub fn into_inner(self) -> (r: BufReader)
        ensures
            r@ == self.stream(),
            self.wf() ==> r.wf(),
    {
        match self {
            HttpReader::SizedReader(s, _) => s,
            HttpReader::ChunkedReader(s, _) => s,
            HttpReader::EofReader(s) => s,
            HttpReader::EmptyReader(s) => s,
        }
    }

    /// Reads at most `limit` bytes of body data. A sized body hands out at
    /// most its remaining count; a chunked body follows one step of the
    /// chunked framing; a read-to-close body hands out whatever the stream
    /// holds; an empty body hands out nothing. Returning an empty vector
    /// means the body is over or the stream has run dry.
    #[verifier::rlimit(100)]
    pub fn read(&mut self, limit: usize) -> (r: Result<Vec<u8>, IoErrorKind>)
        requires
            old(self).wf(),
        ensures
            final(self).wf(),
            match *old(self) {
                HttpReader::SizedReader(s, remaining) => {
                    let n = vstd::math::min(
                        vstd::math::min(remaining as int, limit as int),
                        s@.len() as int,
                    );
                    &&& r matches Ok(data) && data@ == s@.take(n)
                    &&& *final(self) matches HttpReader::SizedReader(s2, rem2) && s2@ == s@.skip(n)
                        && rem2 as int == remaining - n
                },
                HttpReader::ChunkedReader(s, rem) => {
                    match spec_chunked_step(s@, rem, limit as int) {
                        Some((data, used, rem2)) => {
                            &&& r matches Ok(d) && d@ == data
                            &&& *final(self) matches HttpReader::ChunkedReader(s2, r2) && s2@
                                == s@.skip(used) && r2 == rem2
                        },
                        None => r is Err && r == Err::<Vec<u8>, IoErrorKind>(
                            IoErrorKind::InvalidInput,
                        ) && (*final(self) matches HttpReader::ChunkedReader(s2, r2) && r2 == rem),
                    }
                },
                HttpReader::EofReader(s) => {
                    let n = vstd::math::min(limit as int, s@.len() as int);
                    &&& r matches Ok(data) && data@ == s@.take(n)
                    &&& *final(self) matches HttpReader::EofReader(s2) && s2@ == s@.skip(n)
                },
                HttpReader::EmptyReader(s) => {
                    &&& r matches Ok(data) && data@ == Seq::<u8>::empty()
                    &&& *final(self) matches HttpReader::EmptyReader(s2) && s2@ == s@
                },
            },
    {
        match self {
            HttpReader::SizedReader(s, remaining) => {
                let cap: usize = if *remaining < (limit as u64) {
                    *remaining as usize
                } else {
                    limit
                };
                proof {
                    assert(cap as int == vstd::math::min(*remaining as int, limit as int));
                }
                let data = s.read_upto(cap);
                *remaining = *remaining - (data.len() as u64);
                Ok(data)
            },
            HttpReader::ChunkedReader(s, opt_rem) => {
                let rem_in = *opt_rem;
                let (r, rem_out) = read_chunked_step(s, rem_in, limit);
                *opt_rem = rem_out;
                r
            },
            HttpReader::EofReader(s) => Ok(s.read_upto(limit)),
            HttpReader::EmptyReader(_) => Ok(Vec::new()),
        }
    }
}

/// A decode outcome seen through `pre` earlier data bytes and `off` earlier
/// consumed stream bytes.
pub open spec fn spec_prepend_decode(pre: Seq<u8>, off: int, d: ChunkedDecode) -> ChunkedDecode {
    match d {
        ChunkedDecode::Complete { data, used } => ChunkedDecode::Complete {
            data: pre + data,
            used: off + used,
        },
        ChunkedDecode::Truncated { data } => ChunkedDecode::Truncated { data: pre + data },
        ChunkedDecode::Malformed => ChunkedDecode::Malformed,
    }
}

/// Prepending twice is prepending the concatenation.
pub proof fn lemma_prepend_decode_assoc(a: Seq<u8>, o1: int, b: Seq<u8>, o2: int, d: ChunkedDecode)
    ensures
        spec_prepend_decode(a, o1, spec_prepend_decode(b, o2, d)) == spec_prepend_decode(
            a + b,
            o1 + o2,
            d,
        ),
{
    match d {
        ChunkedDecode::Complete { data, used } => {
            assert(a + (b + data) =~= (a + b) + data);
        },
        ChunkedDecode::Truncated { data } => {
            assert(a + (b + data) =~= (a + b) + data);
        },
        ChunkedDecode::Malformed => {},
    }
}

/// Prepending nothing changes nothing.
pub proof fn lemma_prepend_decode_zero(d: ChunkedDecode)
    ensures
        spec_prepend_decode(Seq::empty(), 0, d) == d,
{
    match d {
        ChunkedDecode::Complete { data, used } => {
            assert(Seq::empty() + data =~= data);
        },
        ChunkedDecode::Truncated { data } => {
            assert(Seq::empty() + data =~= data);
        },
        ChunkedDecode::Malformed => {},
    }
}

/// Decoding a chunked body from anywhere in the framing: at a size line, in
/// the middle of a chunk that still owes `k` bytes, in the trailer section,
/// or after the body ended.
pub open spec fn spec_decode_chunked_from(s: Seq<u8>, st: ChunkedState) -> ChunkedDecode {
    match st {
        ChunkedState::Size => spec_decode_chunked(s),
        ChunkedState::Done => ChunkedDecode::Complete { data: Seq::empty(), used: 0 },
        ChunkedState::Trailer => {
            match spec_trailer_scan(s) {
                TrailerScan::Complete { used } => ChunkedDecode::Complete {
                    data: Seq::empty(),
                    used,
                },
                TrailerScan::Partial => ChunkedDecode::Truncated { data: Seq::empty() },
                TrailerScan::Malformed => ChunkedDecode::Malformed,
            }
        },
        ChunkedState::Data(k) => {
            if k == 0 {
                spec_decode_chunked(s)
            } else if s.len() < k {
                ChunkedDecode::Truncated { data: s }
            } else if s.len() < k + 2 || s[k as int] != CR || s[k as int + 1] != LF {
                ChunkedDecode::Malformed
            } else {
                spec_prepend_decode(
                    s.take(k as int),
                    k + 2 as int,
                    spec_decode_chunked(s.skip(k + 2 as int)),
                )
            }
        },
    }
}

/// One step of reading a chunked body from `s`, in the state `st`; the
/// second returned value is the state afterwards. Follows
/// [`spec_chunked_step`] exactly; a framing error is invalid input.
#[verifier::rlimit(50)]
pub(crate) fn read_chunked_step(s: &mut BufReader, st: ChunkedState, limit: usize) -> (r: (
    Result<Vec<u8>, IoErrorKind>,
    ChunkedState,
))
    requires
        old(s).wf(),
    ensures
        final(s).wf(),
        match spec_chunked_step(old(s)@, st, limit as int) {
            Some((data, used, st2)) => {
                &&& r.0 matches Ok(d) && d@ == data
                &&& final(s)@ == old(s)@.skip(used)
                &&& 0 <= used <= old(s)@.len()
                &&& r.1 == st2
            },
            None => r.0 == Err::<Vec<u8>, IoErrorKind>(IoErrorKind::InvalidInput) && r.1 == st,
        },
{
    let ghost s0 = s@;
    let ghost mut line_used: int = 0;
    let at_line = match st {
        ChunkedState::Size => true,
        _ => false,
    };
    let owed: u64 = match st {
        ChunkedState::Done => {
            proof {
                assert(s0.skip(0) =~= s0);
            }
            return (Ok(Vec::new()), ChunkedState::Done);
        },
        ChunkedState::Trailer => {
            match scan_trailers(s.rest()) {
                Ok(Some(n)) => {
                    proof {
                        lemma_trailer_scan_bounds(s0);
                    }
                    s.consume(n);
                    return (Ok(Vec::new()), ChunkedState::Done);
                },
                Ok(None) => {
                    proof {
                        assert(s0.skip(0) =~= s0);
                    }
                    return (Ok(Vec::new()), ChunkedState::Trailer);
                },
                Err(e) => {
                    return (Err(e), ChunkedState::Trailer);
                },
            }
        },
        ChunkedState::Data(k) => k,
        ChunkedState::Size => {
            match read_chunk_size(s) {
                Ok(size) => {
                    proof {
                        lemma_size_line_bounds(s0, Seq::empty(), true, false);
                        line_used = spec_chunk_size_line(s0, Seq::empty(), true, false).unwrap().1;
                        crate::numerals::lemma_hex_value_fits_u64(
                            spec_chunk_size_line(s0, Seq::empty(), true, false).unwrap().0,
                        );
                    }
                    size
                },
                Err(e) => {
                    return (Err(e), ChunkedState::Size);
                },
            }
        },
    };
    let ghost s1 = s@;
    proof {
        if at_line {
            assert(s1 == s0.skip(line_used));
            assert(2 <= line_used <= s0.len());
        } else {
            assert(s1 == s0);
        }
    }
    if owed == 0 {
        proof {
            assert(s1.skip(0) =~= s1);
        }
        if at_line {
            return (Ok(Vec::new()), ChunkedState::Trailer);
        }
        return (Ok(Vec::new()), ChunkedState::Size);
    }
    let cap: usize = if owed < (limit as u64) {
        owed as usize
    } else {
        limit
    };
    proof {
        assert(cap as int == vstd::math::min(owed as int, limit as int));
    }
    let data = s.read_upto(cap);
    let got = data.len() as u64;
    proof {
        assert(got as int == vstd::math::min(
            vstd::math::min(owed as int, limit as int),
            s1.len() as int,
        ));
    }
    if got < owed {
        proof {
            if at_line {
                assert(s0.skip(line_used).skip(got as int) =~= s0.skip(line_used + got));
            }
        }
        (Ok(data), ChunkedState::Data(owed - got))
    } else {
        let ghost s2 = s@;
        proof {
            assert(s2 =~= s1.skip(owed as int));
            if s1.len() >= owed + 2 && s1[owed as int] == CR && s1[owed as int + 1] == LF {
                assert(s2.take(2) =~= seq![CR, LF]);
            } else {
                if s2.len() >= 2 && s2.take(2) == seq![CR, LF] {
                    assert(s2.take(2)[0] == CR && s2.take(2)[1] == LF);
                    assert(s1[owed as int] == s2[0] && s1[owed as int + 1] == s2[1]);
                    assert(false);
                }
            }
        }
        match eat(s, &[CR, LF]) {
            Ok(()) => {},
            Err(e) => {
                return (Err(e), st);
            },
        }
        proof {
            assert(s@ =~= s1.skip(owed + 2 as int));
            if at_line {
                assert(s0.skip(line_used).skip(owed + 2 as int) =~= s0.skip(
                    line_used + owed + 2,
                ));
            }
        }
        (Ok(data), ChunkedState::Size)
    }
}

/// Reads a whole chunked body from `s`, starting in the state `st0`: the
/// concatenated chunk data through the terminal chunk, the trailer section
/// and the final CRLF. A stream that ends mid-body yields the data seen so
/// far; a framing error is invalid input.
#[verifier::rlimit(100)]
fn read_chunked_to_end(s: &mut BufReader, st0: ChunkedState) -> (r: Result<Vec<u8>, IoErrorKind>)
    requires
        old(s).wf(),
    ensures
        final(s).wf(),
        match spec_decode_chunked_from(old(s)@, st0) {
            ChunkedDecode::Complete { data, used } => r matches Ok(d) && d@ == data && final(s)@
                == old(s)@.skip(used),
            ChunkedDecode::Truncated { data } => r matches Ok(d) && d@ == data,
            ChunkedDecode::Malformed => r == Err::<Vec<u8>, IoErrorKind>(
                IoErrorKind::InvalidInput,
            ),
        },
{
    let ghost orig = old(s)@;
    let mut acc: Vec<u8> = Vec::new();
    let mut state = st0;
    proof {
        lemma_prepend_decode_zero(spec_decode_chunked_from(orig, st0));
        assert(acc@ =~= Seq::<u8>::empty());
    }
    loop
        invariant
            orig == old(s)@,
            s.wf(),
            orig.len() >= s@.len(),
            s@ == orig.skip(orig.len() - s@.len()),
            spec_decode_chunked_from(orig, st0) == spec_prepend_decode(
                acc@,
                orig.len() - s@.len(),
                spec_decode_chunked_from(s@, state),
            ),
            state matches ChunkedState::Data(k) ==> k > 0 || s@ == orig,
        decreases s@.len() + (match state {
            ChunkedState::Data(_) => 2int,
            ChunkedState::Done => 0int,
            _ => 1int,
        }),
    {
        let ghost s_pre = s@;
        let ghost state_pre = state;
        let ghost acc_pre = acc@;
        let was_trailer = match state {
            ChunkedState::Trailer => true,
            _ => false,
        };
        let avail = s.remaining();
        let (step, new_state) = read_chunked_step(s, state, usize::MAX);
        let data = match step {
            Ok(d) => d,
            Err(e) => {
                proof {
                    assert(spec_chunked_step(s_pre, state_pre, usize::MAX as int) is None);
                    lemma_step_none_malformed(s_pre, state_pre, usize::MAX as int);
                }
                return Err(e);
            },
        };
        state = new_state;
        proof {
            lemma_step_decomposes(s_pre, state_pre, usize::MAX as int);
            let used = spec_chunked_step(s_pre, state_pre, usize::MAX as int).unwrap().1;
            let off_pre = orig.len() - s_pre.len();
            assert(s@ == s_pre.skip(used));
            assert(orig.skip(off_pre).skip(used) =~= orig.skip(off_pre + used));
            assert(s@ =~= orig.skip(orig.len() - s@.len()));
        }
        crate::header::parsing::extend_bytes(&mut acc, data.as_slice());
        proof {
            assert(acc@ == acc_pre + data@);
            let used = spec_chunked_step(s_pre, state_pre, usize::MAX as int).unwrap().1;
            let off_pre = orig.len() - s_pre.len();
            lemma_prepend_decode_assoc(
                acc_pre,
                off_pre,
                data@,
                used,
                spec_decode_chunked_from(s@, state),
            );
        }
        match state {
            ChunkedState::Done => {
                proof {
                    assert(spec_decode_chunked_from(s@, state) == ChunkedDecode::Complete {
                        data: Seq::<u8>::empty(),
                        used: 0int,
                    });
                    assert(acc@ + Seq::<u8>::empty() =~= acc@);
                }
                return Ok(acc);
            },
            ChunkedState::Data(k) => {
                // the stream drained inside a chunk: the body is truncated
                proof {
                    assert(s@.len() == 0);
                    assert(k > 0);
                    assert(spec_decode_chunked_from(s@, state) == ChunkedDecode::Truncated {
                        data: Seq::<u8>::empty(),
                    }) by {
                        assert(s@ =~= Seq::<u8>::empty());
                    }
                    assert(acc@ + Seq::<u8>::empty() =~= acc@);
                }
                return Ok(acc);
            },
            ChunkedState::Trailer => {
                if was_trailer {
                    // no progress inside the trailer section: truncated
                    proof {
                        assert(spec_trailer_scan(s@) is Partial);
                        assert(spec_decode_chunked_from(s@, state) == ChunkedDecode::Truncated {
                            data: Seq::<u8>::empty(),
                        });
                        assert(acc@ + Seq::<u8>::empty() =~= acc@);
                    }
                    return Ok(acc);
                }
            },
            ChunkedState::Size => {},
        }
    }
}

/// A failed chunked step means the framing from here is malformed.
proof fn lemma_step_none_malformed(s: Seq<u8>, st: ChunkedState, limit: int)
    requires
        limit >= usize::MAX,
        s.len() <= usize::MAX,
        spec_chunked_step(s, st, limit) is None,
    ensures
        spec_decode_chunked_from(s, st) == ChunkedDecode::Malformed,
{
    match st {
        ChunkedState::Done => {},
        ChunkedState::Trailer => {},
        ChunkedState::Data(k) => {
            assert(k != 0);
        },
        ChunkedState::Size => {
            match spec_chunk_size_line(s, Seq::empty(), true, false) {
                None => {},
                Some((digits, used)) => {
                    lemma_size_line_bounds(s, Seq::empty(), true, false);
                    crate::numerals::lemma_hex_value_fits_u64(digits);
                },
            }
        },
    }
}

/// A successful chunked step is one layer of the whole decoding: the data it
/// hands out and the stream it leaves behind compose to the decoding from
/// before the step.
proof fn lemma_step_decomposes(s: Seq<u8>, st: ChunkedState, limit: int)
    requires
        limit >= usize::MAX,
        s.len() <= usize::MAX,
        spec_chunked_step(s, st, limit) is Some,
    ensures
        ({
            let (data, used, st2) = spec_chunked_step(s, st, limit).unwrap();
            &&& spec_decode_chunked_from(s, st) == spec_prepend_decode(
                data,
                used,
                spec_decode_chunked_from(s.skip(used), st2),
            )
            &&& 0 <= used <= s.len()
            &&& (st2 matches ChunkedState::Data(k2) ==> k2 > 0 && used == s.len())
            &&& (st is Size ==> used >= 2)
            &&& (st is Trailer && st2 is Trailer ==> used == 0 && data.len() == 0)
            &&& (st is Done ==> used == 0 && data.len() == 0)
        }),
{
    let (data, used, st2) = spec_chunked_step(s, st, limit).unwrap();
    match st {
        ChunkedState::Done => {
            assert(s.skip(0) =~= s);
            assert(Seq::<u8>::empty() + Seq::<u8>::empty() =~= Seq::<u8>::empty());
        },
        ChunkedState::Trailer => {
            match spec_trailer_scan(s) {
                TrailerScan::Complete { used: t } => {
                    lemma_trailer_scan_bounds(s);
                    assert(Seq::<u8>::empty() + Seq::<u8>::empty() =~= Seq::<u8>::empty());
                },
                TrailerScan::Partial => {
                    assert(s.skip(0) =~= s);
                    assert(Seq::<u8>::empty() + Seq::<u8>::empty() =~= Seq::<u8>::empty());
                },
                TrailerScan::Malformed => {},
            }
        },
        ChunkedState::Data(k0) => {
            if k0 == 0 {
                assert(s.skip(0) =~= s);
                assert(data =~= Seq::<u8>::empty());
                lemma_prepend_decode_zero(spec_decode_chunked(s));
            } else {
                let k = k0 as nat;
                let n = vstd::math::min(vstd::math::min(k as int, limit), s.len() as int);
                if n < k {
                    assert(n == s.len());
                    assert(data =~= s);
                    assert(s.skip(used) =~= Seq::<u8>::empty());
                    assert(data + Seq::<u8>::empty() =~= data);
                } else {
                    assert(n == k);
                    assert(data =~= s.take(k as int));
                    assert(s.skip(k + 2 as int) =~= s.skip(used));
                }
            }
        },
        ChunkedState::Size => {
            match spec_chunk_size_line(s, Seq::empty(), true, false) {
                None => {},
                Some((digits, line_used)) => {
                    lemma_size_line_bounds(s, Seq::empty(), true, false);
                    crate::numerals::lemma_hex_value_fits_u64(digits);
                    let size = spec_hex_value(digits);
                    if size == 0 {
                        assert(data =~= Seq::<u8>::empty());
                        assert(Seq::<u8>::empty() + Seq::<u8>::empty() =~= Seq::<u8>::empty());
                    } else {
                        let s1 = s.skip(line_used);
                        let n = vstd::math::min(vstd::math::min(size as int, limit), s1.len() as int);
                        if n < size {
                            assert(n == s1.len());
                            assert(data =~= s1);
                            assert(s.skip(used) =~= Seq::<u8>::empty());
                            assert(data + Seq::<u8>::empty() =~= data);
                        } else {
                            assert(n == size);
                            assert(data =~= s1.take(size as int));
                            assert(s1.skip(size + 2 as int) =~= s.skip(used));
                        }
                    }
                },
            }
        },
    }
}


impl HttpReader {
    /// Reads the whole body: a sized body up to its announced length, a
    /// chunked body through its terminal chunk, a read-to-close body to the
    /// end of the stream, an empty body as nothing. A stream that ends
    /// before a sized or chunked body does yields the bytes seen so far.
    pub fn read_to_end(&mut self) -> (r: Result<Vec<u8>, IoErrorKind>)
        requires
            old(self).wf(),
        ensures
            final(self).wf(),
            match *old(self) {
                HttpReader::SizedReader(s, remaining) => {
                    let n = vstd::math::min(remaining as int, s@.len() as int);
                    &&& r matches Ok(data) && data@ == s@.take(n)
                    &&& *final(self) matches HttpReader::SizedReader(s2, rem2) && s2@ == s@.skip(n)
                        && rem2 as int == remaining - n
                },
                HttpReader::ChunkedReader(s, rem) => {
                    match spec_decode_chunked_from(s@, rem) {
                        ChunkedDecode::Complete { data, used } => {
                            &&& r matches Ok(d) && d@ == data
                            &&& *final(self) matches HttpReader::ChunkedReader(s2, r2) && s2@
                                == s@.skip(used) && r2 is Done
                        },
                        ChunkedDecode::Truncated { data } => {
                            &&& r matches Ok(d) && d@ == data
                            &&& *final(self) matches HttpReader::ChunkedReader(s2, r2) && r2
                                is Done
                        },
                        ChunkedDecode::Malformed => r == Err::<Vec<u8>, IoErrorKind>(
                            IoErrorKind::InvalidInput,
                        ),
                    }
                },
                HttpReader::EofReader(s) => {
                    &&& r matches Ok(data) && data@ == s@
                    &&& *final(self) matches HttpReader::EofReader(s2) && s2@.len() == 0
                },
                HttpReader::EmptyReader(s) => {
                    &&& r matches Ok(data) && data@ == Seq::<u8>::empty()
                    &&& *final(self) matches HttpReader::EmptyReader(s2) && s2@ == s@
                },
            },
    {
        match self {
            HttpReader::SizedReader(s, remaining) => {
                let avail = s.remaining();
                let cap: usize = if *remaining < (avail as u64) {
                    *remaining as usize
                } else {
                    avail
                };
                proof {
                    assert(cap as int == vstd::math::min(*remaining as int, s@.len() as int));
                }
                let data = s.read_upto(cap);
                *remaining = *remaining - (data.len() as u64);
                Ok(data)
            },
            HttpReader::ChunkedReader(s, st) => {
                let st_in = *st;
                let r = read_chunked_to_end(s, st_in);
                if r.is_ok() {
                    *st = ChunkedState::Done;
                }
                r
            },
            HttpReader::EofReader(s) => {
                let n = s.remaining();
                let data = s.read_upto(n);
                proof {
                    assert(data@ =~= old(self).stream());
                }
                Ok(data)
            },
            HttpReader::EmptyReader(_) => Ok(Vec::new()),
        }
    }
}

/// The bytes a sized body hands out total exactly its announced
/// `Content-Length`: the reader caps every read at what is still owed and
/// counts every byte it hands out against that debt, so when the stream
/// carries the whole body, reading it to the end yields precisely the
/// announced count.
pub proof fn lemma_sized_body_total(announced: u64, stream: Seq<u8>)
    requires
        stream.len() >= announced,
    ensures
        vstd::math::min(announced as int, stream.len() as int) == announced,
        stream.take(vstd::math::min(announced as int, stream.len() as int)).len() == announced,
{
}

/// The wire form of one chunk: its size in upper-case hex, CRLF, the data,
/// CRLF.
pub open spec fn spec_encode_chunk(data: Seq<u8>) -> Seq<u8> {
    spec_hex_upper(data.len()) + seq![CR, LF] + data + seq![CR, LF]
}

/// The wire form of a whole chunked body: each chunk in order, then the
/// terminal `0` size line and the final CRLF.
pub open spec fn spec_encode_chunked(chunks: Seq<Seq<u8>>) -> Seq<u8>
    decreases chunks.len(),
{
    if chunks.len() == 0 {
        seq![48u8, CR, LF, CR, LF]
    } else {
        spec_encode_chunk(chunks[0]) + spec_encode_chunked(chunks.drop_first())
    }
}

/// Re-encoding decoded chunks and decoding again yields the same data: the
/// decoder accepts exactly what the encoder writes, delivers the chunk data
/// in order, and consumes everything through the final CRLF. Chunks must be
/// non-empty — an empty chunk is the terminator — and of representable size.
#[verifier::rlimit(100)]
pub proof fn lemma_chunked_round_trip(chunks: Seq<Seq<u8>>)
    requires
        forall|i: int| 0 <= i < chunks.len() ==> 0 < (#[trigger] chunks[i]).len() <= u64::MAX,
    ensures
        spec_decode_chunked(spec_encode_chunked(chunks)) == (ChunkedDecode::Complete {
            data: chunks.flatten(),
            used: spec_encode_chunked(chunks).len() as int,
        }),
    decreases chunks.len(),
{
    let enc = spec_encode_chunked(chunks);
    if chunks.len() == 0 {
        let digits = seq![48u8];
        lemma_size_line_of_digits(digits, Seq::empty(), seq![CR, LF]);
        assert(enc =~= digits + seq![CR, LF] + seq![CR, LF]);
        assert(Seq::empty() + digits =~= digits);
        assert(spec_chunk_size_line(enc, Seq::empty(), true, false) == Some((digits, 3int)));
        assert(spec_hex_value(digits) == 0) by {
            assert(digits.drop_last() =~= Seq::<u8>::empty());
            assert(digits.last() == 48u8);
            assert(spec_hex_value(Seq::<u8>::empty()) == 0);
        }
        assert(chunks.flatten() =~= Seq::<u8>::empty());
        assert(enc.skip(3) =~= seq![CR, LF]);
        assert(spec_trailer_scan(seq![CR, LF]) == (TrailerScan::Complete { used: 2int }));
    } else {
        let c = chunks[0];
        let rest = chunks.drop_first();
        let enc_rest = spec_encode_chunked(rest);
        let digits = spec_hex_upper(c.len());
        crate::numerals::lemma_hex_upper_digits(c.len());
        crate::numerals::lemma_hex_upper_len_u64(c.len());
        crate::numerals::lemma_hex_round_trip(c.len());
        let tail = c + seq![CR, LF] + enc_rest;
        lemma_size_line_of_digits(digits, Seq::empty(), tail);
        assert(enc =~= digits + seq![CR, LF] + tail);
        assert(Seq::empty() + digits =~= digits);
        let used0 = digits.len() + 2 as int;
        assert(spec_chunk_size_line(enc, Seq::empty(), true, false) == Some((digits, used0)));
        let size = spec_hex_value(digits);
        assert(size == c.len());
        let rest_s = enc.skip(used0);
        assert(rest_s =~= tail);
        assert(rest_s.len() >= size + 2);
        assert(rest_s[size as int] == CR);
        assert(rest_s[size as int + 1] == LF);
        assert(rest_s.take(size as int) =~= c);
        assert(rest_s.skip(size + 2 as int) =~= enc_rest);
        assert(forall|i: int| 0 <= i < rest.len() ==> rest[i] == chunks[i + 1]);
        lemma_chunked_round_trip(rest);
        assert(chunks.flatten() == c + rest.flatten()) by {
            assert(chunks.first() == c);
        }
        assert(enc.len() == used0 + size + 2 + enc_rest.len());
    }
}

/// Writers for the body framings: a pass-through, the chunked framing, a
/// length-bounded writer, and one that discards everything. Each owns the
/// byte buffer it writes into.
pub enum HttpWriter {
    /// Writes bytes through unchanged, used before framing is decided.
    ThroughWriter(Vec<u8>),
    /// Wraps each write in the chunked framing.
    ChunkedWriter(Vec<u8>),
    /// Writes at most the announced number of bytes, discarding the excess.
    SizedWriter(Vec<u8>, u64),
    /// A writer for a message that must not carry a body.
    EmptyWriter(Vec<u8>),
}

impl HttpWriter {
    /// The bytes written so far.
    pub open spec fn buf_view(&self) -> Seq<u8> {
        match self {
            HttpWriter::ThroughWriter(w) => w@,
            HttpWriter::ChunkedWriter(w) => w@,
            HttpWriter::SizedWriter(w, _) => w@,
            HttpWriter::EmptyWriter(w) => w@,
        }
    }

    /// Writes one piece of body data under this writer's framing, returning
    /// how many bytes of `msg` were accepted. The chunked writer frames
    /// every call as one chunk — a framed empty chunk is the terminator, so
    /// callers drop empty pieces first. The sized writer accepts at most
    /// what it still owes. The empty writer accepts nothing.
    pub fn write(&mut self, msg: &[u8]) -> (r: Result<usize, IoErrorKind>)
        ensures
            match *old(self) {
                HttpWriter::ThroughWriter(w) => {
                    &&& r == Ok::<usize, IoErrorKind>(msg@.len() as usize)
                    &&& *final(self) matches HttpWriter::ThroughWriter(w2) && w2@ == w@ + msg@
                },
                HttpWriter::ChunkedWriter(w) => {
                    &&& r == Ok::<usize, IoErrorKind>(msg@.len() as usize)
                    &&& *final(self) matches HttpWriter::ChunkedWriter(w2) && w2@ == w@
                        + spec_encode_chunk(msg@)
                },
                HttpWriter::SizedWriter(w, remaining) => {
                    let n = vstd::math::min(remaining as int, msg@.len() as int);
                    &&& r == Ok::<usize, IoErrorKind>(n as usize)
                    &&& *final(self) matches HttpWriter::SizedWriter(w2, rem2) && w2@ == w@
                        + msg@.take(n) && rem2 as int == remaining - n
                },
                HttpWriter::EmptyWriter(w) => {
                    &&& r == Ok::<usize, IoErrorKind>(0usize)
                    &&& *final(self) matches HttpWriter::EmptyWriter(w2) && w2@ == w@
                },
            },
    {
        match self {
            HttpWriter::ThroughWriter(w) => {
                crate::header::parsing::extend_bytes(w, msg);
                Ok(msg.len())
            },
            HttpWriter::ChunkedWriter(w) => {
                let size = crate::numerals::format_hex_upper_u64(msg.len() as u64);
                crate::header::parsing::extend_bytes(w, size.as_slice());
                w.push(CR);
                w.push(LF);
                crate::header::parsing::extend_bytes(w, msg);
                w.push(CR);
                w.push(LF);
                proof {
                    assert(w@ =~= old(self).buf_view() + spec_encode_chunk(msg@));
                }
                Ok(msg.len())
            },
            HttpWriter::SizedWriter(w, remaining) => {
                let n: usize = if *remaining < (msg.len() as u64) {
                    *remaining as usize
                } else {
                    msg.len()
                };
                crate::header::parsing::extend_bytes(
                    w,
                    vstd::slice::slice_subrange(msg, 0, n),
                );
                *remaining = *remaining - (n as u64);
                proof {
                    assert(msg@.subrange(0, n as int) =~= msg@.take(n as int));
                }
                Ok(n)
            },
            HttpWriter::EmptyWriter(_) => Ok(0),
        }
    }

    /// Ends the body under this writer's framing and returns the buffer: the
    /// chunked writer appends its terminator, the others add nothing.
    pub fn end(self) -> (r: Result<Vec<u8>, IoErrorKind>)
        ensures
            match self {
                HttpWriter::ChunkedWriter(w) => r matches Ok(v) && v@ == w@ + seq![
                    48u8,
                    CR,
                    LF,
                    CR,
                    LF,
                ],
                _ => r matches Ok(v) && v@ == self.buf_view(),
            },
    {
        match self {
            HttpWriter::ChunkedWriter(mut w) => {
                let ghost pre = w@;
                w.push(48);
                w.push(CR);
                w.push(LF);
                w.push(CR);
                w.push(LF);
                proof {
                    assert(w@ =~= pre + seq![48u8, CR, LF, CR, LF]);
                }
                Ok(w)
            },
            HttpWriter::ThroughWriter(w) => Ok(w),
            HttpWriter::SizedWriter(w, _) => Ok(w),
            HttpWriter::EmptyWriter(w) => Ok(w),
        }
    }

    /// Unwraps the writer and returns the buffer.
    pub fn into_inner(self) -> (r: Vec<u8>)
        ensures
            r@ == self.buf_view(),
    {
        match self {
            HttpWriter::ThroughWriter(w) => w,
            HttpWriter::ChunkedWriter(w) => w,
            HttpWriter::SizedWriter(w, _) => w,
            HttpWriter::EmptyWriter(w) => w,
        }
    }

    /// A mutable reference to the buffer written so far.
    pub fn get_mut(&mut self) -> (r: &mut Vec<u8>) {
        match self {
            HttpWriter::ThroughWriter(w) => w,
            HttpWriter::ChunkedWriter(w) => w,
            HttpWriter::SizedWriter(w, _) => w,
            HttpWriter::EmptyWriter(w) => w,
        }
    }

    /// A reference to the buffer written so far.
    pub fn get_ref(&self) -> (r: &Vec<u8>)
        ensures
            r@ == self.buf_view(),
    {
        match self {
            HttpWriter::ThroughWriter(w) => w,
            HttpWriter::ChunkedWriter(w) => w,
            HttpWriter::SizedWriter(w, _) => w,
            HttpWriter::EmptyWriter(w) => w,
        }
    }
}

} // verus!
