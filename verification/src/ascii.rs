//! Byte-level helpers shared by the codec: token classification, ASCII case
//! folding, optional-whitespace trimming, and decimal / hexadecimal numerals
//! with proofs that formatting and parsing invert each other.

use vstd::prelude::*;
use vstd::string::{StringSliceAdditionalSpecFns, StrSliceExecFns};

verus! {

/// Carriage return.
pub const CR: u8 = 13;

/// Line feed.
pub const LF: u8 = 10;

/// Space.
pub const SP: u8 = 32;

/// Horizontal tab.
pub const HTAB: u8 = 9;

/// Whether `b` is a `tchar`: a byte allowed in a token such as a method name
/// or a header field name.
pub open spec fn spec_is_token_byte(b: u8) -> bool {
    ||| (48 <= b <= 57)  // digit
    ||| (65 <= b <= 90)  // upper alpha
    ||| (97 <= b <= 122)  // lower alpha
    ||| b == 33  // !
    ||| (35 <= b <= 39)  // # $ % & '
    ||| b == 42  // *
    ||| b == 43  // +
    ||| b == 45  // -
    ||| b == 46  // .
    ||| b == 94  // ^
    ||| b == 95  // _
    ||| b == 96  // `
    ||| b == 124  // |
    ||| b == 126  // ~
}

/// Executable test for `tchar` bytes.
pub fn is_token_byte(b: u8) -> (r: bool)
    ensures
        r == spec_is_token_byte(b),
{
    (48 <= b && b <= 57) || (65 <= b && b <= 90) || (97 <= b && b <= 122) || b == 33 || (35 <= b
        && b <= 39) || b == 42 || b == 43 || b == 45 || b == 46 || b == 94 || b == 95 || b == 96
        || b == 124 || b == 126
}

/// Whether every byte of `s` is a token byte and `s` is not empty.
pub open spec fn spec_is_token(s: Seq<u8>) -> bool {
    s.len() > 0 && forall|i: int| 0 <= i < s.len() ==> spec_is_token_byte(#[trigger] s[i])
}

/// Executable test that a byte string is a non-empty token.
pub fn is_token(s: &[u8]) -> (r: bool)
    ensures
        r == spec_is_token(s@),
{
    if s.len() == 0 {
        return false;
    }
    let mut i: usize = 0;
    while i < s.len()
        invariant
            0 <= i <= s@.len(),
            forall|j: int| 0 <= j < i ==> spec_is_token_byte(#[trigger] s@[j]),
        decreases s@.len() - i,
    {
        if !is_token_byte(s[i]) {
            return false;
        }
        i = i + 1;
    }
    true
}

/// ASCII lower-casing of one byte.
pub open spec fn spec_lower_byte(b: u8) -> u8 {
    if 65 <= b <= 90 {
        (b + 32) as u8
    } else {
        b
    }
}

/// ASCII lower-casing of a byte string.
pub open spec fn spec_lower(s: Seq<u8>) -> Seq<u8> {
    s.map_values(|b: u8| spec_lower_byte(b))
}

/// Executable ASCII lower-casing of one byte.
pub fn lower_byte(b: u8) -> (r: u8)
    ensures
        r == spec_lower_byte(b),
{
    if 65 <= b && b <= 90 {
        b + 32
    } else {
        b
    }
}

/// Executable ASCII lower-casing of a byte string.
pub fn lower_bytes(s: &[u8]) -> (r: Vec<u8>)
    ensures
        r@ == spec_lower(s@),
{
    let mut out: Vec<u8> = Vec::new();
    let mut i: usize = 0;
    while i < s.len()
        invariant
            0 <= i <= s@.len(),
            out@ == spec_lower(s@.take(i as int)),
        decreases s@.len() - i,
    {
        out.push(lower_byte(s[i]));
        i = i + 1;
        proof {
            assert(out@ =~= spec_lower(s@.take(i as int)));
        }
    }
    proof {
        assert(s@.take(s@.len() as int) =~= s@);
    }
    out
}

/// Equality of two byte strings up to ASCII case.
pub fn eq_ignore_case(a: &[u8], b: &[u8]) -> (r: bool)
    ensures
        r == (spec_lower(a@) == spec_lower(b@)),
{
    if a.len() != b.len() {
        proof {
            assert(spec_lower(a@).len() != spec_lower(b@).len());
        }
        return false;
    }
    let mut i: usize = 0;
    while i < a.len()
        invariant
            0 <= i <= a@.len(),
            a@.len() == b@.len(),
            forall|j: int| 0 <= j < i ==> spec_lower(a@)[j] == spec_lower(b@)[j],
        decreases a@.len() - i,
    {
        if lower_byte(a[i]) != lower_byte(b[i]) {
            proof {
                assert(spec_lower(a@)[i as int] != spec_lower(b@)[i as int]);
            }
            return false;
        }
        i = i + 1;
    }
    proof {
        assert(spec_lower(a@) =~= spec_lower(b@));
    }
    true
}

/// Whether `b` is optional whitespace (space or horizontal tab).
pub open spec fn spec_is_ows(b: u8) -> bool {
    b == SP || b == HTAB
}

/// The byte string `s` with leading and trailing optional whitespace removed.
pub open spec fn spec_trim_ows(s: Seq<u8>) -> Seq<u8>
    decreases s.len(),
{
    if s.len() == 0 {
        s
    } else if spec_is_ows(s[0]) {
        spec_trim_ows(s.drop_first())
    } else if spec_is_ows(s.last()) {
        spec_trim_ows(s.drop_last())
    } else {
        s
    }
}

/// Executable trimming of surrounding optional whitespace.
pub fn trim_ows(s: &[u8]) -> (r: Vec<u8>)
    ensures
        r@ == spec_trim_ows(s@),
{
    let mut lo: usize = 0;
    let mut hi: usize = s.len();
    proof {
        assert(s@.subrange(0, s@.len() as int) =~= s@);
    }
    while lo < hi && (s[lo] == SP || s[lo] == HTAB)
        invariant
            0 <= lo <= hi <= s@.len(),
            spec_trim_ows(s@) == spec_trim_ows(s@.subrange(lo as int, hi as int)),
            hi == s@.len(),
        decreases hi - lo,
    {
        proof {
            assert(s@.subrange(lo as int, hi as int).drop_first() =~= s@.subrange(
                lo as int + 1,
                hi as int,
            ));
        }
        lo = lo + 1;
    }
    while lo < hi && (s[hi - 1] == SP || s[hi - 1] == HTAB)
        invariant
            0 <= lo <= hi <= s@.len(),
            spec_trim_ows(s@) == spec_trim_ows(s@.subrange(lo as int, hi as int)),
            lo < hi ==> !spec_is_ows(s@.subrange(lo as int, hi as int)[0]),
        decreases hi - lo,
    {
        proof {
            assert(s@.subrange(lo as int, hi as int).drop_last() =~= s@.subrange(
                lo as int,
                hi as int - 1,
            ));
        }
        hi = hi - 1;
    }
    let mut out: Vec<u8> = Vec::new();
    let mut i: usize = lo;
    while i < hi
        invariant
            lo <= i <= hi <= s@.len(),
            out@ == s@.subrange(lo as int, i as int),
        decreases hi - i,
    {
        out.push(s[i]);
        i = i + 1;
        proof {
            assert(out@ =~= s@.subrange(lo as int, i as int));
        }
    }
    proof {
        let mid = s@.subrange(lo as int, hi as int);
        if lo < hi {
            assert(spec_trim_ows(mid) == mid);
        } else {
            assert(mid =~= Seq::<u8>::empty());
        }
        assert(out@ =~= mid);
    }
    out
}

/// Whether a byte string contains neither carriage return nor line feed.
pub open spec fn spec_line_safe(s: Seq<u8>) -> bool {
    forall|i: int| 0 <= i < s.len() ==> #[trigger] s[i] != CR && s[i] != LF
}

/// The first index at or after `from` whose byte satisfies being CR or LF,
/// if any.
pub open spec fn spec_find_eol(s: Seq<u8>, from: int) -> Option<int>
    decreases s.len() - from,
{
    if from < 0 || from >= s.len() {
        None
    } else if s[from] == CR || s[from] == LF {
        Some(from)
    } else {
        spec_find_eol(s, from + 1)
    }
}

/// Finds the first CR or LF at or after `from`.
pub fn find_eol(s: &[u8], from: usize) -> (r: Option<usize>)
    requires
        from <= s@.len(),
    ensures
        match r {
            Some(i) => from <= i < s@.len() && spec_find_eol(s@, from as int) == Some(i as int),
            None => spec_find_eol(s@, from as int) is None,
        },
{
    let mut i: usize = from;
    while i < s.len()
        invariant
            from <= i <= s@.len(),
            spec_find_eol(s@, from as int) == spec_find_eol(s@, i as int),
        decreases s@.len() - i,
    {
        if s[i] == CR || s[i] == LF {
            return Some(i);
        }
        i = i + 1;
    }
    None
}

/// If bytes of `s` before index `at` (at or after `from`) are line-safe and
/// `s[at]` is CR or LF, the search finds exactly `at`.
pub proof fn lemma_find_eol_at(s: Seq<u8>, from: int, at: int)
    requires
        0 <= from <= at < s.len(),
        forall|i: int| from <= i < at ==> #[trigger] s[i] != CR && s[i] != LF,
        s[at] == CR || s[at] == LF,
    ensures
        spec_find_eol(s, from) == Some(at),
    decreases at - from,
{
    if from < at {
        lemma_find_eol_at(s, from + 1, at);
    }
}


/// Whether every byte is ASCII.
pub open spec fn spec_all_ascii(s: Seq<u8>) -> bool {
    forall|i: int| 0 <= i < s.len() ==> #[trigger] s[i] < 128
}

/// Executable test that all bytes are ASCII.
pub fn all_ascii(s: &[u8]) -> (r: bool)
    ensures
        r == spec_all_ascii(s@),
{
    let mut i: usize = 0;
    while i < s.len()
        invariant
            0 <= i <= s@.len(),
            forall|j: int| 0 <= j < i ==> #[trigger] s@[j] < 128,
        decreases s@.len() - i,
    {
        if s[i] >= 128 {
            return false;
        }
        i = i + 1;
    }
    true
}

/// Builds a `String` from ASCII bytes. Relies on `String::from_utf8`: bytes
/// that are valid UTF-8 — and all-ASCII bytes are — become a string of
/// exactly those bytes, each as the character with that code.
#[verifier::external_body]
pub fn string_from_ascii(b: Vec<u8>) -> (r: String)
    requires
        spec_all_ascii(b@),
    ensures
        r@.len() == b@.len(),
        forall|i: int| 0 <= i < r@.len() ==> #[trigger] r@[i] as u32 == b@[i] as u32,
{
    match String::from_utf8(b) {
        Ok(s) => s,
        Err(_) => String::new(),
    }
}

/// Reads the bytes of an ASCII string back out; such strings round-trip
/// through [`string_from_ascii`].
pub fn bytes_of_string(s: &String) -> (r: Vec<u8>)
    ensures
        vstd::string::string_is_ascii(s) ==> r@.len() == s@.len() && (forall|i: int|
            0 <= i < r@.len() ==> #[trigger] r@[i] as u32 == s@[i] as u32) && spec_all_ascii(r@),
{
    let str_ref = s.as_str();
    let r = str_ref.as_bytes_vec();
    proof {
        broadcast use vstd::string::is_ascii_spec_bytes;
        if vstd::string::string_is_ascii(s) {
            assert(vstd::string::is_ascii(str_ref));
            assert(str_ref.spec_bytes() =~= Seq::new(str_ref@.len(), |i: int| str_ref@[i] as u8));
            assert forall|i: int| 0 <= i < r@.len() implies #[trigger] r@[i] as u32 == s@[i]
                as u32 by {
                assert(r@[i] == str_ref@[i] as u8);
            }
            assert forall|i: int| 0 <= i < r@.len() implies #[trigger] r@[i] < 128 by {
                assert(r@[i] == str_ref@[i] as u8);
                assert(vstd::utf8::is_ascii_chars(str_ref@));
            }
        }
    }
    r
}
} // verus!
