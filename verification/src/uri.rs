//! Request targets: origin-form, absolute-form, authority-form, or `*`.

use vstd::prelude::*;
use crate::error::HttpError;

verus! {

/// A request target from the request line.
#[derive(Clone, Debug)]
pub enum RequestUri {
    /// Origin-form: a path starting with `/`, optionally with a query.
    AbsolutePath(Vec<u8>),
    /// Absolute-form: a full URI containing `://`.
    AbsoluteUri(Vec<u8>),
    /// Authority-form: `host:port`, used with `CONNECT`.
    Authority(Vec<u8>),
    /// The server-wide target `*`, used with `OPTIONS`.
    Star,
}

impl View for RequestUri {
    type V = Seq<u8>;

    open spec fn view(&self) -> Seq<u8> {
        match self {
            RequestUri::AbsolutePath(p) => p@,
            RequestUri::AbsoluteUri(u) => u@,
            RequestUri::Authority(a) => a@,
            RequestUri::Star => seq![42u8],
        }
    }
}

/// Whether `b` may appear in a request target: visible ASCII.
pub open spec fn spec_is_uri_byte(b: u8) -> bool {
    33 <= b <= 126
}

/// Whether all of `s` is made of visible ASCII and `s` is not empty.
pub open spec fn spec_is_uri(s: Seq<u8>) -> bool {
    s.len() > 0 && forall|i: int| 0 <= i < s.len() ==> spec_is_uri_byte(#[trigger] s[i])
}

/// Whether `s` contains the scheme separator `://`.
pub open spec fn spec_has_scheme_sep(s: Seq<u8>) -> bool {
    exists|i: int|
        0 <= i && i + 3 <= s.len() && s[i] == 58 && #[trigger] s[i + 1] == 47 && s[i + 2] == 47
}

/// A target value the parser can produce, so that its wire bytes identify
/// its form.
pub open spec fn spec_uri_wf(u: RequestUri) -> bool {
    match u {
        RequestUri::AbsolutePath(p) => spec_is_uri(p@) && p@[0] == 47,
        RequestUri::AbsoluteUri(b) => spec_is_uri(b@) && b@[0] != 47 && b@ != seq![42u8]
            && spec_has_scheme_sep(b@),
        RequestUri::Authority(a) => spec_is_uri(a@) && a@[0] != 47 && a@ != seq![42u8]
            && !spec_has_scheme_sep(a@),
        RequestUri::Star => true,
    }
}

/// Scans for the scheme separator `://`.
fn has_scheme_sep(s: &[u8]) -> (r: bool)
    ensures
        r == spec_has_scheme_sep(s@),
{
    if s.len() < 3 {
        proof {
            assert(!spec_has_scheme_sep(s@));
        }
        return false;
    }
    let mut i: usize = 0;
    while i <= s.len() - 3
        invariant
            0 <= i <= s@.len(),
            s@.len() >= 3,
            forall|j: int|
                0 <= j < i && j + 3 <= s@.len() ==> !(s@[j] == 58 && #[trigger] s@[j + 1] == 47
                    && s@[j + 2] == 47),
        decreases s@.len() - i,
    {
        if s[i] == 58 && s[i + 1] == 47 && s[i + 2] == 47 {
            return true;
        }
        i = i + 1;
    }
    proof {
        assert forall|j: int| 0 <= j && j + 3 <= s@.len() implies !(s@[j] == 58 && #[trigger] s@[j
            + 1] == 47 && s@[j + 2] == 47) by {
            assert(j < i);
        }
    }
    false
}

impl RequestUri {
    /// Parses target bytes into their form; rejects empty targets and bytes
    /// outside visible ASCII.
    pub fn from_bytes(b: &[u8]) -> (r: Result<RequestUri, HttpError>)
        ensures
            match r {
                Ok(u) => spec_is_uri(b@) && u@ == b@ && spec_uri_wf(u),
                Err(e) => !spec_is_uri(b@) && e == HttpError::HttpUriError,
            },
    {
        let mut i: usize = 0;
        while i < b.len()
            invariant
                0 <= i <= b@.len(),
                forall|j: int| 0 <= j < i ==> spec_is_uri_byte(#[trigger] b@[j]),
            decreases b@.len() - i,
        {
            if b[i] < 33 || b[i] > 126 {
                return Err(HttpError::HttpUriError);
            }
            i = i + 1;
        }
        if b.len() == 0 {
            return Err(HttpError::HttpUriError);
        }
        if b.len() == 1 && b[0] == 42 {
            proof {
                assert(b@ =~= seq![42u8]);
            }
            return Ok(RequestUri::Star);
        }
        let own = vstd::slice::slice_to_vec(b);
        if b[0] == 47 {
            Ok(RequestUri::AbsolutePath(own))
        } else if has_scheme_sep(b) {
            proof {
                if b@ == seq![42u8] {
                    assert(b@.len() == 1);
                    assert(false);
                }
            }
            Ok(RequestUri::AbsoluteUri(own))
        } else {
            proof {
                if b@ == seq![42u8] {
                    assert(b@.len() == 1);
                    assert(false);
                }
            }
            Ok(RequestUri::Authority(own))
        }
    }

    /// The wire bytes of this target.
    pub fn wire_bytes(&self) -> (r: Vec<u8>)
        ensures
            r@ == self@,
    {
        match self {
            RequestUri::AbsolutePath(p) => vstd::slice::slice_to_vec(p.as_slice()),
            RequestUri::AbsoluteUri(u) => vstd::slice::slice_to_vec(u.as_slice()),
            RequestUri::Authority(a) => vstd::slice::slice_to_vec(a.as_slice()),
            RequestUri::Star => {
                let mut v: Vec<u8> = Vec::new();
                v.push(42);
                proof {
                    assert(v@ =~= seq![42u8]);
                }
                v
            },
        }
    }
}

} // verus!
