//! Request methods. Nine common methods are recognized as constants; any
//! other token is carried as an extension method.

use vstd::prelude::*;
use crate::ascii::{spec_is_token, is_token};
use crate::error::HttpError;

verus! {

/// A request method: a token from the request line.
#[derive(Clone, Debug)]
#[verifier::ext_equal]
pub enum Method {
    /// `OPTIONS`
    Options,
    /// `GET`
    Get,
    /// `POST`
    Post,
    /// `PUT`
    Put,
    /// `DELETE`
    Delete,
    /// `HEAD`
    Head,
    /// `TRACE`
    Trace,
    /// `CONNECT`
    Connect,
    /// `PATCH`
    Patch,
    /// Any other token, carried verbatim.
    Extension(Vec<u8>),
}

/// The wire bytes of `OPTIONS`.
pub open spec fn spec_name_options() -> Seq<u8> {
    seq![79u8, 80u8, 84u8, 73u8, 79u8, 78u8, 83u8]
}

/// The wire bytes of `GET`.
pub open spec fn spec_name_get() -> Seq<u8> {
    seq![71u8, 69u8, 84u8]
}

/// The wire bytes of `POST`.
pub open spec fn spec_name_post() -> Seq<u8> {
    seq![80u8, 79u8, 83u8, 84u8]
}

/// The wire bytes of `PUT`.
pub open spec fn spec_name_put() -> Seq<u8> {
    seq![80u8, 85u8, 84u8]
}

/// The wire bytes of `DELETE`.
pub open spec fn spec_name_delete() -> Seq<u8> {
    seq![68u8, 69u8, 76u8, 69u8, 84u8, 69u8]
}

/// The wire bytes of `HEAD`.
pub open spec fn spec_name_head() -> Seq<u8> {
    seq![72u8, 69u8, 65u8, 68u8]
}

/// The wire bytes of `TRACE`.
pub open spec fn spec_name_trace() -> Seq<u8> {
    seq![84u8, 82u8, 65u8, 67u8, 69u8]
}

/// The wire bytes of `CONNECT`.
pub open spec fn spec_name_connect() -> Seq<u8> {
    seq![67u8, 79u8, 78u8, 78u8, 69u8, 67u8, 84u8]
}

/// The wire bytes of `PATCH`.
pub open spec fn spec_name_patch() -> Seq<u8> {
    seq![80u8, 65u8, 84u8, 67u8, 72u8]
}

impl View for Method {
    type V = Seq<u8>;

    open spec fn view(&self) -> Seq<u8> {
        match self {
            Method::Options => spec_name_options(),
            Method::Get => spec_name_get(),
            Method::Post => spec_name_post(),
            Method::Put => spec_name_put(),
            Method::Delete => spec_name_delete(),
            Method::Head => spec_name_head(),
            Method::Trace => spec_name_trace(),
            Method::Connect => spec_name_connect(),
            Method::Patch => spec_name_patch(),
            Method::Extension(v) => v@,
        }
    }
}

/// A method value the parser can produce: an extension method is a token
/// and never spells one of the nine recognized names.
pub open spec fn spec_method_wf(m: Method) -> bool {
    match m {
        Method::Extension(v) => spec_is_token(v@) && v@ != spec_name_options() && v@
            != spec_name_get() && v@ != spec_name_post() && v@ != spec_name_put() && v@
            != spec_name_delete() && v@ != spec_name_head() && v@ != spec_name_trace() && v@
            != spec_name_connect() && v@ != spec_name_patch(),
        _ => true,
    }
}

/// Two byte strings are equal exactly when their views are.
pub fn bytes_eq(a: &[u8], b: &[u8]) -> (r: bool)
    ensures
        r == (a@ == b@),
{
    if a.len() != b.len() {
        return false;
    }
    let mut i: usize = 0;
    while i < a.len()
        invariant
            0 <= i <= a@.len(),
            a@.len() == b@.len(),
            forall|j: int| 0 <= j < i ==> a@[j] == b@[j],
        decreases a@.len() - i,
    {
        if a[i] != b[i] {
            return false;
        }
        i = i + 1;
    }
    proof {
        assert(a@ =~= b@);
    }
    true
}

impl Method {
    /// Parses method token bytes. Every token is accepted; anything else is
    /// a method error.
    pub fn from_bytes(b: &[u8]) -> (r: Result<Method, HttpError>)
        ensures
            match r {
                Ok(m) => spec_is_token(b@) && m@ == b@ && spec_method_wf(m),
                Err(e) => !spec_is_token(b@) && e == HttpError::HttpMethodError,
            },
    {
        if !is_token(b) {
            return Err(HttpError::HttpMethodError);
        }
        if bytes_eq(b, &[79, 80, 84, 73, 79, 78, 83]) {
            proof {
                assert(b@ =~= spec_name_options());
            }
            Ok(Method::Options)
        } else if bytes_eq(b, &[71, 69, 84]) {
            proof {
                assert(b@ =~= spec_name_get());
            }
            Ok(Method::Get)
        } else if bytes_eq(b, &[80, 79, 83, 84]) {
            proof {
                assert(b@ =~= spec_name_post());
            }
            Ok(Method::Post)
        } else if bytes_eq(b, &[80, 85, 84]) {
            proof {
                assert(b@ =~= spec_name_put());
            }
            Ok(Method::Put)
        } else if bytes_eq(b, &[68, 69, 76, 69, 84, 69]) {
            proof {
                assert(b@ =~= spec_name_delete());
            }
            Ok(Method::Delete)
        } else if bytes_eq(b, &[72, 69, 65, 68]) {
            proof {
                assert(b@ =~= spec_name_head());
            }
            Ok(Method::Head)
        } else if bytes_eq(b, &[84, 82, 65, 67, 69]) {
            proof {
                assert(b@ =~= spec_name_trace());
            }
            Ok(Method::Trace)
        } else if bytes_eq(b, &[67, 79, 78, 78, 69, 67, 84]) {
            proof {
                assert(b@ =~= spec_name_connect());
            }
            Ok(Method::Connect)
        } else if bytes_eq(b, &[80, 65, 84, 67, 72]) {
            proof {
                assert(b@ =~= spec_name_patch());
            }
            Ok(Method::Patch)
        } else {
            let mut v: Vec<u8> = Vec::new();
            let mut i: usize = 0;
            while i < b.len()
                invariant
                    0 <= i <= b@.len(),
                    v@ == b@.take(i as int),
                decreases b@.len() - i,
            {
                v.push(b[i]);
                i = i + 1;
                proof {
                    assert(v@ =~= b@.take(i as int));
                }
            }
            proof {
                assert(b@.take(b@.len() as int) =~= b@);
            }
            Ok(Method::Extension(v))
        }
    }

    /// The wire bytes of this method.
    pub fn name_bytes(&self) -> (r: Vec<u8>)
        ensures
            r@ == self@,
    {
        match self {
            Method::Options => {
                let mut v: Vec<u8> = Vec::new();
                v.push(79);
                v.push(80);
                v.push(84);
                v.push(73);
                v.push(79);
                v.push(78);
                v.push(83);
                proof {
                    assert(v@ =~= spec_name_options());
                }
                v
            },
            Method::Get => {
                let mut v: Vec<u8> = Vec::new();
                v.push(71);
                v.push(69);
                v.push(84);
                proof {
                    assert(v@ =~= spec_name_get());
                }
                v
            },
            Method::Post => {
                let mut v: Vec<u8> = Vec::new();
                v.push(80);
                v.push(79);
                v.push(83);
                v.push(84);
                proof {
                    assert(v@ =~= spec_name_post());
                }
                v
            },
            Method::Put => {
                let mut v: Vec<u8> = Vec::new();
                v.push(80);
                v.push(85);
                v.push(84);
                proof {
                    assert(v@ =~= spec_name_put());
                }
                v
            },
            Method::Delete => {
                let mut v: Vec<u8> = Vec::new();
                v.push(68);
                v.push(69);
                v.push(76);
                v.push(69);
                v.push(84);
                v.push(69);
                proof {
                    assert(v@ =~= spec_name_delete());
                }
                v
            },
            Method::Head => {
                let mut v: Vec<u8> = Vec::new();
                v.push(72);
                v.push(69);
                v.push(65);
                v.push(68);
                proof {
                    assert(v@ =~= spec_name_head());
                }
                v
            },
            Method::Trace => {
                let mut v: Vec<u8> = Vec::new();
                v.push(84);
                v.push(82);
                v.push(65);
                v.push(67);
                v.push(69);
                proof {
                    assert(v@ =~= spec_name_trace());
                }
                v
            },
            Method::Connect => {
                let mut v: Vec<u8> = Vec::new();
                v.push(67);
                v.push(79);
                v.push(78);
                v.push(78);
                v.push(69);
                v.push(67);
                v.push(84);
                proof {
                    assert(v@ =~= spec_name_connect());
                }
                v
            },
            Method::Patch => {
                let mut v: Vec<u8> = Vec::new();
                v.push(80);
                v.push(65);
                v.push(84);
                v.push(67);
                v.push(72);
                proof {
                    assert(v@ =~= spec_name_patch());
                }
                v
            },
            Method::Extension(ext) => {
                let mut v: Vec<u8> = Vec::new();
                let mut i: usize = 0;
                while i < ext.len()
                    invariant
                        0 <= i <= ext@.len(),
                        v@ == ext@.take(i as int),
                    decreases ext@.len() - i,
                {
                    v.push(ext[i]);
                    i = i + 1;
                    proof {
                        assert(v@ =~= ext@.take(i as int));
                    }
                }
                proof {
                    assert(ext@.take(ext@.len() as int) =~= ext@);
                }
                v
            },
        }
    }

    /// Whether this is the `HEAD` method (its responses carry no body).
    pub fn is_head(&self) -> (r: bool)
        ensures
            r == (*self is Head),
    {
        match self {
            Method::Head => true,
            _ => false,
        }
    }

    /// Whether this is the `GET` method.
    pub fn is_get(&self) -> (r: bool)
        ensures
            r == (*self is Get),
    {
        match self {
            Method::Get => true,
            _ => false,
        }
    }

    /// Whether this is the `CONNECT` method.
    pub fn is_connect(&self) -> (r: bool)
        ensures
            r == (*self is Connect),
    {
        match self {
            Method::Connect => true,
            _ => false,
        }
    }
}

} // verus!
