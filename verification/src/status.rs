//! Status codes for responses, with the canonical reason phrases the engine
//! writes for the statuses it can generate itself.

use vstd::prelude::*;

verus! {

/// A response status code, 100 through 599.
#[derive(Clone, Copy, Debug, PartialEq, Eq, Structural)]
pub struct StatusCode(pub u16);

/// The classes of status codes.
#[derive(Clone, Copy, Debug, PartialEq, Eq, Structural)]
pub enum StatusClass {
    /// 1xx
    Informational,
    /// 2xx
    Success,
    /// 3xx
    Redirection,
    /// 4xx
    ClientError,
    /// 5xx
    ServerError,
    /// Anything outside 100..=599.
    NoClass,
}

impl StatusCode {
    /// Builds a status code from its numeric value.
    pub fn from_u16(n: u16) -> (r: StatusCode)
        ensures
            r.0 == n,
    {
        StatusCode(n)
    }

    /// The numeric value.
    pub fn to_u16(&self) -> (r: u16)
        ensures
            r == self.0,
    {
        self.0
    }

    /// The class of this code.
    pub fn class(&self) -> (r: StatusClass)
        ensures
            r == self.spec_class(),
    {
        if 100 <= self.0 && self.0 <= 199 {
            StatusClass::Informational
        } else if 200 <= self.0 && self.0 <= 299 {
            StatusClass::Success
        } else if 300 <= self.0 && self.0 <= 399 {
            StatusClass::Redirection
        } else if 400 <= self.0 && self.0 <= 499 {
            StatusClass::ClientError
        } else if 500 <= self.0 && self.0 <= 599 {
            StatusClass::ServerError
        } else {
            StatusClass::NoClass
        }
    }

    /// The class of this code.
    pub open spec fn spec_class(&self) -> StatusClass {
        if 100 <= self.0 <= 199 {
            StatusClass::Informational
        } else if 200 <= self.0 <= 299 {
            StatusClass::Success
        } else if 300 <= self.0 <= 399 {
            StatusClass::Redirection
        } else if 400 <= self.0 <= 499 {
            StatusClass::ClientError
        } else if 500 <= self.0 <= 599 {
            StatusClass::ServerError
        } else {
            StatusClass::NoClass
        }
    }

    /// Whether a response with this status never carries a body: `1xx`,
    /// `204` and `304`.
    pub open spec fn spec_disallows_body(&self) -> bool {
        (100 <= self.0 <= 199) || self.0 == 204 || self.0 == 304
    }

    /// Executable test for [`Self::spec_disallows_body`].
    pub fn disallows_body(&self) -> (r: bool)
        ensures
            r == self.spec_disallows_body(),
    {
        (100 <= self.0 && self.0 <= 199) || self.0 == 204 || self.0 == 304
    }

    /// The canonical reason phrase bytes for the statuses this engine can
    /// emit on its own behalf; empty for a code it has no phrase for.
    pub open spec fn spec_canonical_reason_bytes(code: u16) -> Seq<u8> {
        if code == 100 {
            seq![67u8, 111u8, 110u8, 116u8, 105u8, 110u8, 117u8, 101u8]
        } else if code == 101 {
            seq![
                83u8, 119u8, 105u8, 116u8, 99u8, 104u8, 105u8, 110u8, 103u8, 32u8, 80u8, 114u8,
                111u8, 116u8, 111u8, 99u8, 111u8, 108u8, 115u8,
            ]
        } else if code == 200 {
            seq![79u8, 75u8]
        } else if code == 204 {
            seq![78u8, 111u8, 32u8, 67u8, 111u8, 110u8, 116u8, 101u8, 110u8, 116u8]
        } else if code == 304 {
            seq![78u8, 111u8, 116u8, 32u8, 77u8, 111u8, 100u8, 105u8, 102u8, 105u8, 101u8, 100u8]
        } else if code == 400 {
            seq![66u8, 97u8, 100u8, 32u8, 82u8, 101u8, 113u8, 117u8, 101u8, 115u8, 116u8]
        } else if code == 404 {
            seq![78u8, 111u8, 116u8, 32u8, 70u8, 111u8, 117u8, 110u8, 100u8]
        } else if code == 431 {
            seq![
                82u8, 101u8, 113u8, 117u8, 101u8, 115u8, 116u8, 32u8, 72u8, 101u8, 97u8, 100u8,
                101u8, 114u8, 32u8, 70u8, 105u8, 101u8, 108u8, 100u8, 115u8, 32u8, 84u8, 111u8,
                111u8, 32u8, 76u8, 97u8, 114u8, 103u8, 101u8,
            ]
        } else if code == 500 {
            seq![
                73u8, 110u8, 116u8, 101u8, 114u8, 110u8, 97u8, 108u8, 32u8, 83u8, 101u8, 114u8,
                118u8, 101u8, 114u8, 32u8, 69u8, 114u8, 114u8, 111u8, 114u8,
            ]
        } else if code == 505 {
            seq![
                72u8, 84u8, 84u8, 80u8, 32u8, 86u8, 101u8, 114u8, 115u8, 105u8, 111u8, 110u8,
                32u8, 78u8, 111u8, 116u8, 32u8, 83u8, 117u8, 112u8, 112u8, 111u8, 114u8, 116u8,
                101u8, 100u8,
            ]
        } else {
            Seq::empty()
        }
    }

    /// The canonical reason phrase bytes of this status; empty for a code
    /// without one.
    pub fn canonical_reason_bytes(&self) -> (r: Vec<u8>)
        ensures
            r@ == Self::spec_canonical_reason_bytes(self.0),
    {
        let bytes: &[u8] = match self.0 {
            100 => &[67, 111, 110, 116, 105, 110, 117, 101],
            101 => &[
                83, 119, 105, 116, 99, 104, 105, 110, 103, 32, 80, 114, 111, 116, 111, 99, 111,
                108, 115,
            ],
            200 => &[79, 75],
            204 => &[78, 111, 32, 67, 111, 110, 116, 101, 110, 116],
            304 => &[78, 111, 116, 32, 77, 111, 100, 105, 102, 105, 101, 100],
            400 => &[66, 97, 100, 32, 82, 101, 113, 117, 101, 115, 116],
            404 => &[78, 111, 116, 32, 70, 111, 117, 110, 100],
            431 => &[
                82, 101, 113, 117, 101, 115, 116, 32, 72, 101, 97, 100, 101, 114, 32, 70, 105,
                101, 108, 100, 115, 32, 84, 111, 111, 32, 76, 97, 114, 103, 101,
            ],
            500 => &[
                73, 110, 116, 101, 114, 110, 97, 108, 32, 83, 101, 114, 118, 101, 114, 32, 69,
                114, 114, 111, 114,
            ],
            505 => &[
                72, 84, 84, 80, 32, 86, 101, 114, 115, 105, 111, 110, 32, 78, 111, 116, 32, 83,
                117, 112, 112, 111, 114, 116, 101, 100,
            ],
            _ => &[],
        };
        let r = vstd::slice::slice_to_vec(bytes);
        proof {
            assert(r@ =~= Self::spec_canonical_reason_bytes(self.0));
        }
        r
    }

    /// The canonical reason phrase for the statuses this engine can emit on
    /// its own behalf, plus the most common success codes.
    pub fn canonical_reason(&self) -> (r: Option<&'static str>)
        ensures
            r is Some <==> (self.0 == 100 || self.0 == 101 || self.0 == 200 || self.0 == 204
                || self.0 == 304 || self.0 == 400 || self.0 == 404 || self.0 == 431 || self.0
                == 500 || self.0 == 505),
    {
        match self.0 {
            100 => Some("Continue"),
            101 => Some("Switching Protocols"),
            200 => Some("OK"),
            204 => Some("No Content"),
            304 => Some("Not Modified"),
            400 => Some("Bad Request"),
            404 => Some("Not Found"),
            431 => Some("Request Header Fields Too Large"),
            500 => Some("Internal Server Error"),
            505 => Some("HTTP Version Not Supported"),
            _ => None,
        }
    }
}

} // verus!
