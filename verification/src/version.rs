//! HTTP version tags carried by every parsed or serialized message head.

use vstd::prelude::*;

verus! {

/// The HTTP versions the HTTP/1 engine negotiates.
#[derive(Clone, Copy, Debug, PartialEq, Eq, Structural)]
pub enum HttpVersion {
    /// `HTTP/1.0`
    Http10,
    /// `HTTP/1.1`
    Http11,
}

/// The wire form of a version tag.
pub open spec fn spec_version_bytes(v: HttpVersion) -> Seq<u8> {
    match v {
        HttpVersion::Http10 => seq![72u8, 84u8, 84u8, 80u8, 47u8, 49u8, 46u8, 48u8],
        HttpVersion::Http11 => seq![72u8, 84u8, 84u8, 80u8, 47u8, 49u8, 46u8, 49u8],
    }
}

impl HttpVersion {
    /// The eight bytes `HTTP/1.x` that this version writes on the wire.
    pub fn wire_bytes(&self) -> (r: Vec<u8>)
        ensures
            r@ == spec_version_bytes(*self),
            r@.len() == 8,
    {
        let mut v: Vec<u8> = Vec::new();
        v.push(72);
        v.push(84);
        v.push(84);
        v.push(80);
        v.push(47);
        v.push(49);
        v.push(46);
        match *self {
            HttpVersion::Http10 => v.push(48),
            HttpVersion::Http11 => v.push(49),
        }
        proof {
            assert(v@ =~= spec_version_bytes(*self));
        }
        v
    }

    /// Whether this version defaults to keeping the connection alive.
    pub fn keep_alive_by_default(&self) -> (r: bool)
        ensures
            r == (*self is Http11),
    {
        match *self {
            HttpVersion::Http10 => false,
            HttpVersion::Http11 => true,
        }
    }
}

} // verus!
