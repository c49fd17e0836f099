//! The client side of the engine: the idle-connection pool and the
//! decisions a client makes between exchanges.

pub mod checkout;
pub mod pool;

use vstd::prelude::*;
use crate::buffer::BufReader;

verus! {

/// A request body handed to the client: a stream of unknown length (sent
/// chunked), a stream of known length, or an in-memory buffer.
pub enum Body {
    /// A byte source whose total size is unknown; sent with the chunked
    /// framing.
    ChunkedBody(BufReader),
    /// A byte source of exactly the given size.
    SizedBody(BufReader, u64),
    /// An in-memory buffer of exactly the given size.
    BufBody(Vec<u8>, u64),
}

impl Body {
    /// The announced size of this body, when it has one.
    pub fn size(&self) -> (r: Option<u64>)
        ensures
            r == (match *self {
                Body::SizedBody(_, n) => Some(n),
                Body::BufBody(_, n) => Some(n),
                Body::ChunkedBody(_) => None::<u64>,
            }),
    {
        match self {
            Body::SizedBody(_, n) => Some(*n),
            Body::BufBody(_, n) => Some(*n),
            Body::ChunkedBody(_) => None,
        }
    }
}

/// Anything that can become a request [`Body`].
pub trait IntoBody {
    /// Consumes self into a body.
    fn into_body(self) -> (r: Body);
}

impl IntoBody for Body {
    fn into_body(self) -> (r: Body) {
        self
    }
}

impl IntoBody for Vec<u8> {
    /// A buffer has a size, so it is sent with `Content-Length`.
    fn into_body(self) -> (r: Body) {
        let n = self.len() as u64;
        Body::BufBody(self, n)
    }
}

impl IntoBody for BufReader {
    /// A plain byte source does not announce a size, so it is sent chunked.
    fn into_body(self) -> (r: Body) {
        Body::ChunkedBody(self)
    }
}

/// How the client treats redirect responses.
#[derive(Clone, Copy, Debug, PartialEq, Eq, Structural)]
pub enum RedirectPolicy {
    /// Never follow a redirect.
    FollowNone,
    /// Always follow redirects.
    FollowAll,
}

/// Whether a response with this status is a redirect the policy follows:
/// only 3xx statuses redirect, and only when the policy allows following.
pub open spec fn spec_should_follow(policy: RedirectPolicy, status: u16) -> bool {
    300 <= status <= 399 && policy is FollowAll
}

/// Decides whether the client follows this response as a redirect.
pub fn should_follow_redirect(policy: &RedirectPolicy, status: u16) -> (r: bool)
    ensures
        r == spec_should_follow(*policy, status),
{
    if !(300 <= status && status <= 399) {
        return false;
    }
    match policy {
        RedirectPolicy::FollowAll => true,
        RedirectPolicy::FollowNone => false,
    }
}

/// Whether a request with this method carries a body: `GET` and `HEAD`
/// never do.
pub fn can_have_body(method: &crate::method::Method) -> (r: bool)
    ensures
        r == !(method is Get || method is Head),
{
    match method {
        crate::method::Method::Get => false,
        crate::method::Method::Head => false,
        _ => true,
    }
}

/// Whether a failed request is retried on a fresh connection: only when the
/// retry policy allows it, the connection came from the idle pool, and no
/// request bytes had gone on the wire yet. A fresh connection's failure, or
/// one that already wrote, is never retried.
pub open spec fn spec_should_retry(
    retry_enabled: bool,
    was_reused: bool,
    bytes_written: bool,
) -> bool {
    retry_enabled && was_reused && !bytes_written
}

/// Decides whether the client retries the request after a write failure.
pub fn should_retry_request(retry_enabled: bool, was_reused: bool, bytes_written: bool) -> (r:
    bool)
    ensures
        r == spec_should_retry(retry_enabled, was_reused, bytes_written),
{
    retry_enabled && was_reused && !bytes_written
}

/// A builder for client connections.
#[derive(Clone, Copy, Debug, PartialEq, Eq, Structural)]
pub struct Builder {
    /// Whether the connection may gather its writes into a vectored write.
    pub h1_writev: bool,
}

impl Builder {
    /// The default connection options.
    pub fn new() -> (r: Builder)
        ensures
            r.h1_writev,
    {
        Builder { h1_writev: true }
    }

    /// Chooses between vectored and flattened writes.
    pub fn h1_writev(&mut self, enabled: bool) -> (r: bool)
        ensures
            final(self).h1_writev == enabled,
            r == enabled,
    {
        self.h1_writev = enabled;
        enabled
    }
}

} // verus!
