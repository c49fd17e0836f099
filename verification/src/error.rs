//! The error taxonomy of the engine: parse failures, framing failures, and
//! connection-level conditions, each a plain enum variant so that contracts
//! can say exactly which error an input produces.

use vstd::prelude::*;

verus! {

/// The kind of a transport-level failure, mirroring the classes of I/O error
/// the engine itself can diagnose from a byte stream.
#[derive(Clone, Copy, Debug, PartialEq, Eq, Structural)]
pub enum IoErrorKind {
    /// Bytes arrived that the current decoder state cannot accept.
    InvalidInput,
    /// The peer closed the stream before a message head was started.
    ConnectionAborted,
    /// The stream ended in the middle of a framed element.
    UnexpectedEof,
    /// Any other transport failure, reported by the caller.
    Other,
}

/// Errors produced while parsing or framing an HTTP/1 message.
#[derive(Clone, Copy, Debug, PartialEq, Eq, Structural)]
pub enum HttpError {
    /// The request method was not a valid token.
    HttpMethodError,
    /// The request target was malformed.
    HttpUriError,
    /// The version was neither `HTTP/1.0` nor `HTTP/1.1`.
    HttpVersionError,
    /// A header line was malformed, or framing headers disagreed.
    HttpHeaderError,
    /// The status line of a response was malformed.
    HttpStatusError,
    /// The head did not fit the configured buffer limit, or had too many
    /// header fields.
    HttpTooLargeError,
    /// A transport failure, with its kind.
    HttpIoError(IoErrorKind),
    /// A message arrived when none was expected.
    HttpUnexpectedMessageError,
    /// The in-flight exchange was dropped before completion.
    HttpCanceledError,
    /// The connection is no longer usable.
    HttpClosedError,
}

impl HttpError {
    /// The transport error kind, where this error carries one.
    pub fn io_kind(&self) -> (r: Option<IoErrorKind>)
        ensures
            r == (match *self {
                HttpError::HttpIoError(k) => Some(k),
                _ => None::<IoErrorKind>,
            }),
    {
        match *self {
            HttpError::HttpIoError(k) => Some(k),
            _ => None,
        }
    }
}

} // verus!
