//! The server side of the engine: protocol configuration, the stream of
//! connections a listener yields, and the response writer handed to
//! handlers.

pub mod response;

use vstd::prelude::*;

verus! {

/// The write-status marker of a response whose head has not been written.
pub struct Fresh;

/// The write-status marker of a response whose head has been written.
pub struct Streaming;

/// Protocol-level configuration for serving connections.
#[derive(Clone, Copy, Debug, PartialEq, Eq, Structural)]
pub struct Http {
    /// Whether finished exchanges may reuse the connection.
    pub keep_alive: bool,
    /// Whether flushes are aggregated across pipelined responses.
    pub pipeline: bool,
}

impl Http {
    /// The default configuration: keep-alive on, pipeline flushing off.
    pub fn new() -> (r: Http)
        ensures
            r.keep_alive,
            !r.pipeline,
    {
        Http { keep_alive: true, pipeline: false }
    }

    /// Enables or disables keep-alive; on by default.
    pub fn keep_alive(&mut self, val: bool) -> (r: bool)
        ensures
            final(self).keep_alive == val,
            final(self).pipeline == old(self).pipeline,
            r == val,
    {
        self.keep_alive = val;
        val
    }

    /// Enables or disables aggregated flushing of pipelined responses; off
    /// by default.
    pub fn pipeline(&mut self, enabled: bool) -> (r: bool)
        ensures
            final(self).pipeline == enabled,
            final(self).keep_alive == old(self).keep_alive,
            r == enabled,
    {
        self.pipeline = enabled;
        enabled
    }

    /// Builds a fresh connection under this configuration: keep-alive off
    /// makes the connection close after its first exchange.
    pub fn serve_connection(&self) -> (r: crate::proto::conn::Conn)
        ensures
            r.wf(),
            r.reading is Init,
            r.writing is Init,
            r.keep_alive == (if self.keep_alive {
                crate::proto::conn::KA::Busy
            } else {
                crate::proto::conn::KA::Disabled
            }),
            r.input_view() =~= Seq::<u8>::empty(),
            r.output_view() =~= Seq::<u8>::empty(),
    {
        crate::proto::conn::Conn::new(self.keep_alive)
    }
}

/// A stream of incoming transports paired with the service that will handle
/// them, under one protocol configuration.
pub struct Serve<I, S> {
    /// The incoming transports.
    pub incoming: I,
    /// The service factory.
    pub new_service: S,
    /// The protocol configuration.
    pub protocol: Http,
}

impl<I, S> Serve<I, S> {
    /// A reference to the incoming stream.
    pub fn incoming_ref(&self) -> (r: &I) {
        &self.incoming
    }
}

/// A deliberately unnameable completion token: a finished connection yields
/// one, and promises nothing else about it.
pub struct Opaque {
    _inner: (),
}

/// Builds the completion token.
pub fn opaque() -> (r: Opaque) {
    Opaque { _inner: () }
}

/// A sealing marker: the service alias below cannot be implemented outside
/// this crate.
pub trait Sealed {

}

/// A second sealing marker, for the hidden associated type of the alias.
pub trait Sealed2 {

}

impl Sealed for Opaque {

}

impl Sealed2 for Opaque {

}

} // verus!
