//! A verified HTTP/1 message engine: wire codec (head parser and serializer,
//! body decoders and encoders), a per-connection state machine, a dispatcher
//! that couples the two directions of one connection, and a keyed idle pool
//! for client-side connection reuse.
//!
//! All wire logic works on plain byte vectors; the sockets, clocks and
//! schedulers that feed bytes in and out live outside this crate.

pub mod ascii;
pub mod buffer;
pub mod client;
pub mod error;
pub mod header;
pub mod http;
pub mod method;
pub mod numerals;
pub mod proto;
pub mod server;
pub mod status;
pub mod uri;
pub mod version;

use vstd::prelude::*;

verus! {

/// Most fallible operations in the engine report an [`error::HttpError`].
pub type HttpResult<T> = Result<T, crate::error::HttpError>;

} // verus!
