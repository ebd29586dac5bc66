//! A minimal client-side implementation of the HTTP/1.x wire protocol:
//! request-line and header serialization, and reply parsing (status line,
//! header map, and a `Content-Length`-delimited body reader).
//!
//! The protocol logic is transport-agnostic: it maps plain values (strings,
//! byte vectors) to the bytes that go over the wire and back, and leaves
//! sockets and TLS to the caller.
use vstd::prelude::*;

pub mod client;
pub mod errors;
pub mod headers;
pub mod messages;
pub mod request;
pub mod methods;
pub mod wire;

verus! {

/// The protocols a client can speak; the secure variant layers TLS over the
/// plain byte stream.
pub enum Protocol {
    /// Unsecured HTTP
    HTTP,
    /// HTTP over TLS
    HTTPS,
}

} // verus!
