//! The error kinds any operation of this library can report.
use vstd::prelude::*;

verus! {

/// Every failure a client operation can end in, as a closed enumeration.
///
/// Transport failures (`ConnectFailed`, `WriteFailed`, `ReadFailed`,
/// `NotConnected`, `AddressResolutionFailed`) are reported by the code that
/// drives a socket; parse failures are reported by the reply parser and the
/// body accessors. Nothing is retried and no partial reply is ever returned.
#[derive(Clone, Copy, Debug, PartialEq, Eq, Structural)]
pub enum HttpError {
    /// The host name resolved to no candidate address.
    AddressResolutionFailed,
    /// Opening the transport (or its TLS handshake) failed.
    ConnectFailed,
    /// An I/O error while writing the request.
    WriteFailed,
    /// An I/O error while reading the reply.
    ReadFailed,
    /// A reply was requested while no transport is open.
    NotConnected,
    /// The status line is not `<version> <code> <reason...>`.
    MalformedStatusLine,
    /// A header line holds no `": "` separator.
    MalformedHeaderLine,
    /// The reply declares no `Content-Length`.
    MissingContentLength,
    /// The declared `Content-Length` is not a non-negative integer in range.
    InvalidContentLength,
    /// The body bytes are not valid UTF-8.
    InvalidBodyEncoding,
}

} // verus!
