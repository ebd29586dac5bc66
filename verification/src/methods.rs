//! The HTTP request methods and their fixed wire tokens.
use vstd::prelude::*;
use vstd::utf8::encode_utf8;

verus! {

/// Supported HTTP methods
#[derive(Clone, Copy, Debug, PartialEq, Eq, Structural)]
pub enum Method {
    GET,
    POST,
    PUT,
    DELETE,
    HEAD,
    TRACE,
    OPTIONS,
    PATCH,
    CONNECT,
}

/// The fixed uppercase wire token of a method.
pub open spec fn method_token(m: Method) -> Seq<char> {
    match m {
        Method::GET => "GET"@,
        Method::POST => "POST"@,
        Method::PUT => "PUT"@,
        Method::DELETE => "DELETE"@,
        Method::HEAD => "HEAD"@,
        Method::TRACE => "TRACE"@,
        Method::OPTIONS => "OPTIONS"@,
        Method::PATCH => "PATCH"@,
        Method::CONNECT => "CONNECT"@,
    }
}

impl Method {
    /// The method's name as a static string: exactly its wire token.
    pub fn as_slice(&self) -> (r: &'static str)
        ensures
            r@ == method_token(*self),
    {
        match *self {
            Method::GET => "GET",
            Method::POST => "POST",
            Method::PUT => "PUT",
            Method::DELETE => "DELETE",
            Method::HEAD => "HEAD",
            Method::TRACE => "TRACE",
            Method::OPTIONS => "OPTIONS",
            Method::PATCH => "PATCH",
            Method::CONNECT => "CONNECT",
        }
    }

    /// The method's name as the bytes written on the wire.
    pub fn as_bytes(&self) -> (r: &'static [u8])
        ensures
            r@ == encode_utf8(method_token(*self)),
    {
        self.as_slice().as_bytes()
    }
}

} // verus!
