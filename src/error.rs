//! Errors of the library.

use vstd::prelude::*;

verus! {

/// What can go wrong when talking to the gateway or decoding its data.
#[derive(Debug, Clone, Copy, PartialEq, Eq, Structural)]
pub enum RazberryError {
    /// The gateway refused the session or the credentials.
    BadCredentials,
    /// The gateway's answer is not well-formed JSON, or it goes past what
    /// the parser can take (see `crate::scan::within_parser_limits`).
    ParseError,
    /// The gateway failed in some way of its own.
    ServerError,
    /// The request could not be made.
    ClientError,
    /// The gateway refused the request.
    BadRequest,
    /// A field that the decoding needs is missing or of the wrong type.
    BadResponse,
}

} // verus!
