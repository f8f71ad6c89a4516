//! Why a message could not be decoded.
use vstd::prelude::*;

verus! {

/// The reason decoding failed; no partial message is ever returned with it.
#[derive(Clone, Copy, Debug, PartialEq, Eq, Structural)]
pub enum ParseError {
    /// The bytes end before the message does: the start line or the header
    /// block is unterminated, or the body is shorter than its Content-Length.
    Incomplete,
    /// The request line is not `METHOD SP PATH SP VERSION`.
    InvalidRequest,
    /// The method token is not one the server recognises.
    InvalidMethod,
    /// The protocol token is not `HTTP/1.1`.
    InvalidProtocol,
    /// A header line is not `NAME ":" SP VALUE`.
    InvalidHeader,
    /// The Content-Length value is not a decimal number that fits in `usize`.
    InvalidContentLength,
    /// The status line of a response is not one of the known statuses.
    InvalidStatus,
}

pub open spec fn error_message(e: ParseError) -> Seq<char> {
    match e {
        ParseError::Incomplete => "Incomplete message"@,
        ParseError::InvalidRequest => "Invalid request"@,
        ParseError::InvalidMethod => "Invalid method"@,
        ParseError::InvalidProtocol => "Invalid protocol"@,
        ParseError::InvalidHeader => "Invalid header"@,
        ParseError::InvalidContentLength => "Invalid Content-Length"@,
        ParseError::InvalidStatus => "Invalid status line"@,
    }
}

impl ParseError {
    /// A human-readable description of the error.
    pub fn message(&self) -> (r: &'static str)
        ensures
            r@ == error_message(*self),
    {
        match self {
            ParseError::Incomplete => "Incomplete message",
            ParseError::InvalidRequest => "Invalid request",
            ParseError::InvalidMethod => "Invalid method",
            ParseError::InvalidProtocol => "Invalid protocol",
            ParseError::InvalidHeader => "Invalid header",
            ParseError::InvalidContentLength => "Invalid Content-Length",
            ParseError::InvalidStatus => "Invalid status line",
        }
    }
}

} // verus!
