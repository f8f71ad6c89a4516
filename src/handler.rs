//! The capability that turns requests into responses.
use vstd::prelude::*;
use crate::error::ParseError;
use crate::request::Request;
use crate::response::{Response, ResponseView};
use crate::status::StatusCode;

verus! {

/// The response that answers a request which could not be decoded, unless a
/// handler chooses otherwise.
pub open spec fn bad_request_view() -> ResponseView {
    ResponseView { status: StatusCode::BadRequest, body: None }
}

/// A `400 Bad Request` response without a body.
pub fn bad_request_response() -> (r: Response)
    ensures
        r@ == bad_request_view(),
{
    Response::new(StatusCode::BadRequest, None)
}

/// Produces a response for each request; any type with these operations can
/// be attached to a server.
pub trait Handler: Sized {
    /// Answers a request that decoded.
    fn handle_request(&mut self, request: &Request) -> Response;

    /// Answers bytes that did not decode; by default with a bare
    /// `400 Bad Request`, whatever the error, leaving the handler unchanged.
    fn handle_bad_request(&mut self, err: &ParseError) -> (r: Response)
        default_ensures
            r@ == bad_request_view(),
            *final(self) == *old(self),
    {
        let _ = err;
        bad_request_response()
    }

    /// The directory the handler serves from, for the startup message.
    fn public_path(&self) -> &String;
}

} // verus!
