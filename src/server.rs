//! One connection at a time: what to do with the bytes a client sent, and
//! the address the server listens on.
use vstd::prelude::*;
use crate::error::ParseError;
use crate::handler::Handler;
use crate::lex::{crlf_at, find_crlf, lemma_find_crlf};
use crate::request::{decode_request, Request, RequestView};
use crate::response::response_wire;

verus! {

/// The most bytes read from a connection; anything after them is never seen.
pub const MAX_REQUEST_BYTES: usize = 1024;

/// The part of what a client sent that is decoded: at most the first
/// `MAX_REQUEST_BYTES` bytes.
pub open spec fn request_window(b: Seq<u8>) -> Seq<u8> {
    if b.len() > MAX_REQUEST_BYTES {
        b.take(MAX_REQUEST_BYTES as int)
    } else {
        b
    }
}

pub enum RouteView {
    Close,
    Handle(RequestView),
    Reject(ParseError),
}

/// What happens to a connection after its single read: nothing read closes
/// it, otherwise the window is decoded and goes to the handler either as a
/// request or as an error.
pub open spec fn route_of(b: Seq<u8>) -> RouteView {
    if b.len() == 0 {
        RouteView::Close
    } else {
        match decode_request(request_window(b)) {
            Ok(r) => RouteView::Handle(r),
            Err(e) => RouteView::Reject(e),
        }
    }
}

/// The decision taken for one connection.
#[derive(Debug)]
pub enum Route {
    /// Nothing was read: close without answering.
    Close,
    /// Pass the request to the handler.
    Handle(Request),
    /// Pass the decoding error to the handler's bad-request path.
    Reject(ParseError),
}

impl View for Route {
    type V = RouteView;

    open spec fn view(&self) -> RouteView {
        match self {
            Route::Close => RouteView::Close,
            Route::Handle(r) => RouteView::Handle(r@),
            Route::Reject(e) => RouteView::Reject(*e),
        }
    }
}

/// Decides what to do with the bytes read from a connection.
pub fn route(received: &[u8]) -> (r: Route)
    ensures
        r@ == route_of(received@),
{
    if received.len() == 0 {
        return Route::Close;
    }
    let window = if received.len() > MAX_REQUEST_BYTES {
        received.split_at(MAX_REQUEST_BYTES).0
    } else {
        received
    };
    assert(window@ == request_window(received@));
    match Request::parse(window) {
        Ok(r) => Route::Handle(r),
        Err(e) => Route::Reject(e),
    }
}

/// Asks the handler for the response that `route` calls for and serialises
/// it; `None` when the connection is to be closed unanswered.
pub fn respond<H: Handler>(handler: &mut H, route: &Route) -> (r: Option<Vec<u8>>)
    ensures
        r is None <==> route@ is Close,
        r is Some ==> exists|resp| r->0@ == response_wire(resp),
{
    let resp = match route {
        Route::Close => {
            return None;
        },
        Route::Handle(request) => handler.handle_request(request),
        Route::Reject(err) => handler.handle_bad_request(err),
    };
    let bytes = resp.to_bytes();
    assert(bytes@ == response_wire(resp@));
    Some(bytes)
}

/// Every connection whose bytes do not decode goes to the bad-request path,
/// with the decoding error; nothing that was read is answered as a request.
pub proof fn lemma_bad_request_guarantee(b: Seq<u8>)
    requires
        b.len() > 0,
        decode_request(request_window(b)) is Err,
    ensures
        route_of(b) == RouteView::Reject(decode_request(request_window(b))->Err_0),
{
}

/// Only the first `MAX_REQUEST_BYTES` bytes count: a longer input is routed
/// as its prefix is, and one whose request line does not end inside that
/// prefix is rejected as incomplete.
pub proof fn lemma_truncation_boundary(b: Seq<u8>)
    requires
        b.len() > MAX_REQUEST_BYTES,
    ensures
        route_of(b) == route_of(b.take(MAX_REQUEST_BYTES as int)),
        (forall|k: int| 0 <= k < MAX_REQUEST_BYTES - 1 ==> !crlf_at(b, k)) ==> route_of(b)
            == RouteView::Reject(ParseError::Incomplete),
{
    let w = b.take(MAX_REQUEST_BYTES as int);
    assert(request_window(w) == w);
    if forall|k: int| 0 <= k < MAX_REQUEST_BYTES - 1 ==> !crlf_at(b, k) {
        lemma_find_crlf(w, 0);
        if find_crlf(w, 0) is Some {
            let k = find_crlf(w, 0)->0 as int;
            assert(crlf_at(b, k));
        }
    }
}

/// A server bound to nothing yet: it only knows the address it will listen on.
pub struct Server {
    addr: String,
}

impl View for Server {
    type V = Seq<char>;

    closed spec fn view(&self) -> Seq<char> {
        self.addr@
    }
}

impl Server {
    pub fn new(addr: String) -> (r: Server)
        ensures
            r@ == addr@,
    {
        Server { addr }
    }

    /// The `host:port` address to listen on.
    pub fn addr(&self) -> (r: &String)
        ensures
            r@ == self@,
    {
        &self.addr
    }
}

} // verus!
