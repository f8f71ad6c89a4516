use simple_http_server::error::ParseError;
use simple_http_server::handler::Handler;
use simple_http_server::method::Method;
use simple_http_server::request::Request;
use simple_http_server::response::Response;
use simple_http_server::server::{respond, route, Route, Server, MAX_REQUEST_BYTES};
use simple_http_server::status::StatusCode;

struct Echo {
    root: String,
    seen: Vec<Vec<u8>>,
}

impl Handler for Echo {
    fn handle_request(&mut self, request: &Request) -> Response {
        self.seen.push(request.path().clone());
        Response::new(StatusCode::OK, Some(request.path().clone()))
    }

    fn public_path(&self) -> &String {
        &self.root
    }
}

struct Custom {
    root: String,
}

impl Handler for Custom {
    fn handle_request(&mut self, _request: &Request) -> Response {
        Response::new(StatusCode::OK, None)
    }

    fn handle_bad_request(&mut self, err: &ParseError) -> Response {
        Response::new(StatusCode::NotFound, Some(err.message().as_bytes().to_vec()))
    }

    fn public_path(&self) -> &String {
        &self.root
    }
}

fn echo() -> Echo {
    Echo { root: "public".to_string(), seen: Vec::new() }
}

#[test]
fn good_request_reaches_handler() {
    let mut h = echo();
    let r = route(b"GET /index.html HTTP/1.1\r\n\r\n");
    let bytes = respond(&mut h, &r).unwrap();
    assert_eq!(bytes, b"HTTP/1.1 200 OK\r\nContent-Length: 11\r\n\r\n/index.html".to_vec());
    assert_eq!(h.seen, vec![b"/index.html".to_vec()]);
}

#[test]
fn bad_request_gets_default_response() {
    let mut h = echo();
    let r = route(b"FOO /x BAR\r\n\r\n");
    assert!(matches!(r, Route::Reject(ParseError::InvalidMethod)));
    let bytes = respond(&mut h, &r).unwrap();
    assert_eq!(bytes, b"HTTP/1.1 400 Bad Request\r\nContent-Length: 0\r\n\r\n".to_vec());
    assert!(h.seen.is_empty());
}

#[test]
fn every_undecodable_input_gets_bad_request() {
    for input in [&b"x"[..], b"GET /\r\n\r\n", b"GET / HTTP/2\r\n\r\n", b"GET / HTTP/1.1\r\nbad\r\n\r\n"] {
        let mut h = echo();
        let bytes = respond(&mut h, &route(input)).unwrap();
        assert_eq!(bytes, b"HTTP/1.1 400 Bad Request\r\nContent-Length: 0\r\n\r\n".to_vec());
    }
}

#[test]
fn overridden_bad_request_is_used() {
    let mut h = Custom { root: "www".to_string() };
    let bytes = respond(&mut h, &route(b"GET / HTTP/1.1")).unwrap();
    assert_eq!(bytes, b"HTTP/1.1 404 Not Found\r\nContent-Length: 18\r\n\r\nIncomplete message".to_vec());
    assert_eq!(h.public_path(), "www");
}

#[test]
fn nothing_read_closes_without_answer() {
    let mut h = echo();
    let r = route(b"");
    assert!(matches!(r, Route::Close));
    assert_eq!(respond(&mut h, &r), None);
}

#[test]
fn request_line_split_at_boundary_is_incomplete() {
    let mut text = b"GET /".to_vec();
    text.extend(std::iter::repeat(b'a').take(MAX_REQUEST_BYTES));
    text.extend_from_slice(b" HTTP/1.1\r\n\r\n");
    assert!(matches!(route(&text), Route::Reject(ParseError::Incomplete)));
}

#[test]
fn bytes_past_the_window_are_ignored() {
    let head = b"GET /a HTTP/1.1\r\n\r\n";
    let mut text = head.to_vec();
    text.resize(MAX_REQUEST_BYTES, b'z');
    text.extend_from_slice(b"trailing garbage");
    match route(&text) {
        Route::Handle(r) => {
            assert_eq!(r.method(), Method::GET);
            assert_eq!(r.path(), &b"/a".to_vec());
        }
        _ => panic!("expected a request"),
    }
}

#[test]
fn body_cut_by_window_is_incomplete() {
    let head = b"POST /u HTTP/1.1\r\nContent-Length: 2000\r\n\r\n";
    let mut text = head.to_vec();
    text.resize(head.len() + 2000, b'b');
    assert!(matches!(route(&text), Route::Reject(ParseError::Incomplete)));
}

#[test]
fn request_filling_window_exactly_is_decoded() {
    let head = b"POST /u HTTP/1.1\r\nContent-Length: 983\r\n\r\n";
    assert_eq!(head.len() + 983, MAX_REQUEST_BYTES);
    let mut text = head.to_vec();
    text.resize(MAX_REQUEST_BYTES, b'b');
    match route(&text) {
        Route::Handle(r) => assert_eq!(r.body().as_ref().unwrap().len(), 983),
        _ => panic!("expected a request"),
    }
}

#[test]
fn server_keeps_address() {
    let s = Server::new("127.0.0.1:8080".to_string());
    assert_eq!(s.addr(), "127.0.0.1:8080");
}

#[test]
fn default_bad_request_ignores_the_error() {
    let mut h = echo();
    let r = h.handle_bad_request(&ParseError::InvalidMethod);
    assert_eq!(r.status_code(), StatusCode::BadRequest);
    assert_eq!(r.body(), &None);
    for err in [
        ParseError::Incomplete,
        ParseError::InvalidRequest,
        ParseError::InvalidProtocol,
        ParseError::InvalidHeader,
        ParseError::InvalidContentLength,
        ParseError::InvalidStatus,
    ] {
        let other = h.handle_bad_request(&err);
        assert_eq!(other.status_code(), r.status_code());
        assert_eq!(other.body(), r.body());
    }
    assert!(h.seen.is_empty());
    assert_eq!(h.public_path(), "public");
}
