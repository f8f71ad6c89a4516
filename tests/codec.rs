use simple_http_server::error::ParseError;
use simple_http_server::headers::Header;
use simple_http_server::method::Method;
use simple_http_server::request::Request;
use simple_http_server::response::Response;
use simple_http_server::status::StatusCode;

fn header(name: &str, value: &str) -> (Vec<u8>, Vec<u8>) {
    (name.as_bytes().to_vec(), value.as_bytes().to_vec())
}

fn pairs(hs: &[Header]) -> Vec<(Vec<u8>, Vec<u8>)> {
    hs.iter().map(|h| (h.name.clone(), h.value.clone())).collect()
}

#[test]
fn decodes_simple_get() {
    let r = Request::parse(b"GET /index.html HTTP/1.1\r\n\r\n").unwrap();
    assert_eq!(r.method(), Method::GET);
    assert_eq!(r.path(), &b"/index.html".to_vec());
    assert_eq!(r.version(), &b"HTTP/1.1".to_vec());
    assert!(r.headers().is_empty());
    assert_eq!(r.body(), &None);
}

#[test]
fn unknown_method_is_rejected() {
    assert_eq!(Request::parse(b"FOO /x BAR\r\n\r\n").unwrap_err(), ParseError::InvalidMethod);
}

#[test]
fn every_method_token_decodes() {
    let cases = [
        ("GET", Method::GET),
        ("DELETE", Method::DELETE),
        ("POST", Method::POST),
        ("PUT", Method::PUT),
        ("HEAD", Method::HEAD),
        ("CONNECT", Method::CONNECT),
        ("OPTIONS", Method::OPTIONS),
        ("TRACE", Method::TRACE),
        ("PATCH", Method::PATCH),
    ];
    for (token, m) in cases {
        let text = format!("{} / HTTP/1.1\r\n\r\n", token);
        assert_eq!(Request::parse(text.as_bytes()).unwrap().method(), m);
        assert_eq!(m.token(), token.as_bytes().to_vec());
        assert_eq!(Method::from_token(token.as_bytes()), Some(m));
    }
    assert_eq!(Method::from_token(b"get"), None);
    assert_eq!(Method::from_token(b""), None);
}

#[test]
fn headers_and_body_are_decoded() {
    let r = Request::parse(b"POST /form HTTP/1.1\r\nHost: example\r\nContent-Length: 5\r\n\r\nhelloEXTRA")
        .unwrap();
    assert_eq!(r.method(), Method::POST);
    assert_eq!(
        pairs(r.headers()),
        vec![header("Host", "example"), header("Content-Length", "5")]
    );
    assert_eq!(r.body(), &Some(b"hello".to_vec()));
}

#[test]
fn header_names_are_case_sensitive() {
    let r = Request::parse(b"GET / HTTP/1.1\r\ncontent-length: 3\r\n\r\nabc").unwrap();
    assert_eq!(r.body(), &None);
    assert_eq!(pairs(r.headers()), vec![header("content-length", "3")]);
}

#[test]
fn zero_content_length_gives_empty_body() {
    let r = Request::parse(b"PUT /a HTTP/1.1\r\nContent-Length: 0\r\n\r\n").unwrap();
    assert_eq!(r.body(), &Some(Vec::new()));
}

#[test]
fn empty_header_value_is_accepted() {
    let r = Request::parse(b"GET / HTTP/1.1\r\nX-Empty: \r\n\r\n").unwrap();
    assert_eq!(pairs(r.headers()), vec![header("X-Empty", "")]);
}

#[test]
fn missing_terminator_is_incomplete() {
    assert_eq!(Request::parse(b"").unwrap_err(), ParseError::Incomplete);
    assert_eq!(Request::parse(b"GET / HTTP/1.1").unwrap_err(), ParseError::Incomplete);
    assert_eq!(Request::parse(b"GET / HTTP/1.1\r\nHost: a\r\n").unwrap_err(), ParseError::Incomplete);
}

#[test]
fn short_body_is_incomplete() {
    assert_eq!(
        Request::parse(b"POST / HTTP/1.1\r\nContent-Length: 10\r\n\r\nabc").unwrap_err(),
        ParseError::Incomplete
    );
}

#[test]
fn malformed_request_lines_are_rejected() {
    for line in [
        &b"GET /index.html\r\n\r\n"[..],
        b"GET  / HTTP/1.1\r\n\r\n",
        b" GET / HTTP/1.1\r\n\r\n",
        b"GET / HTTP/1.1 \r\n\r\n",
        b"GET / HTTP/1.1 extra\r\n\r\n",
        b"\r\n\r\n",
    ] {
        assert_eq!(Request::parse(line).unwrap_err(), ParseError::InvalidRequest);
    }
}

#[test]
fn wrong_protocol_is_rejected() {
    assert_eq!(Request::parse(b"GET / HTTP/1.0\r\n\r\n").unwrap_err(), ParseError::InvalidProtocol);
    assert_eq!(Request::parse(b"GET / BAR\r\n\r\n").unwrap_err(), ParseError::InvalidProtocol);
}

#[test]
fn malformed_headers_are_rejected() {
    for text in [
        &b"GET / HTTP/1.1\r\nNoColon\r\n\r\n"[..],
        b"GET / HTTP/1.1\r\n: value\r\n\r\n",
        b"GET / HTTP/1.1\r\nName:value\r\n\r\n",
        b"GET / HTTP/1.1\r\nName:\r\n\r\n",
    ] {
        assert_eq!(Request::parse(text).unwrap_err(), ParseError::InvalidHeader);
    }
}

#[test]
fn bad_content_length_is_rejected() {
    for text in [
        &b"POST / HTTP/1.1\r\nContent-Length: abc\r\n\r\n"[..],
        b"POST / HTTP/1.1\r\nContent-Length: \r\n\r\n",
        b"POST / HTTP/1.1\r\nContent-Length: -1\r\n\r\n",
        b"POST / HTTP/1.1\r\nContent-Length: 99999999999999999999999\r\n\r\n",
    ] {
        assert_eq!(Request::parse(text).unwrap_err(), ParseError::InvalidContentLength);
    }
}

#[test]
fn first_content_length_counts() {
    let r = Request::parse(b"POST / HTTP/1.1\r\nContent-Length: 2\r\nContent-Length: 4\r\n\r\nabcd")
        .unwrap();
    assert_eq!(r.body(), &Some(b"ab".to_vec()));
}

#[test]
fn encodes_response_with_body() {
    let r = Response::new(StatusCode::OK, Some(b"hello".to_vec()));
    assert_eq!(r.to_bytes(), b"HTTP/1.1 200 OK\r\nContent-Length: 5\r\n\r\nhello".to_vec());
}

#[test]
fn encodes_response_without_body() {
    let r = Response::new(StatusCode::NotFound, None);
    assert_eq!(r.to_bytes(), b"HTTP/1.1 404 Not Found\r\nContent-Length: 0\r\n\r\n".to_vec());
    let r = Response::new(StatusCode::BadRequest, None);
    assert_eq!(r.to_bytes(), b"HTTP/1.1 400 Bad Request\r\nContent-Length: 0\r\n\r\n".to_vec());
}

#[test]
fn content_length_counts_bytes() {
    let body = vec![b'x'; 1234];
    let bytes = Response::new(StatusCode::OK, Some(body.clone())).to_bytes();
    let head = b"HTTP/1.1 200 OK\r\nContent-Length: 1234\r\n\r\n";
    assert_eq!(&bytes[..head.len()], &head[..]);
    assert_eq!(&bytes[head.len()..], &body[..]);
}

#[test]
fn response_round_trip() {
    for (status, body) in [
        (StatusCode::OK, Some(b"line one\r\n\r\nline two".to_vec())),
        (StatusCode::NotFound, None),
        (StatusCode::BadRequest, Some(vec![0u8, 13, 10, 255])),
    ] {
        let sent = Response::new(status, body.clone());
        let decoded = Response::parse(&sent.to_bytes()).unwrap();
        assert_eq!(decoded.status_code(), status);
        assert_eq!(decoded.body(), &body);
    }
}

#[test]
fn empty_body_round_trips_as_absent() {
    let sent = Response::new(StatusCode::OK, Some(Vec::new()));
    let decoded = Response::parse(&sent.to_bytes()).unwrap();
    assert_eq!(decoded.body(), &None);
}

#[test]
fn response_decoding_errors() {
    assert_eq!(Response::parse(b"HTTP/1.1 200 OK").unwrap_err(), ParseError::Incomplete);
    assert_eq!(
        Response::parse(b"HTTP/1.1 201 Created\r\nContent-Length: 0\r\n\r\n").unwrap_err(),
        ParseError::InvalidStatus
    );
    assert_eq!(
        Response::parse(b"HTTP/1.1 200 OK\r\nContent-Length: 3\r\n\r\nab").unwrap_err(),
        ParseError::Incomplete
    );
}

#[test]
fn status_codes_and_reasons() {
    assert_eq!(StatusCode::OK.code(), 200);
    assert_eq!(StatusCode::BadRequest.code(), 400);
    assert_eq!(StatusCode::NotFound.code(), 404);
    assert_eq!(StatusCode::BadRequest.reason(), b"Bad Request".to_vec());
    assert_eq!(StatusCode::NotFound.line(), b"HTTP/1.1 404 Not Found".to_vec());
    assert_eq!(StatusCode::from_line(b"HTTP/1.1 200 OK"), Some(StatusCode::OK));
    assert_eq!(StatusCode::from_line(b"HTTP/1.1 200 Ok"), None);
}

#[test]
fn error_messages() {
    assert_eq!(ParseError::InvalidMethod.message(), "Invalid method");
    assert_eq!(ParseError::Incomplete.message(), "Incomplete message");
}

#[test]
fn header_lookup_takes_first_exact_name() {
    let r = Request::parse(b"GET / HTTP/1.1\r\nHost: one\r\nhost: two\r\nHost: three\r\n\r\n").unwrap();
    assert_eq!(r.header(b"Host"), Some(&b"one".to_vec()));
    assert_eq!(r.header(b"host"), Some(&b"two".to_vec()));
    assert_eq!(r.header(b"Accept"), None);
}
