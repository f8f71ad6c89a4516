//! Requests and their decoding from the bytes a client sent.
use vstd::prelude::*;
use crate::error::ParseError;
use crate::headers::{
    body_of, content_length_of, find_header, header_value, headers_view, parse_header_line, parse_headers, read_body,
    read_headers, valid_length, Header,
};
use crate::lex::{
    copy_range, decimal_value, find_byte, find_byte_in, find_crlf, find_crlf_in, lemma_find_byte,
    lemma_find_crlf, COLON, SP,
};
use crate::method::{method_of_token, Method};
use crate::status::{version_bytes, version_token};
use crate::lex::bytes_equal;

verus! {

/// A request as the model sees it.
pub struct RequestView {
    pub method: Method,
    pub path: Seq<u8>,
    pub version: Seq<u8>,
    pub headers: Seq<(Seq<u8>, Seq<u8>)>,
    pub body: Option<Seq<u8>>,
}

/// A decoded request; it cannot be changed once built.
#[derive(Debug)]
pub struct Request {
    method: Method,
    path: Vec<u8>,
    version: Vec<u8>,
    headers: Vec<Header>,
    body: Option<Vec<u8>>,
}

pub open spec fn opt_bytes_view(b: Option<Vec<u8>>) -> Option<Seq<u8>> {
    match b {
        Some(v) => Some(v@),
        None => None,
    }
}

impl View for Request {
    type V = RequestView;

    closed spec fn view(&self) -> RequestView {
        RequestView {
            method: self.method,
            path: self.path@,
            version: self.version@,
            headers: headers_view(self.headers@),
            body: opt_bytes_view(self.body),
        }
    }
}

/// Splits a request line into its method, path and version tokens: exactly
/// two spaces, and no token empty.
pub open spec fn split_request_line(line: Seq<u8>) -> Option<(Seq<u8>, Seq<u8>, Seq<u8>)> {
    match find_byte(line, SP, 0) {
        None => None,
        Some(i) => match find_byte(line, SP, i + 1) {
            None => None,
            Some(j) => if 0 < i && i + 1 < j && j + 1 < line.len() && find_byte(
                line,
                SP,
                j + 1,
            ) is None {
                Some(
                    (
                        line.subrange(0, i as int),
                        line.subrange(i + 1 as int, j as int),
                        line.subrange(j + 1 as int, line.len() as int),
                    ),
                )
            } else {
                None
            },
        },
    }
}

/// What the bytes `b` decode to: the request line up to the first CR LF,
/// then the header block, then the body that Content-Length announces.
pub open spec fn decode_request(b: Seq<u8>) -> Result<RequestView, ParseError> {
    match find_crlf(b, 0) {
        None => Err(ParseError::Incomplete),
        Some(e) => match split_request_line(b.subrange(0, e as int)) {
            None => Err(ParseError::InvalidRequest),
            Some((m, p, v)) => match method_of_token(m) {
                None => Err(ParseError::InvalidMethod),
                Some(method) => if v != version_token() {
                    Err(ParseError::InvalidProtocol)
                } else {
                    match parse_headers(b, e + 2) {
                        Err(err) => Err(err),
                        Ok((hs, end)) => match body_of(b, end, hs) {
                            Err(err) => Err(err),
                            Ok(body) => Ok(
                                RequestView { method, path: p, version: v, headers: hs, body },
                            ),
                        },
                    }
                },
            },
        },
    }
}

/// What every decoded request satisfies: a non-empty path without spaces,
/// the supported version, named headers, and a body exactly as long as its
/// Content-Length, present only with one.
pub open spec fn well_formed(r: RequestView) -> bool {
    &&& r.path.len() > 0
    &&& forall|i: int| 0 <= i < r.path.len() ==> r.path[i] != SP
    &&& r.version == version_token()
    &&& forall|i: int|
        0 <= i < r.headers.len() ==> (#[trigger] r.headers[i]).0.len() > 0 && forall|k: int|
            0 <= k < r.headers[i].0.len() ==> r.headers[i].0[k] != COLON
    &&& match content_length_of(r.headers) {
        None => r.body is None,
        Some(v) => valid_length(v) && r.body is Some && r.body->0.len() == decimal_value(v),
    }
}

impl Request {
    /// Decodes a request from the bytes a client sent.
    pub fn parse(b: &[u8]) -> (r: Result<Request, ParseError>)
        ensures
            match decode_request(b@) {
                Ok(v) => r is Ok && r->Ok_0@ == v,
                Err(e) => r == Err::<Request, ParseError>(e),
            },
    {
        let n = b.len();
        let e = match find_crlf_in(b, 0) {
            None => {
                return Err(ParseError::Incomplete);
            },
            Some(e) => e,
        };
        proof {
            lemma_find_crlf(b@, 0);
        }
        assert(e + 1 < n);
        let line = copy_range(b, 0, e);
        let (m, p, v) = match split_line(line.as_slice()) {
            None => {
                return Err(ParseError::InvalidRequest);
            },
            Some(t) => t,
        };
        let method = match Method::from_token(m.as_slice()) {
            None => {
                return Err(ParseError::InvalidMethod);
            },
            Some(method) => method,
        };
        let version = version_bytes();
        if !bytes_equal(v.as_slice(), version.as_slice()) {
            return Err(ParseError::InvalidProtocol);
        }
        let (headers, end) = match read_headers(b, e + 2) {
            Err(err) => {
                return Err(err);
            },
            Ok(x) => x,
        };
        proof {
            lemma_parse_headers_end(b@, (e + 2) as nat);
        }
        let body = match read_body(b, end, &headers) {
            Err(err) => {
                return Err(err);
            },
            Ok(body) => body,
        };
        let r = Request { method, path: p, version: v, headers, body };
        assert(r@ == decode_request(b@)->Ok_0);
        Ok(r)
    }

    pub fn method(&self) -> (r: Method)
        ensures
            r == self@.method,
    {
        self.method
    }

    pub fn path(&self) -> (r: &Vec<u8>)
        ensures
            r@ == self@.path,
    {
        &self.path
    }

    pub fn version(&self) -> (r: &Vec<u8>)
        ensures
            r@ == self@.version,
    {
        &self.version
    }

    pub fn headers(&self) -> (r: &Vec<Header>)
        ensures
            headers_view(r@) == self@.headers,
    {
        &self.headers
    }

    /// The value of the first header called `name`; names are compared
    /// exactly, case included.
    pub fn header(&self, name: &[u8]) -> (r: Option<&Vec<u8>>)
        ensures
            match header_value(self@.headers, name@) {
                Some(v) => r is Some && r->0@ == v,
                None => r is None,
            },
    {
        find_header(&self.headers, name)
    }

    pub fn body(&self) -> (r: &Option<Vec<u8>>)
        ensures
            opt_bytes_view(*r) == self@.body,
    {
        &self.body
    }
}

/// Splits a request line into its three tokens.
fn split_line(line: &[u8]) -> (r: Option<(Vec<u8>, Vec<u8>, Vec<u8>)>)
    ensures
        match split_request_line(line@) {
            Some((m, p, v)) => match r {
                Some((rm, rp, rv)) => rm@ == m && rp@ == p && rv@ == v,
                None => false,
            },
            None => r is None,
        },
{
    let n = line.len();
    proof {
        lemma_find_byte(line@, SP, 0);
    }
    let i = match find_byte_in(line, SP, 0) {
        None => {
            return None;
        },
        Some(i) => i,
    };
    assert(i < n);
    proof {
        lemma_find_byte(line@, SP, (i + 1) as nat);
    }
    let j = match find_byte_in(line, SP, i + 1) {
        None => {
            return None;
        },
        Some(j) => j,
    };
    assert(j < n);
    if 0 < i && i + 1 < j && j + 1 < n {
        if find_byte_in(line, SP, j + 1).is_some() {
            return None;
        }
        Some((copy_range(line, 0, i), copy_range(line, i + 1, j), copy_range(line, j + 1, n)))
    } else {
        None
    }
}

/// The header block ends inside the bytes it was read from.
pub proof fn lemma_parse_headers_end(b: Seq<u8>, pos: nat)
    ensures
        parse_headers(b, pos) is Ok ==> pos + 2 <= parse_headers(b, pos)->Ok_0.1 <= b.len(),
    decreases b.len() - pos,
{
    lemma_find_crlf(b, pos);
    match find_crlf(b, pos) {
        None => {},
        Some(e) => if e != pos {
            lemma_parse_headers_end(b, e + 2);
        },
    }
}

/// Every header that the block yields has a non-empty name without a colon.
proof fn lemma_parsed_header_names(b: Seq<u8>, pos: nat)
    ensures
        parse_headers(b, pos) is Ok ==> forall|i: int|
            0 <= i < parse_headers(b, pos)->Ok_0.0.len() ==> (#[trigger] parse_headers(
                b,
                pos,
            )->Ok_0.0[i]).0.len() > 0 && forall|k: int|
                0 <= k < parse_headers(b, pos)->Ok_0.0[i].0.len() ==> parse_headers(
                    b,
                    pos,
                )->Ok_0.0[i].0[k] != COLON,
    decreases b.len() - pos,
{
    lemma_find_crlf(b, pos);
    match find_crlf(b, pos) {
        None => {},
        Some(e) => if e != pos {
            let line = b.subrange(pos as int, e as int);
            lemma_find_byte(line, COLON, 0);
            lemma_parsed_header_names(b, e + 2);
            match parse_header_line(line) {
                None => {},
                Some(h) => {
                    match parse_headers(b, e + 2) {
                        Ok((rest, end)) => {
                            let hs = seq![h] + rest;
                            assert forall|i: int| 0 <= i < hs.len() implies (#[trigger] hs[i]).0.len()
                                > 0 && forall|k: int|
                                0 <= k < hs[i].0.len() ==> hs[i].0[k] != COLON by {
                                if i > 0 {
                                    assert(hs[i] == rest[i - 1]);
                                }
                            }
                        },
                        Err(_) => {},
                    }
                },
            }
        },
    }
}

/// Decoding is total and never yields a partial request: on any bytes it gives
/// either a well-formed request or an error.
pub proof fn lemma_decode_well_formed(b: Seq<u8>)
    ensures
        decode_request(b) is Ok ==> well_formed(decode_request(b)->Ok_0),
{
    lemma_find_crlf(b, 0);
    match find_crlf(b, 0) {
        None => {},
        Some(e) => {
            let line = b.subrange(0, e as int);
            lemma_find_byte(line, SP, 0);
            match find_byte(line, SP, 0) {
                None => {},
                Some(i) => {
                    lemma_find_byte(line, SP, i + 1);
                },
            }
            lemma_parsed_header_names(b, e + 2);
            if decode_request(b) is Ok {
                let r = decode_request(b)->Ok_0;
                let i = find_byte(line, SP, 0)->0;
                let j = find_byte(line, SP, i + 1)->0;
                assert forall|k: int| 0 <= k < r.path.len() implies r.path[k] != SP by {
                    assert(r.path[k] == line[i + 1 + k]);
                }
            }
        },
    }
}

} // verus!
