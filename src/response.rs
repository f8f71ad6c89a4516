//! Responses: a status and an optional body, serialised with a single
//! Content-Length header computed from the body.
use vstd::prelude::*;
use crate::error::ParseError;
use crate::headers::{
    body_of, content_length_bytes, content_length_name, content_length_of, parse_header_line,
    parse_headers, read_body, read_headers, valid_length,
};
use crate::lex::{
    crlf_at, decimal_value, decimal_text, lemma_decimal_text, lemma_find_byte_at,
    lemma_find_crlf_at, find_crlf, find_crlf_in, lemma_find_crlf, copy_range, push_bytes,
    push_decimal, COLON, CR, LF, SP,
};
use crate::request::opt_bytes_view;
use crate::request::lemma_parse_headers_end;
use crate::status::{
    lemma_status_line_plain, lemma_status_lines_distinct, status_line, status_of_line, StatusCode,
};

verus! {

/// A response as the model sees it.
pub struct ResponseView {
    pub status: StatusCode,
    pub body: Option<Seq<u8>>,
}

/// A response for one connection.
#[derive(Debug)]
pub struct Response {
    status_code: StatusCode,
    body: Option<Vec<u8>>,
}

impl View for Response {
    type V = ResponseView;

    closed spec fn view(&self) -> ResponseView {
        ResponseView { status: self.status_code, body: opt_bytes_view(self.body) }
    }
}

/// The body's bytes; none when it is absent.
pub open spec fn body_bytes(r: ResponseView) -> Seq<u8> {
    match r.body {
        Some(b) => b,
        None => seq![],
    }
}

pub open spec fn crlf() -> Seq<u8> {
    seq![CR, LF]
}

/// The header line `Content-Length: <n>`, without its terminator.
pub open spec fn content_length_line(n: nat) -> Seq<u8> {
    content_length_name() + seq![COLON, SP] + decimal_text(n)
}

/// The bytes that carry `r`: status line, the Content-Length header, an
/// empty line, then the body.
pub open spec fn response_wire(r: ResponseView) -> Seq<u8> {
    status_line(r.status) + crlf() + content_length_line(body_bytes(r).len()) + crlf() + crlf()
        + body_bytes(r)
}

/// What the bytes `b` decode to as a response: a known status line, a
/// header block, and the body that Content-Length announces; an empty body
/// reads as absent.
pub open spec fn decode_response(b: Seq<u8>) -> Result<ResponseView, ParseError> {
    match find_crlf(b, 0) {
        None => Err(ParseError::Incomplete),
        Some(e) => match status_of_line(b.subrange(0, e as int)) {
            None => Err(ParseError::InvalidStatus),
            Some(status) => match parse_headers(b, e + 2) {
                Err(err) => Err(err),
                Ok((hs, end)) => match body_of(b, end, hs) {
                    Err(err) => Err(err),
                    Ok(body) => Ok(
                        ResponseView {
                            status,
                            body: match body {
                                Some(x) => if x.len() == 0 {
                                    None
                                } else {
                                    Some(x)
                                },
                                None => None,
                            },
                        },
                    ),
                },
            },
        },
    }
}

impl Response {
    pub fn new(status_code: StatusCode, body: Option<Vec<u8>>) -> (r: Response)
        ensures
            r@.status == status_code,
            r@.body == opt_bytes_view(body),
    {
        Response { status_code, body }
    }

    pub fn status_code(&self) -> (r: StatusCode)
        ensures
            r == self@.status,
    {
        self.status_code
    }

    pub fn body(&self) -> (r: &Option<Vec<u8>>)
        ensures
            opt_bytes_view(*r) == self@.body,
    {
        &self.body
    }

    /// The bytes to send for this response.
    pub fn to_bytes(&self) -> (r: Vec<u8>)
        ensures
            r@ == response_wire(self@),
    {
        let mut out = self.status_code.line();
        out.push(CR);
        out.push(LF);
        let name = content_length_bytes();
        push_bytes(&mut out, name.as_slice());
        out.push(COLON);
        out.push(SP);
        let len = match &self.body {
            Some(b) => b.len(),
            None => 0,
        };
        push_decimal(&mut out, len);
        out.push(CR);
        out.push(LF);
        out.push(CR);
        out.push(LF);
        match &self.body {
            Some(b) => push_bytes(&mut out, b.as_slice()),
            None => {},
        }
        assert(out@ =~= response_wire(self@));
        out
    }

    /// Decodes a response from bytes.
    pub fn parse(b: &[u8]) -> (r: Result<Response, ParseError>)
        ensures
            match decode_response(b@) {
                Ok(v) => r is Ok && r->Ok_0@ == v,
                Err(e) => r == Err::<Response, ParseError>(e),
            },
    {
        let n = b.len();
        let e = match find_crlf_in(b, 0) {
            None => {
                return Err(ParseError::Incomplete);
            },
            Some(e) => e,
        };
        proof {
            lemma_find_crlf(b@, 0);
        }
        assert(e + 1 < n);
        let line = copy_range(b, 0, e);
        let status_code = match StatusCode::from_line(line.as_slice()) {
            None => {
                return Err(ParseError::InvalidStatus);
            },
            Some(s) => s,
        };
        let (headers, end) = match read_headers(b, e + 2) {
            Err(err) => {
                return Err(err);
            },
            Ok(x) => x,
        };
        proof {
            lemma_parse_headers_end(b@, (e + 2) as nat);
        }
        let body = match read_body(b, end, &headers) {
            Err(err) => {
                return Err(err);
            },
            Ok(Some(x)) => if x.len() == 0 {
                None
            } else {
                Some(x)
            },
            Ok(None) => None,
        };
        Ok(Response { status_code, body })
    }
}

/// The length that the Content-Length header of a response announces.
pub open spec fn announced_length(b: Seq<u8>) -> Option<nat> {
    match find_crlf(b, 0) {
        None => None,
        Some(e) => match parse_headers(b, e + 2) {
            Err(_) => None,
            Ok((hs, _)) => match content_length_of(hs) {
                Some(v) => if valid_length(v) {
                    Some(decimal_value(v))
                } else {
                    None
                },
                None => None,
            },
        },
    }
}

/// Decoding the encoding of a response gives back its status and its body
/// bytes, and the Content-Length it carries is exactly the body's length
/// (zero without a body).
pub proof fn lemma_round_trip(r: ResponseView)
    requires
        body_bytes(r).len() <= usize::MAX,
    ensures
        decode_response(response_wire(r)) is Ok,
        decode_response(response_wire(r))->Ok_0.status == r.status,
        body_bytes(decode_response(response_wire(r))->Ok_0) == body_bytes(r),
        announced_length(response_wire(r)) == Some(body_bytes(r).len()),
{
    let w = response_wire(r);
    let l = status_line(r.status);
    let body = body_bytes(r);
    let n = body.len();
    let d = decimal_text(n);
    let h = content_length_line(n);
    let name = content_length_name();
    let a: int = l.len() as int;
    let b0: int = a + 2;
    let c: int = b0 + h.len();
    lemma_status_line_plain(r.status);
    lemma_status_lines_distinct();
    lemma_decimal_text(n);
    assert(w.subrange(0, a) =~= l);
    assert(w.subrange(b0, c) =~= h);
    assert(w.subrange(c + 4, w.len() as int) =~= body);
    assert(w.len() == c + 4 + n);
    assert(crlf_at(w, a));
    assert(crlf_at(w, c));
    assert(crlf_at(w, c + 2));
    assert forall|k: int| 0 <= k < a implies !crlf_at(w, k) by {
        assert(w[k] == w.subrange(0, a)[k]);
    }
    lemma_find_crlf_at(w, 0, a as nat);
    assert forall|k: int| 0 <= k < h.len() implies h[k] != CR by {
        if k >= name.len() + 2 {
            assert(h[k] == d[k - name.len() - 2]);
        }
    }
    assert forall|k: int| b0 <= k < c implies !crlf_at(w, k) by {
        assert(w[k] == h[k - b0]);
    }
    lemma_find_crlf_at(w, b0 as nat, c as nat);
    assert(find_crlf(w, (c + 2) as nat) == Some((c + 2) as nat));
    assert(parse_headers(w, (c + 2) as nat) == Ok::<(Seq<(Seq<u8>, Seq<u8>)>, nat), ParseError>(
        (seq![], (c + 4) as nat),
    ));
    lemma_find_byte_at(h, COLON, 0, name.len());
    assert(h.subrange(0, name.len() as int) =~= name);
    assert(h.subrange(name.len() + 2 as int, h.len() as int) =~= d);
    assert(parse_header_line(h) == Some((name, d)));
    let hs = seq![(name, d)];
    assert(seq![(name, d)] + seq![] =~= hs);
    assert(parse_headers(w, b0 as nat) == Ok::<(Seq<(Seq<u8>, Seq<u8>)>, nat), ParseError>(
        (hs, (c + 4) as nat),
    ));
    assert(content_length_of(hs) == Some(d));
    assert(w.subrange(c + 4, c + 4 + n as int) =~= body);
}

} // verus!
