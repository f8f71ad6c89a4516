//! The header block shared by requests and responses: `NAME ": " VALUE`
//! lines up to an empty line, and the body that Content-Length delimits.
use vstd::prelude::*;
use crate::error::ParseError;
use crate::lex::{
    all_digits, bytes_equal, copy_range, decimal_value, find_byte, find_byte_in, find_crlf,
    find_crlf_in, lemma_find_crlf, parse_decimal, COLON, SP,
};

verus! {

/// One header line, as received; names are case-sensitive.
#[derive(Debug)]
pub struct Header {
    pub name: Vec<u8>,
    pub value: Vec<u8>,
}

impl View for Header {
    type V = (Seq<u8>, Seq<u8>);

    open spec fn view(&self) -> (Seq<u8>, Seq<u8>) {
        (self.name@, self.value@)
    }
}

pub open spec fn headers_view(hs: Seq<Header>) -> Seq<(Seq<u8>, Seq<u8>)> {
    hs.map_values(|h: Header| h@)
}

/// The name of the header that gives the body's length.
pub open spec fn content_length_name() -> Seq<u8> {
    seq![
        'C' as u8, 'o' as u8, 'n' as u8, 't' as u8, 'e' as u8, 'n' as u8, 't' as u8, '-' as u8,
        'L' as u8, 'e' as u8, 'n' as u8, 'g' as u8, 't' as u8, 'h' as u8,
    ]
}

/// The name `Content-Length`, as bytes.
pub fn content_length_bytes() -> (r: Vec<u8>)
    ensures
        r@ == content_length_name(),
{
    let r = vec![
        'C' as u8, 'o' as u8, 'n' as u8, 't' as u8, 'e' as u8, 'n' as u8, 't' as u8, '-' as u8,
        'L' as u8, 'e' as u8, 'n' as u8, 'g' as u8, 't' as u8, 'h' as u8,
    ];
    assert(r@ =~= content_length_name());
    r
}

/// Splits a header line at its first colon, which must be preceded by a
/// non-empty name and followed by a space.
pub open spec fn parse_header_line(line: Seq<u8>) -> Option<(Seq<u8>, Seq<u8>)> {
    match find_byte(line, COLON, 0) {
        None => None,
        Some(i) => if 0 < i && i + 1 < line.len() && line[i + 1 as int] == SP {
            Some((line.subrange(0, i as int), line.subrange(i + 2 as int, line.len() as int)))
        } else {
            None
        },
    }
}

/// The header lines from `pos` up to the empty line that ends them, and the
/// position just after that empty line.
pub open spec fn parse_headers(b: Seq<u8>, pos: nat) -> Result<
    (Seq<(Seq<u8>, Seq<u8>)>, nat),
    ParseError,
>
    decreases b.len() - pos,
    via parse_headers_decreases
{
    match find_crlf(b, pos) {
        None => Err(ParseError::Incomplete),
        Some(e) => if e == pos {
            Ok((seq![], pos + 2))
        } else {
            match parse_header_line(b.subrange(pos as int, e as int)) {
                None => Err(ParseError::InvalidHeader),
                Some(h) => match parse_headers(b, e + 2) {
                    Ok((rest, end)) => Ok((seq![h] + rest, end)),
                    Err(err) => Err(err),
                },
            }
        },
    }
}

#[via_fn]
proof fn parse_headers_decreases(b: Seq<u8>, pos: nat) {
    lemma_find_crlf(b, pos);
}

/// The value of the first header called `name`.
pub open spec fn header_value(hs: Seq<(Seq<u8>, Seq<u8>)>, name: Seq<u8>) -> Option<Seq<u8>>
    decreases hs.len(),
{
    if hs.len() == 0 {
        None
    } else if hs[0].0 == name {
        Some(hs[0].1)
    } else {
        header_value(hs.drop_first(), name)
    }
}

/// The value of the first header named Content-Length.
pub open spec fn content_length_of(hs: Seq<(Seq<u8>, Seq<u8>)>) -> Option<Seq<u8>> {
    header_value(hs, content_length_name())
}

/// Whether a Content-Length value is acceptable: digits only, fitting `usize`.
pub open spec fn valid_length(v: Seq<u8>) -> bool {
    v.len() > 0 && all_digits(v) && decimal_value(v) <= usize::MAX
}

/// The body that follows a header block ending at `end`: absent without a
/// Content-Length header, else exactly that many bytes.
pub open spec fn body_of(b: Seq<u8>, end: nat, hs: Seq<(Seq<u8>, Seq<u8>)>) -> Result<
    Option<Seq<u8>>,
    ParseError,
> {
    match content_length_of(hs) {
        None => Ok(None),
        Some(v) => if !valid_length(v) {
            Err(ParseError::InvalidContentLength)
        } else if end + decimal_value(v) > b.len() {
            Err(ParseError::Incomplete)
        } else {
            Ok(Some(b.subrange(end as int, (end + decimal_value(v)) as int)))
        },
    }
}

/// Parses one header line.
pub fn header_from_line(line: &[u8]) -> (r: Option<Header>)
    ensures
        match parse_header_line(line@) {
            Some(h) => r is Some && r->0@ == h,
            None => r is None,
        },
{
    proof {
        crate::lex::lemma_find_byte(line@, COLON, 0);
    }
    match find_byte_in(line, COLON, 0) {
        None => None,
        Some(i) => {
            assert(find_byte(line@, COLON, 0) == Some(i as nat));
            let n = line.len();
            assert(i < n);
            if 0 < i && i + 1 < n && line[i + 1] == SP {
                let name = copy_range(line, 0, i);
                let value = copy_range(line, i + 2, line.len());
                Some(Header { name, value })
            } else {
                None
            }
        },
    }
}

/// Parses the header lines of `b` from `start`; on success also returns the
/// position just after the empty line that ends them.
pub fn read_headers(b: &[u8], start: usize) -> (r: Result<(Vec<Header>, usize), ParseError>)
    requires
        start <= b@.len(),
    ensures
        match parse_headers(b@, start as nat) {
            Ok((hs, end)) => r is Ok && headers_view(r->Ok_0.0@) == hs && r->Ok_0.1 == end,
            Err(e) => r == Err::<(Vec<Header>, usize), ParseError>(e),
        },
{
    let mut hs: Vec<Header> = Vec::new();
    let mut pos: usize = start;
    let n = b.len();
    loop
        invariant
            start <= pos <= b@.len(),
            n == b@.len(),
            parse_headers(b@, start as nat) == match parse_headers(b@, pos as nat) {
                Ok((rest, end)) => Ok((headers_view(hs@) + rest, end)),
                Err(e) => Err(e),
            },
        decreases b@.len() - pos,
    {
        proof {
            lemma_find_crlf(b@, pos as nat);
        }
        match find_crlf_in(b, pos) {
            None => {
                return Err(ParseError::Incomplete);
            },
            Some(e) => {
                assert(find_crlf(b@, pos as nat) == Some(e as nat));
                assert(crate::lex::crlf_at(b@, e as int));
                assert(e + 1 < n);
                if e == pos {
                    assert(headers_view(hs@) + seq![] =~= headers_view(hs@));
                    return Ok((hs, pos + 2));
                }
                let line = copy_range(b, pos, e);
                match header_from_line(line.as_slice()) {
                    None => {
                        return Err(ParseError::InvalidHeader);
                    },
                    Some(h) => {
                        let ghost old_hs = hs@;
                        hs.push(h);
                        proof {
                            assert(headers_view(hs@) =~= headers_view(old_hs) + seq![h@]);
                            match parse_headers(b@, (e + 2) as nat) {
                                Ok((rest, end)) => {
                                    assert(headers_view(old_hs) + (seq![h@] + rest)
                                        =~= headers_view(hs@) + rest);
                                },
                                Err(_) => {},
                            }
                        }
                        pos = e + 2;
                    },
                }
            },
        }
    }
}

/// Finds the value of the first header called `name`.
pub fn find_header<'a>(hs: &'a Vec<Header>, name: &[u8]) -> (r: Option<&'a Vec<u8>>)
    ensures
        match header_value(headers_view(hs@), name@) {
            Some(v) => r is Some && r->0@ == v,
            None => r is None,
        },
{
    let mut i: usize = 0;
    assert(headers_view(hs@).subrange(0, hs@.len() as int) =~= headers_view(hs@));
    while i < hs.len()
        invariant
            i <= hs@.len(),
            header_value(headers_view(hs@), name@) == header_value(
                headers_view(hs@).subrange(i as int, hs@.len() as int),
                name@,
            ),
        decreases hs.len() - i,
    {
        let ghost rest = headers_view(hs@).subrange(i as int, hs@.len() as int);
        assert(rest.drop_first() =~= headers_view(hs@).subrange(i + 1, hs@.len() as int));
        if bytes_equal(hs[i].name.as_slice(), name) {
            return Some(&hs[i].value);
        }
        i = i + 1;
    }
    None
}

/// Takes the body after a header block that ends at `end`.
pub fn read_body(b: &[u8], end: usize, hs: &Vec<Header>) -> (r: Result<Option<Vec<u8>>, ParseError>)
    requires
        end <= b@.len(),
    ensures
        match body_of(b@, end as nat, headers_view(hs@)) {
            Ok(Some(body)) => r is Ok && r->Ok_0 is Some && r->Ok_0->0@ == body,
            Ok(None) => r is Ok && r->Ok_0 is None,
            Err(e) => r == Err::<Option<Vec<u8>>, ParseError>(e),
        },
{
    let name = content_length_bytes();
    match find_header(hs, name.as_slice()) {
        None => Ok(None),
        Some(v) => match parse_decimal(v.as_slice()) {
            None => Err(ParseError::InvalidContentLength),
            Some(n) => {
                if n > b.len() - end {
                    Err(ParseError::Incomplete)
                } else {
                    Ok(Some(copy_range(b, end, end + n)))
                }
            },
        },
    }
}

} // verus!
