//! The protocol version token and the response status codes.
use vstd::prelude::*;
use crate::lex::{bytes_equal, decimal_text, push_decimal, SP};

verus! {

/// The protocol version that requests must carry and responses state.
pub open spec fn version_token() -> Seq<u8> {
    seq!['H' as u8, 'T' as u8, 'T' as u8, 'P' as u8, '/' as u8, '1' as u8, '.' as u8, '1' as u8]
}

/// The protocol version token, as bytes.
pub fn version_bytes() -> (r: Vec<u8>)
    ensures
        r@ == version_token(),
{
    let r = vec!['H' as u8, 'T' as u8, 'T' as u8, 'P' as u8, '/' as u8, '1' as u8, '.' as u8, '1' as u8];
    assert(r@ =~= version_token());
    r
}

/// The status codes that responses can carry.
#[derive(Clone, Copy, Debug, PartialEq, Eq, Structural)]
pub enum StatusCode {
    OK,
    BadRequest,
    NotFound,
}

pub open spec fn status_number(s: StatusCode) -> nat {
    match s {
        StatusCode::OK => 200,
        StatusCode::BadRequest => 400,
        StatusCode::NotFound => 404,
    }
}

/// The reason phrase of each status.
pub open spec fn reason_phrase(s: StatusCode) -> Seq<u8> {
    match s {
        StatusCode::OK => seq!['O' as u8, 'K' as u8],
        StatusCode::BadRequest => seq![
            'B' as u8, 'a' as u8, 'd' as u8, ' ' as u8, 'R' as u8, 'e' as u8, 'q' as u8,
            'u' as u8, 'e' as u8, 's' as u8, 't' as u8,
        ],
        StatusCode::NotFound => seq![
            'N' as u8, 'o' as u8, 't' as u8, ' ' as u8, 'F' as u8, 'o' as u8, 'u' as u8,
            'n' as u8, 'd' as u8,
        ],
    }
}

/// `VERSION SP CODE SP REASON`, without the line terminator.
pub open spec fn status_line(s: StatusCode) -> Seq<u8> {
    version_token() + seq![SP] + decimal_text(status_number(s)) + seq![SP] + reason_phrase(s)
}

/// The status whose status line is `line`, if any.
pub open spec fn status_of_line(line: Seq<u8>) -> Option<StatusCode> {
    if exists|s: StatusCode| status_line(s) == line {
        Some(choose|s: StatusCode| status_line(s) == line)
    } else {
        None
    }
}

/// Status lines never hold a carriage return.
pub proof fn lemma_status_line_plain(s: StatusCode)
    ensures
        forall|i: int| 0 <= i < status_line(s).len() ==> status_line(s)[i] != crate::lex::CR,
{
    crate::lex::lemma_decimal_text(status_number(s));
    reveal_with_fuel(decimal_text, 3);
    assert(decimal_text(status_number(s)).len() == 3);
}

/// No two statuses share a status line.
pub proof fn lemma_status_lines_distinct()
    ensures
        forall|a: StatusCode, b: StatusCode| status_line(a) == status_line(b) ==> a == b,
{
    reveal_with_fuel(decimal_text, 3);
    assert forall|a: StatusCode, b: StatusCode| status_line(a) == status_line(b) implies a == b by {
        if a != b {
            let la = status_line(a);
            let lb = status_line(b);
            assert(la[9] != lb[9] || la[11] != lb[11]);
        }
    }
}

impl StatusCode {
    /// The numeric code.
    pub fn code(&self) -> (r: u16)
        ensures
            r as nat == status_number(*self),
    {
        match self {
            StatusCode::OK => 200,
            StatusCode::BadRequest => 400,
            StatusCode::NotFound => 404,
        }
    }

    /// The human-readable reason phrase.
    pub fn reason(&self) -> (r: Vec<u8>)
        ensures
            r@ == reason_phrase(*self),
    {
        let r = match self {
            StatusCode::OK => vec!['O' as u8, 'K' as u8],
            StatusCode::BadRequest => vec![
                'B' as u8, 'a' as u8, 'd' as u8, ' ' as u8, 'R' as u8, 'e' as u8, 'q' as u8,
                'u' as u8, 'e' as u8, 's' as u8, 't' as u8,
            ],
            StatusCode::NotFound => vec![
                'N' as u8, 'o' as u8, 't' as u8, ' ' as u8, 'F' as u8, 'o' as u8, 'u' as u8,
                'n' as u8, 'd' as u8,
            ],
        };
        assert(r@ =~= reason_phrase(*self));
        r
    }

    /// The status line of this status, without its terminator.
    pub fn line(&self) -> (r: Vec<u8>)
        ensures
            r@ == status_line(*self),
    {
        let mut r = version_bytes();
        r.push(SP);
        push_decimal(&mut r, self.code() as usize);
        r.push(SP);
        let mut reason = self.reason();
        r.append(&mut reason);
        assert(r@ =~= status_line(*self));
        r
    }

    /// The status whose status line is `line`; `None` for any other line.
    pub fn from_line(line: &[u8]) -> (r: Option<StatusCode>)
        ensures
            r == status_of_line(line@),
    {
        proof {
            lemma_status_lines_distinct();
        }
        let ok = StatusCode::OK.line();
        if bytes_equal(line, ok.as_slice()) {
            return Some(StatusCode::OK);
        }
        let bad = StatusCode::BadRequest.line();
        if bytes_equal(line, bad.as_slice()) {
            return Some(StatusCode::BadRequest);
        }
        let missing = StatusCode::NotFound.line();
        if bytes_equal(line, missing.as_slice()) {
            return Some(StatusCode::NotFound);
        }
        assert forall|s: StatusCode| status_line(s) != line@ by {
            match s {
                StatusCode::OK => {},
                StatusCode::BadRequest => {},
                StatusCode::NotFound => {},
            }
        }
        None
    }
}

} // verus!
