//! Request methods and their tokens on the wire.
use vstd::prelude::*;
use crate::lex::bytes_equal;

verus! {

/// The request methods that the server recognises.
#[derive(Clone, Copy, Debug, PartialEq, Eq, Structural)]
pub enum Method {
    GET,
    DELETE,
    POST,
    PUT,
    HEAD,
    CONNECT,
    OPTIONS,
    TRACE,
    PATCH,
}

/// The token that names each method in a request line.
pub open spec fn method_token(m: Method) -> Seq<u8> {
    match m {
        Method::GET => seq!['G' as u8, 'E' as u8, 'T' as u8],
        Method::DELETE => seq!['D' as u8, 'E' as u8, 'L' as u8, 'E' as u8, 'T' as u8, 'E' as u8],
        Method::POST => seq!['P' as u8, 'O' as u8, 'S' as u8, 'T' as u8],
        Method::PUT => seq!['P' as u8, 'U' as u8, 'T' as u8],
        Method::HEAD => seq!['H' as u8, 'E' as u8, 'A' as u8, 'D' as u8],
        Method::CONNECT => seq![
            'C' as u8, 'O' as u8, 'N' as u8, 'N' as u8, 'E' as u8, 'C' as u8, 'T' as u8,
        ],
        Method::OPTIONS => seq![
            'O' as u8, 'P' as u8, 'T' as u8, 'I' as u8, 'O' as u8, 'N' as u8, 'S' as u8,
        ],
        Method::TRACE => seq!['T' as u8, 'R' as u8, 'A' as u8, 'C' as u8, 'E' as u8],
        Method::PATCH => seq!['P' as u8, 'A' as u8, 'T' as u8, 'C' as u8, 'H' as u8],
    }
}

/// The method whose token is `t`, if any.
pub open spec fn method_of_token(t: Seq<u8>) -> Option<Method> {
    if exists|m: Method| method_token(m) == t {
        Some(choose|m: Method| method_token(m) == t)
    } else {
        None
    }
}

impl Method {
    /// The token of this method, as it stands in a request line.
    pub fn token(&self) -> (r: Vec<u8>)
        ensures
            r@ == method_token(*self),
    {
        let r = match self {
            Method::GET => vec!['G' as u8, 'E' as u8, 'T' as u8],
            Method::DELETE => vec!['D' as u8, 'E' as u8, 'L' as u8, 'E' as u8, 'T' as u8, 'E' as u8],
            Method::POST => vec!['P' as u8, 'O' as u8, 'S' as u8, 'T' as u8],
            Method::PUT => vec!['P' as u8, 'U' as u8, 'T' as u8],
            Method::HEAD => vec!['H' as u8, 'E' as u8, 'A' as u8, 'D' as u8],
            Method::CONNECT => vec![
                'C' as u8, 'O' as u8, 'N' as u8, 'N' as u8, 'E' as u8, 'C' as u8, 'T' as u8,
            ],
            Method::OPTIONS => vec![
                'O' as u8, 'P' as u8, 'T' as u8, 'I' as u8, 'O' as u8, 'N' as u8, 'S' as u8,
            ],
            Method::TRACE => vec!['T' as u8, 'R' as u8, 'A' as u8, 'C' as u8, 'E' as u8],
            Method::PATCH => vec!['P' as u8, 'A' as u8, 'T' as u8, 'C' as u8, 'H' as u8],
        };
        assert(r@ =~= method_token(*self));
        r
    }

    /// The method named by `t`; `None` for any other token.
    pub fn from_token(t: &[u8]) -> (r: Option<Method>)
        ensures
            r == method_of_token(t@),
    {
        let all: [Method; 9] = [
            Method::GET,
            Method::DELETE,
            Method::POST,
            Method::PUT,
            Method::HEAD,
            Method::CONNECT,
            Method::OPTIONS,
            Method::TRACE,
            Method::PATCH,
        ];
        let mut i: usize = 0;
        while i < 9
            invariant
                i <= 9,
                all@ == seq![
                    Method::GET,
                    Method::DELETE,
                    Method::POST,
                    Method::PUT,
                    Method::HEAD,
                    Method::CONNECT,
                    Method::OPTIONS,
                    Method::TRACE,
                    Method::PATCH,
                ],
                forall|k: int| 0 <= k < i ==> method_token(all@[k]) != t@,
            decreases 9 - i,
        {
            let m = all[i];
            let tok = m.token();
            if bytes_equal(t, tok.as_slice()) {
                proof {
                    lemma_tokens_distinct();
                }
                return Some(m);
            }
            i = i + 1;
        }
        assert forall|m: Method| method_token(m) != t@ by {
            match m {
                Method::GET => assert(all@[0] == m),
                Method::DELETE => assert(all@[1] == m),
                Method::POST => assert(all@[2] == m),
                Method::PUT => assert(all@[3] == m),
                Method::HEAD => assert(all@[4] == m),
                Method::CONNECT => assert(all@[5] == m),
                Method::OPTIONS => assert(all@[6] == m),
                Method::TRACE => assert(all@[7] == m),
                Method::PATCH => assert(all@[8] == m),
            }
        }
        None
    }
}

/// No two methods share a token.
pub proof fn lemma_tokens_distinct()
    ensures
        forall|a: Method, b: Method| method_token(a) == method_token(b) ==> a == b,
{
    assert forall|a: Method, b: Method| method_token(a) == method_token(b) implies a == b by {
        if a != b {
            let ta = method_token(a);
            let tb = method_token(b);
            if ta.len() == tb.len() {
                assert(ta[0] != tb[0] || ta[1] != tb[1]);
            }
        }
    }
}

} // verus!
