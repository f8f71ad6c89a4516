//! Byte-level building blocks of the wire format: searching for a byte or a
//! line terminator, and decimal numbers written as ASCII digits.
use vstd::prelude::*;

verus! {

/// Carriage return.
pub const CR: u8 = 13;

/// Line feed.
pub const LF: u8 = 10;

/// A single space, the separator inside start lines and after a header colon.
pub const SP: u8 = 32;

/// The colon that ends a header name.
pub const COLON: u8 = 58;

/// The ASCII digit zero.
pub const ZERO: u8 = 48;

/// The first position at or after `from` that holds `c`.
pub open spec fn find_byte(s: Seq<u8>, c: u8, from: nat) -> Option<nat>
    decreases s.len() - from,
{
    if from >= s.len() {
        None
    } else if s[from as int] == c {
        Some(from)
    } else {
        find_byte(s, c, from + 1)
    }
}

/// Whether a CR LF pair starts at position `i`.
pub open spec fn crlf_at(s: Seq<u8>, i: int) -> bool {
    0 <= i && i + 1 < s.len() && s[i] == CR && s[i + 1] == LF
}

/// The first position at or after `from` where a CR LF pair starts.
pub open spec fn find_crlf(s: Seq<u8>, from: nat) -> Option<nat>
    decreases s.len() - from,
{
    if from + 1 >= s.len() {
        None
    } else if crlf_at(s, from as int) {
        Some(from)
    } else {
        find_crlf(s, from + 1)
    }
}

pub proof fn lemma_find_byte(s: Seq<u8>, c: u8, from: nat)
    ensures
        match find_byte(s, c, from) {
            Some(i) => from <= i < s.len() && s[i as int] == c && forall|k: int|
                from <= k < i ==> s[k] != c,
            None => forall|k: int| from <= k < s.len() ==> s[k] != c,
        },
    decreases s.len() - from,
{
    if from < s.len() && s[from as int] != c {
        lemma_find_byte(s, c, from + 1);
    }
}

pub proof fn lemma_find_crlf(s: Seq<u8>, from: nat)
    ensures
        match find_crlf(s, from) {
            Some(i) => from <= i && crlf_at(s, i as int) && forall|k: int|
                from <= k < i ==> !crlf_at(s, k),
            None => forall|k: int| from <= k ==> !crlf_at(s, k),
        },
    decreases s.len() - from,
{
    if from + 1 < s.len() && !crlf_at(s, from as int) {
        lemma_find_crlf(s, from + 1);
    }
}

/// A CR LF pair at `i`, with none between `from` and `i`, is the one found.
pub proof fn lemma_find_crlf_at(s: Seq<u8>, from: nat, i: nat)
    requires
        from <= i,
        crlf_at(s, i as int),
        forall|k: int| from <= k < i ==> !crlf_at(s, k),
    ensures
        find_crlf(s, from) == Some(i),
    decreases i - from,
{
    if from < i {
        assert(!crlf_at(s, from as int));
        lemma_find_crlf_at(s, from + 1, i);
    }
}

/// A `c` at `i`, with none between `from` and `i`, is the one found.
pub proof fn lemma_find_byte_at(s: Seq<u8>, c: u8, from: nat, i: nat)
    requires
        from <= i < s.len(),
        s[i as int] == c,
        forall|k: int| from <= k < i ==> s[k] != c,
    ensures
        find_byte(s, c, from) == Some(i),
    decreases i - from,
{
    if from < i {
        lemma_find_byte_at(s, c, from + 1, i);
    }
}

/// Searches `s` for `c`, starting at `from`.
pub fn find_byte_in(s: &[u8], c: u8, from: usize) -> (r: Option<usize>)
    ensures
        r is Some <==> find_byte(s@, c, from as nat) is Some,
        r is Some ==> find_byte(s@, c, from as nat) == Some(r->0 as nat),
{
    let mut i: usize = from;
    while i < s.len()
        invariant
            from <= i,
            find_byte(s@, c, from as nat) == find_byte(s@, c, i as nat),
        decreases s.len() - i,
    {
        if s[i] == c {
            return Some(i);
        }
        i = i + 1;
    }
    None
}

/// Searches `s` for a CR LF pair, starting at `from`.
pub fn find_crlf_in(s: &[u8], from: usize) -> (r: Option<usize>)
    ensures
        r is Some <==> find_crlf(s@, from as nat) is Some,
        r is Some ==> find_crlf(s@, from as nat) == Some(r->0 as nat),
{
    let mut i: usize = from;
    while i < s.len() && i + 1 < s.len()
        invariant
            from <= i,
            find_crlf(s@, from as nat) == find_crlf(s@, i as nat),
        decreases s.len() - i,
    {
        if s[i] == CR && s[i + 1] == LF {
            return Some(i);
        }
        i = i + 1;
    }
    None
}

/// A copy of `s[start..end]`.
pub fn copy_range(s: &[u8], start: usize, end: usize) -> (r: Vec<u8>)
    requires
        start <= end <= s@.len(),
    ensures
        r@ == s@.subrange(start as int, end as int),
{
    let mut r: Vec<u8> = Vec::new();
    let mut i: usize = start;
    while i < end
        invariant
            start <= i <= end <= s@.len(),
            r@ == s@.subrange(start as int, i as int),
        decreases end - i,
    {
        r.push(s[i]);
        i = i + 1;
    }
    r
}

/// Whether two byte strings are equal.
pub fn bytes_equal(a: &[u8], b: &[u8]) -> (r: bool)
    ensures
        r == (a@ == b@),
{
    if a.len() != b.len() {
        return false;
    }
    let mut i: usize = 0;
    while i < a.len()
        invariant
            a@.len() == b@.len(),
            i <= a@.len(),
            a@.subrange(0, i as int) == b@.subrange(0, i as int),
        decreases a.len() - i,
    {
        if a[i] != b[i] {
            assert(a@[i as int] != b@[i as int]);
            return false;
        }
        assert(a@.subrange(0, i + 1) == a@.subrange(0, i as int).push(a@[i as int]));
        assert(b@.subrange(0, i + 1) == b@.subrange(0, i as int).push(b@[i as int]));
        i = i + 1;
    }
    assert(a@ == a@.subrange(0, a@.len() as int));
    assert(b@ == b@.subrange(0, b@.len() as int));
    true
}

pub open spec fn is_digit(b: u8) -> bool {
    ZERO <= b <= ZERO + 9
}

pub open spec fn all_digits(s: Seq<u8>) -> bool {
    forall|i: int| 0 <= i < s.len() ==> is_digit(#[trigger] s[i])
}

/// The number that a string of ASCII digits denotes, most significant first.
pub open spec fn decimal_value(s: Seq<u8>) -> nat
    decreases s.len(),
{
    if s.len() == 0 {
        0
    } else {
        decimal_value(s.drop_last()) * 10 + (s.last() - ZERO) as nat
    }
}

/// The shortest decimal text of `n`.
pub open spec fn decimal_text(n: nat) -> Seq<u8>
    decreases n,
{
    if n < 10 {
        seq![(n + ZERO) as u8]
    } else {
        decimal_text(n / 10).push((n % 10 + ZERO) as u8)
    }
}

/// Decimal text is digits only, never empty, and reads back as its number.
pub proof fn lemma_decimal_text(n: nat)
    ensures
        decimal_text(n).len() > 0,
        all_digits(decimal_text(n)),
        decimal_value(decimal_text(n)) == n,
    decreases n,
{
    if n >= 10 {
        lemma_decimal_text(n / 10);
        let t = decimal_text(n);
        assert(t.drop_last() == decimal_text(n / 10));
        assert(t.last() == (n % 10 + ZERO) as u8);
        assert(n == (n / 10) * 10 + n % 10) by (nonlinear_arith);
        assert forall|i: int| 0 <= i < t.len() implies is_digit(#[trigger] t[i]) by {
            if i < t.len() - 1 {
                assert(t[i] == decimal_text(n / 10)[i]);
            }
        }
    } else {
        assert(decimal_text(n).drop_last().len() == 0);
        assert(decimal_value(decimal_text(n).drop_last()) == 0);
    }
}

/// The value of a prefix never exceeds the value of the whole.
proof fn lemma_decimal_prefix(s: Seq<u8>, i: int)
    requires
        0 <= i <= s.len(),
        all_digits(s),
    ensures
        decimal_value(s.subrange(0, i)) <= decimal_value(s),
    decreases s.len() - i,
{
    if i < s.len() {
        lemma_decimal_prefix(s, i + 1);
        let p = s.subrange(0, i + 1);
        assert(p.drop_last() == s.subrange(0, i));
    } else {
        assert(s.subrange(0, i) == s);
    }
}

/// Reads a decimal number; `None` unless `s` is a non-empty run of digits
/// whose value fits in `usize`.
pub fn parse_decimal(s: &[u8]) -> (r: Option<usize>)
    ensures
        r is Some <==> (s@.len() > 0 && all_digits(s@) && decimal_value(s@) <= usize::MAX),
        r is Some ==> r->0 == decimal_value(s@),
{
    if s.len() == 0 {
        return None;
    }
    let mut acc: usize = 0;
    let mut i: usize = 0;
    while i < s.len()
        invariant
            i <= s@.len(),
            all_digits(s@.subrange(0, i as int)),
            acc == decimal_value(s@.subrange(0, i as int)),
        decreases s.len() - i,
    {
        let b = s[i];
        let ghost p = s@.subrange(0, i + 1);
        assert(p.drop_last() == s@.subrange(0, i as int));
        if b < ZERO || b > ZERO + 9 {
            assert(!is_digit(s@[i as int]));
            return None;
        }
        let d = (b - ZERO) as usize;
        if acc > (usize::MAX - d) / 10 {
            proof {
                assert(acc * 10 + d > usize::MAX) by (nonlinear_arith)
                    requires
                        acc > (usize::MAX - d) / 10,
                        d <= 9,
                ;
                if all_digits(s@) {
                    lemma_decimal_prefix(s@, i + 1);
                }
            }
            return None;
        }
        assert(acc * 10 + d <= usize::MAX) by (nonlinear_arith)
            requires
                acc <= (usize::MAX - d) / 10,
                d <= 9,
        ;
        acc = acc * 10 + d;
        assert(all_digits(p)) by {
            assert forall|k: int| 0 <= k < p.len() implies is_digit(#[trigger] p[k]) by {
                if k < i {
                    assert(p[k] == s@.subrange(0, i as int)[k]);
                }
            }
        }
        i = i + 1;
    }
    assert(s@.subrange(0, s@.len() as int) == s@);
    Some(acc)
}

/// Appends the decimal text of `n`.
pub fn push_decimal(out: &mut Vec<u8>, n: usize)
    ensures
        final(out)@ == old(out)@ + decimal_text(n as nat),
    decreases n,
{
    if n >= 10 {
        push_decimal(out, n / 10);
    }
    out.push((n % 10) as u8 + ZERO);
    assert(final(out)@ == old(out)@ + decimal_text(n as nat));
}

/// Appends all of `s`.
pub fn push_bytes(out: &mut Vec<u8>, s: &[u8])
    ensures
        final(out)@ == old(out)@ + s@,
{
    let mut i: usize = 0;
    while i < s.len()
        invariant
            i <= s@.len(),
            out@ == old(out)@ + s@.subrange(0, i as int),
        decreases s.len() - i,
    {
        out.push(s[i]);
        assert(s@.subrange(0, i + 1) == s@.subrange(0, i as int).push(s@[i as int]));
        i = i + 1;
    }
    assert(s@.subrange(0, s@.len() as int) == s@);
}

} // verus!
