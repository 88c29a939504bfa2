//! The request-head parser: a request line, then header lines up to a blank line.
//!
//! Lines end in CR LF only: a bare LF, or a CR inside a line, is a syntax error.
//! Parsed fields are spans (start, length) into the caller's buffer.
use vstd::prelude::*;
use crate::grammar::{
    CR, LF, SP, COLON, is_digit, all_tchar, all_vchar, none_is, find, skip_ws, trim_end, find_byte,
    skip_spaces, trim_spaces_end, all_token_bytes, all_visible_bytes, lemma_find_none, lemma_find_hit,
};

verus! {

/// A run of `len` bytes of the input, starting at `start`.
#[derive(Clone, Copy, Debug, PartialEq, Eq, Structural)]
pub struct Span {
    pub start: usize,
    pub len: usize,
}

/// One header line: its name and its value with surrounding spaces and tabs trimmed.
#[derive(Clone, Copy, Debug, PartialEq, Eq, Structural)]
pub struct Header {
    pub name: Span,
    pub value: Span,
}

/// The first line of a request: method, target and `HTTP/<major>.<minor>`.
#[derive(Clone, Copy, Debug, PartialEq, Eq, Structural)]
pub struct RequestLine {
    pub method: Span,
    pub target: Span,
    pub major: u8,
    pub minor: u8,
}

/// Why a request head was rejected.
#[derive(Clone, Copy, Debug, PartialEq, Eq, Structural)]
pub enum ParseError {
    /// The first line is not `<method> <target> HTTP/<digit>.<digit>` ended by CR LF.
    InvalidRequestLine,
    /// A header line lacks a colon, has an empty or non-token name, holds a CR, or
    /// does not end in CR LF.
    InvalidHeader,
    /// Another header line starts after as many headers as the limit allows.
    TooManyHeaders,
}

/// A complete request head: its line, its headers in order, and where the body starts.
#[derive(Debug)]
pub struct ParsedRequest {
    pub line: RequestLine,
    pub headers: Vec<Header>,
    pub body_start: usize,
}

/// The result of one parse.
#[derive(Debug)]
pub enum ParseOutcome {
    /// The whole head was read; the count is the bytes consumed, up to the body.
    Complete(ParsedRequest, usize),
    /// The buffer ends before the blank line, with no error found so far: more
    /// bytes are needed.
    Incomplete,
    Failed(ParseError),
}

/// What a parse yields, as a mathematical value; a complete head carries the
/// number of bytes consumed, which is where the body starts.
pub enum Outcome {
    Complete(RequestLine, Seq<Header>, int),
    Incomplete,
    Failed(ParseError),
}

impl View for ParseOutcome {
    type V = Outcome;

    open spec fn view(&self) -> Outcome {
        match self {
            ParseOutcome::Complete(req, n) => Outcome::Complete(req.line, req.headers@, *n as int),
            ParseOutcome::Incomplete => Outcome::Incomplete,
            ParseOutcome::Failed(e) => Outcome::Failed(*e),
        }
    }
}

/// The total length of the names and values of `hs`.
pub open spec fn header_bytes(hs: Seq<Header>) -> int
    decreases hs.len(),
{
    if hs.len() == 0 {
        0
    } else {
        header_bytes(hs.drop_last()) + hs.last().name.len + hs.last().value.len
    }
}

/// Bytes `v .. v + 8` spell `HTTP/<digit>.<digit>`.
pub open spec fn is_version(b: Seq<u8>, v: int) -> bool {
    &&& b[v] == 72
    &&& b[v + 1] == 84
    &&& b[v + 2] == 84
    &&& b[v + 3] == 80
    &&& b[v + 4] == 47
    &&& is_digit(b[v + 5])
    &&& b[v + 6] == 46
    &&& is_digit(b[v + 7])
}

/// The request line held in `b[0..e]`, if it is well formed.
pub open spec fn request_line_of(b: Seq<u8>, e: int) -> Option<RequestLine> {
    let s1 = find(b, SP, 0, e);
    let s2 = find(b, SP, s1 + 1, e);
    let v = s2 + 1;
    if 0 < s1 && s1 + 1 < s2 && s2 < e && e - v == 8 && all_tchar(b, 0, s1) && all_vchar(
        b,
        s1 + 1,
        s2,
    ) && is_version(b, v) {
        Some(
            RequestLine {
                method: Span { start: 0, len: s1 as usize },
                target: Span { start: (s1 + 1) as usize, len: (s2 - s1 - 1) as usize },
                major: (b[v + 5] - 48) as u8,
                minor: (b[v + 7] - 48) as u8,
            },
        )
    } else {
        None
    }
}

/// The header held in `b[p..e]`, if it is well formed: a non-empty token, a colon,
/// and a value without CR.
pub open spec fn header_of(b: Seq<u8>, p: int, e: int) -> Option<Header> {
    let c = find(b, COLON, p, e);
    let vs = skip_ws(b, c + 1, e);
    let ve = trim_end(b, vs, e);
    if p < c && c < e && all_tchar(b, p, c) && none_is(b, CR, c + 1, e) {
        Some(
            Header {
                name: Span { start: p as usize, len: (c - p) as usize },
                value: Span { start: vs as usize, len: (ve - vs) as usize },
            },
        )
    } else {
        None
    }
}

/// The outcome of parsing the header lines that start at `p`, after `acc`.
pub open spec fn headers_from(
    b: Seq<u8>,
    max: nat,
    line: RequestLine,
    acc: Seq<Header>,
    p: int,
) -> Outcome
    decreases b.len() - p,
{
    if p >= b.len() {
        Outcome::Incomplete
    } else if b[p] == CR {
        if p + 1 >= b.len() {
            Outcome::Incomplete
        } else if b[p + 1] == LF {
            Outcome::Complete(line, acc, p + 2)
        } else {
            Outcome::Failed(ParseError::InvalidHeader)
        }
    } else if acc.len() >= max {
        Outcome::Failed(ParseError::TooManyHeaders)
    } else {
        let j = find(b, LF, p, b.len() as int);
        if j >= b.len() {
            Outcome::Incomplete
        } else if j == p || b[j - 1] != CR {
            Outcome::Failed(ParseError::InvalidHeader)
        } else {
            match header_of(b, p, j - 1) {
                None => Outcome::Failed(ParseError::InvalidHeader),
                Some(h) => headers_from(b, max, line, acc.push(h), j + 1),
            }
        }
    }
}

/// The outcome of parsing `b` with room for at most `max` headers.
pub open spec fn request_outcome(b: Seq<u8>, max: nat) -> Outcome {
    let j = find(b, LF, 0, b.len() as int);
    if j >= b.len() {
        Outcome::Incomplete
    } else if j == 0 || b[j - 1] != CR {
        Outcome::Failed(ParseError::InvalidRequestLine)
    } else {
        match request_line_of(b, j - 1) {
            None => Outcome::Failed(ParseError::InvalidRequestLine),
            Some(line) => headers_from(b, max, line, seq![], j + 1),
        }
    }
}

fn is_version_at(b: &[u8], v: usize) -> (r: bool)
    requires
        v + 8 <= b@.len(),
    ensures
        r == is_version(b@, v as int),
{
    b[v] == 72 && b[v + 1] == 84 && b[v + 2] == 84 && b[v + 3] == 80 && b[v + 4] == 47
        && 48 <= b[v + 5] && b[v + 5] <= 57 && b[v + 6] == 46 && 48 <= b[v + 7] && b[v + 7] <= 57
}

/// The request line held in `b[0..e]`, if it is well formed.
pub fn parse_request_line(b: &[u8], e: usize) -> (r: Option<RequestLine>)
    requires
        e <= b@.len(),
    ensures
        r == request_line_of(b@, e as int),
{
    let s1 = find_byte(b, SP, 0, e);
    if s1 == 0 || s1 >= e {
        return None;
    }
    let s2 = find_byte(b, SP, s1 + 1, e);
    if s2 <= s1 + 1 || s2 >= e || e - (s2 + 1) != 8 {
        return None;
    }
    let v = s2 + 1;
    if !all_token_bytes(b, 0, s1) || !all_visible_bytes(b, s1 + 1, s2) || !is_version_at(b, v) {
        return None;
    }
    Some(
        RequestLine {
            method: Span { start: 0, len: s1 },
            target: Span { start: s1 + 1, len: s2 - s1 - 1 },
            major: b[v + 5] - 48,
            minor: b[v + 7] - 48,
        },
    )
}

/// The header held in `b[p..e]`, if it is well formed.
pub fn parse_header(b: &[u8], p: usize, e: usize) -> (r: Option<Header>)
    requires
        p <= e <= b@.len(),
    ensures
        r == header_of(b@, p as int, e as int),
{
    let c = find_byte(b, COLON, p, e);
    if c == p || c >= e || !all_token_bytes(b, p, c) {
        return None;
    }
    if find_byte(b, CR, c + 1, e) < e {
        proof {
            lemma_find_hit(b@, CR, c + 1, e as int);
        }
        return None;
    }
    proof {
        lemma_find_none(b@, CR, c + 1, e as int);
    }
    let vs = skip_spaces(b, c + 1, e);
    let ve = trim_spaces_end(b, vs, e);
    Some(Header { name: Span { start: p, len: c - p }, value: Span { start: vs, len: ve - vs } })
}

/// Parses the request head at the start of `buf`, keeping at most `max_headers` headers.
pub fn parse(buf: &[u8], max_headers: usize) -> (r: ParseOutcome)
    ensures
        r@ == request_outcome(buf@, max_headers as nat),
        r matches ParseOutcome::Complete(req, n) ==> req.body_start == n,
{
    let len = buf.len();
    let j = find_byte(buf, LF, 0, len);
    if j >= len {
        return ParseOutcome::Incomplete;
    }
    if j == 0 || buf[j - 1] != CR {
        return ParseOutcome::Failed(ParseError::InvalidRequestLine);
    }
    let line = match parse_request_line(buf, j - 1) {
        None => {
            return ParseOutcome::Failed(ParseError::InvalidRequestLine);
        },
        Some(l) => l,
    };
    let mut headers: Vec<Header> = Vec::new();
    let mut pos: usize = j + 1;
    loop
        invariant
            len == buf@.len(),
            pos <= len,
            headers@.len() <= max_headers,
            headers_from(buf@, max_headers as nat, line, headers@, pos as int) == request_outcome(
                buf@,
                max_headers as nat,
            ),
        decreases len - pos,
    {
        if pos >= len {
            return ParseOutcome::Incomplete;
        }
        if buf[pos] == CR {
            if pos + 1 >= len {
                return ParseOutcome::Incomplete;
            } else if buf[pos + 1] == LF {
                let req = ParsedRequest { line, headers, body_start: pos + 2 };
                return ParseOutcome::Complete(req, pos + 2);
            } else {
                return ParseOutcome::Failed(ParseError::InvalidHeader);
            }
        }
        if headers.len() >= max_headers {
            return ParseOutcome::Failed(ParseError::TooManyHeaders);
        }
        let lf = find_byte(buf, LF, pos, len);
        if lf >= len {
            return ParseOutcome::Incomplete;
        }
        if lf == pos || buf[lf - 1] != CR {
            return ParseOutcome::Failed(ParseError::InvalidHeader);
        }
        match parse_header(buf, pos, lf - 1) {
            None => {
                return ParseOutcome::Failed(ParseError::InvalidHeader);
            },
            Some(h) => {
                headers.push(h);
                pos = lf + 1;
            },
        }
    }
}

proof fn lemma_header_bytes_prefix(hs: Seq<Header>, i: int)
    requires
        0 <= i <= hs.len(),
    ensures
        header_bytes(hs.subrange(0, i)) <= header_bytes(hs),
    decreases hs.len(),
{
    if i < hs.len() {
        assert(hs.drop_last().subrange(0, i) == hs.subrange(0, i));
        lemma_header_bytes_prefix(hs.drop_last(), i);
    } else {
        assert(hs.subrange(0, i) == hs);
    }
}

/// The total length of the header names and values of `req`, or `None` where it
/// does not fit in a `usize`.
pub fn header_length_total(req: &ParsedRequest) -> (r: Option<usize>)
    ensures
        header_bytes(req.headers@) <= usize::MAX ==> r == Some(
            header_bytes(req.headers@) as usize,
        ),
        header_bytes(req.headers@) > usize::MAX ==> r is None,
{
    let hs = &req.headers;
    let mut total: usize = 0;
    let mut i: usize = 0;
    while i < hs.len()
        invariant
            hs@ == req.headers@,
            i <= hs@.len(),
            total == header_bytes(hs@.subrange(0, i as int)),
        decreases hs@.len() - i,
    {
        let h = hs[i];
        proof {
            assert(hs@.subrange(0, i + 1).drop_last() == hs@.subrange(0, i as int));
            assert(hs@.subrange(0, i + 1).last() == h);
            lemma_header_bytes_prefix(hs@, i + 1);
            assert(header_bytes(hs@.subrange(0, i + 1)) == total + h.name.len + h.value.len);
        }
        if h.name.len > usize::MAX - total || h.value.len > usize::MAX - total - h.name.len {
            return None;
        }
        total = total + h.name.len + h.value.len;
        i = i + 1;
    }
    assert(hs@.subrange(0, i as int) == hs@);
    Some(total)
}

} // verus!
