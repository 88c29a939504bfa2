//! Properties of the parser that hold of every input.
use vstd::prelude::*;
use crate::grammar::{
    CR, LF, SP, COLON, is_ws, find, all_tchar, all_vchar, none_is, skip_ws, trim_end,
    lemma_find_is, lemma_find_props, lemma_scans_local,
};
use crate::parser::{
    Header, Outcome, ParseError, RequestLine, header_bytes, header_of, headers_from, is_version,
    request_line_of, request_outcome,
};

verus! {

/// The blank line that ends a request head, with the line end before it.
pub open spec fn blank_line_end() -> Seq<u8> {
    seq![CR, LF, CR, LF]
}

proof fn lemma_request_line_local(b: Seq<u8>, b2: Seq<u8>, e: int)
    requires
        0 <= e <= b.len(),
        e <= b2.len(),
        forall|i: int| 0 <= i < e ==> b[i] == b2[i],
    ensures
        request_line_of(b, e) == request_line_of(b2, e),
{
    let s1 = find(b, SP, 0, e);
    lemma_scans_local(b, b2, SP, 0, e);
    lemma_find_props(b, SP, 0, e);
    if s1 + 1 <= e {
        lemma_scans_local(b, b2, SP, s1 + 1, e);
    }
    let s2 = find(b, SP, s1 + 1, e);
    if 0 < s1 && s1 + 1 < s2 && s2 < e && e - (s2 + 1) == 8 {
        assert(all_tchar(b, 0, s1) == all_tchar(b2, 0, s1));
        assert(all_vchar(b, s1 + 1, s2) == all_vchar(b2, s1 + 1, s2));
        assert(is_version(b, s2 + 1) == is_version(b2, s2 + 1));
    }
}

proof fn lemma_header_local(b: Seq<u8>, b2: Seq<u8>, p: int, e: int)
    requires
        0 <= p <= e <= b.len(),
        e <= b2.len(),
        forall|i: int| 0 <= i < e ==> b[i] == b2[i],
    ensures
        header_of(b, p, e) == header_of(b2, p, e),
{
    let c = find(b, COLON, p, e);
    lemma_scans_local(b, b2, COLON, p, e);
    lemma_find_props(b, COLON, p, e);
    if c < e {
        lemma_scans_local(b, b2, COLON, c + 1, e);
        let vs = skip_ws(b, c + 1, e);
        assert(c + 1 <= vs <= e) by {
            lemma_skip_ws_range(b, c + 1, e);
        }
        lemma_scans_local(b, b2, COLON, vs, e);
        assert(all_tchar(b, p, c) == all_tchar(b2, p, c));
        assert(none_is(b, CR, c + 1, e) == none_is(b2, CR, c + 1, e));
    }
}

proof fn lemma_skip_ws_range(b: Seq<u8>, from: int, end: int)
    requires
        from <= end,
    ensures
        from <= skip_ws(b, from, end) <= end,
    decreases end - from,
{
    if from < end {
        lemma_skip_ws_range(b, from + 1, end);
    }
}

proof fn lemma_headers_truncated(
    b: Seq<u8>,
    max: nat,
    line: RequestLine,
    acc: Seq<Header>,
    p: int,
    k: int,
)
    requires
        0 <= p,
        0 <= k <= b.len(),
        headers_from(b, max, line, acc, p) is Complete,
        k < headers_from(b, max, line, acc, p)->Complete_2,
    ensures
        headers_from(b.subrange(0, k), max, line, acc, p) == Outcome::Incomplete,
    decreases b.len() - p,
{
    let t = b.subrange(0, k);
    if p < k {
        if b[p] != CR {
            let j = find(b, LF, p, b.len() as int);
            lemma_find_props(b, LF, p, b.len() as int);
            lemma_find_props(t, LF, p, k);
            assert(forall|i: int| 0 <= i < k ==> t[i] == b[i]);
            if j < k {
                lemma_find_is(t, LF, p, k, j);
                lemma_header_local(b, t, p, j - 1);
                let h = header_of(b, p, j - 1)->Some_0;
                lemma_headers_truncated(b, max, line, acc.push(h), j + 1, k);
            } else {
                lemma_find_is(t, LF, p, k, k);
            }
        }
    }
}

/// Cutting a buffer that holds a complete request head anywhere before the end
/// of its blank line leaves a buffer that parses as incomplete: never an error,
/// never complete.
pub proof fn lemma_truncated_is_incomplete(b: Seq<u8>, max: nat, k: int)
    requires
        request_outcome(b, max) is Complete,
        0 <= k < request_outcome(b, max)->Complete_2,
    ensures
        request_outcome(b.subrange(0, k), max) == Outcome::Incomplete,
{
    let t = b.subrange(0, k);
    let j = find(b, LF, 0, b.len() as int);
    lemma_find_props(b, LF, 0, b.len() as int);
    lemma_find_props(t, LF, 0, k);
    lemma_complete_facts(b, max);
    assert(forall|i: int| 0 <= i < k ==> t[i] == b[i]);
    if j < k {
        lemma_find_is(t, LF, 0, k, j);
        lemma_request_line_local(b, t, j - 1);
        let line = request_line_of(b, j - 1)->Some_0;
        lemma_headers_truncated(b, max, line, seq![], j + 1, k);
    } else {
        lemma_find_is(t, LF, 0, k, k);
    }
}

proof fn lemma_headers_complete(
    b: Seq<u8>,
    max: nat,
    line: RequestLine,
    acc: Seq<Header>,
    p: int,
)
    requires
        2 <= p <= b.len(),
        b[p - 1] == LF,
        b[p - 2] == CR,
        forall|i: int| 0 <= i && i + 1 < p && #[trigger] b[i] == LF ==> b[i + 1] != CR,
        header_bytes(acc) <= p,
        headers_from(b, max, line, acc, p) is Complete,
    ensures
        ({
            let n = headers_from(b, max, line, acc, p)->Complete_2;
            &&& 4 <= n <= b.len()
            &&& b.subrange(n - 4, n) == blank_line_end()
            &&& forall|q: int| 4 <= q < n ==> #[trigger] b.subrange(q - 4, q) != blank_line_end()
            &&& header_bytes(headers_from(b, max, line, acc, p)->Complete_1) <= n
        }),
    decreases b.len() - p,
{
    if b[p] == CR {
        let n = p + 2;
        assert(b.subrange(n - 4, n) == blank_line_end());
        assert forall|q: int| 4 <= q < n implies #[trigger] b.subrange(q - 4, q) != blank_line_end() by {
            if b.subrange(q - 4, q) == blank_line_end() {
                assert(b.subrange(q - 4, q)[1] == LF);
                assert(b.subrange(q - 4, q)[2] == CR);
                assert(b[q - 3] == LF);
                assert(b[q - 2] == CR);
            }
        }
    } else {
        let j = find(b, LF, p, b.len() as int);
        lemma_find_props(b, LF, p, b.len() as int);
        let h = header_of(b, p, j - 1)->Some_0;
        let c = find(b, COLON, p, j - 1);
        lemma_find_props(b, COLON, p, j - 1);
        let vs = skip_ws(b, c + 1, j - 1);
        lemma_skip_ws_range(b, c + 1, j - 1);
        lemma_trim_end_range(b, vs, j - 1);
        assert(header_bytes(acc.push(h)) == header_bytes(acc) + h.name.len + h.value.len) by {
            assert(acc.push(h).drop_last() == acc);
        }
        lemma_headers_complete(b, max, line, acc.push(h), j + 1);
    }
}

proof fn lemma_trim_end_range(b: Seq<u8>, lo: int, hi: int)
    requires
        lo <= hi,
    ensures
        lo <= trim_end(b, lo, hi) <= hi,
    decreases hi - lo,
{
    if lo < hi && is_ws(b[hi - 1]) {
        lemma_trim_end_range(b, lo, hi - 1);
    }
}

/// A complete parse consumes exactly up to the end of the first blank line: the
/// consumed bytes end in CR LF CR LF, no shorter prefix does, and the header names
/// and values together are no longer than what was consumed.
pub proof fn lemma_complete_facts(b: Seq<u8>, max: nat)
    requires
        request_outcome(b, max) is Complete,
    ensures
        ({
            let n = request_outcome(b, max)->Complete_2;
            &&& 4 <= n <= b.len()
            &&& b.subrange(n - 4, n) == blank_line_end()
            &&& forall|q: int| 4 <= q < n ==> #[trigger] b.subrange(q - 4, q) != blank_line_end()
            &&& header_bytes(request_outcome(b, max)->Complete_1) <= n
        }),
{
    let j = find(b, LF, 0, b.len() as int);
    lemma_find_props(b, LF, 0, b.len() as int);
    let line = request_line_of(b, j - 1)->Some_0;
    assert(header_bytes(seq![]) == 0);
    lemma_headers_complete(b, max, line, seq![], j + 1);
}

proof fn lemma_headers_limit(
    b: Seq<u8>,
    max: nat,
    low: nat,
    line: RequestLine,
    acc: Seq<Header>,
    p: int,
)
    requires
        headers_from(b, max, line, acc, p) is Complete,
        low < headers_from(b, max, line, acc, p)->Complete_1.len(),
        acc.len() <= low,
    ensures
        headers_from(b, low, line, acc, p) == Outcome::Failed(ParseError::TooManyHeaders),
    decreases b.len() - p,
{
    if p < b.len() && b[p] != CR && acc.len() < low {
        let j = find(b, LF, p, b.len() as int);
        let h = header_of(b, p, j - 1)->Some_0;
        lemma_headers_limit(b, max, low, line, acc.push(h), j + 1);
    }
}

/// A buffer that parses completely with some headers gives `TooManyHeaders` when
/// parsed with a limit below their number.
pub proof fn lemma_limit_below_count(b: Seq<u8>, max: nat, low: nat)
    requires
        request_outcome(b, max) is Complete,
        low < request_outcome(b, max)->Complete_1.len(),
    ensures
        request_outcome(b, low) == Outcome::Failed(ParseError::TooManyHeaders),
{
    let j = find(b, LF, 0, b.len() as int);
    let line = request_line_of(b, j - 1)->Some_0;
    lemma_headers_limit(b, max, low, line, seq![], j + 1);
}

/// Parsing is a function of the buffer and the limit: two parses of one buffer
/// with one limit give the same outcome.
pub proof fn lemma_parse_idempotent(b: Seq<u8>, max: nat, first: Outcome, second: Outcome)
    requires
        first == request_outcome(b, max),
        second == request_outcome(b, max),
    ensures
        first == second,
{
}

} // verus!
