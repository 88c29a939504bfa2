//! Byte classes of the request grammar, and bounded searches over a buffer.
use vstd::prelude::*;

verus! {

pub const CR: u8 = 13;
pub const LF: u8 = 10;
pub const SP: u8 = 32;
pub const HTAB: u8 = 9;
pub const COLON: u8 = 58;

/// A byte that may appear in a token (a method or a header name).
pub open spec fn is_tchar(c: u8) -> bool {
    (48 <= c && c <= 57) || (65 <= c && c <= 90) || (97 <= c && c <= 122) || c == 33 || c == 35
        || c == 36 || c == 37 || c == 38 || c == 39 || c == 42 || c == 43 || c == 45 || c == 46
        || c == 94 || c == 95 || c == 96 || c == 124 || c == 126
}

/// A byte that may appear in a request target: neither a control byte nor a space.
pub open spec fn is_vchar(c: u8) -> bool {
    c > 32 && c != 127
}

pub open spec fn is_ws(c: u8) -> bool {
    c == SP || c == HTAB
}

pub open spec fn is_digit(c: u8) -> bool {
    48 <= c && c <= 57
}

/// Every byte of `b[lo..hi]` is a token byte.
pub open spec fn all_tchar(b: Seq<u8>, lo: int, hi: int) -> bool {
    forall|k: int| lo <= k < hi ==> #[trigger] is_tchar(b[k])
}

/// Every byte of `b[lo..hi]` is a visible byte.
pub open spec fn all_vchar(b: Seq<u8>, lo: int, hi: int) -> bool {
    forall|k: int| lo <= k < hi ==> #[trigger] is_vchar(b[k])
}

/// No byte of `b[lo..hi]` is `c`.
pub open spec fn none_is(b: Seq<u8>, c: u8, lo: int, hi: int) -> bool {
    forall|k: int| lo <= k < hi ==> b[k] != c
}

/// The first index in `[from, end)` that holds `c`, or `end` when there is none.
pub open spec fn find(b: Seq<u8>, c: u8, from: int, end: int) -> int
    decreases end - from,
{
    if from >= end {
        end
    } else if b[from] == c {
        from
    } else {
        find(b, c, from + 1, end)
    }
}

/// The first index in `[from, end)` that holds neither a space nor a tab, or `end`.
pub open spec fn skip_ws(b: Seq<u8>, from: int, end: int) -> int
    decreases end - from,
{
    if from >= end {
        end
    } else if !is_ws(b[from]) {
        from
    } else {
        skip_ws(b, from + 1, end)
    }
}

/// `hi` moved down past the spaces and tabs that end `b[lo..hi]`.
pub open spec fn trim_end(b: Seq<u8>, lo: int, hi: int) -> int
    decreases hi - lo,
{
    if hi <= lo {
        hi
    } else if is_ws(b[hi - 1]) {
        trim_end(b, lo, hi - 1)
    } else {
        hi
    }
}

pub proof fn lemma_find_is(b: Seq<u8>, c: u8, from: int, end: int, r: int)
    requires
        from <= r <= end,
        r < end ==> b[r] == c,
        none_is(b, c, from, r),
    ensures
        find(b, c, from, end) == r,
    decreases r - from,
{
    if from < r {
        lemma_find_is(b, c, from + 1, end, r);
    }
}

/// What `find` returns: a position in range, with no `c` before it and `c` at it.
pub proof fn lemma_find_props(b: Seq<u8>, c: u8, from: int, end: int)
    requires
        from <= end,
    ensures
        from <= find(b, c, from, end) <= end,
        none_is(b, c, from, find(b, c, from, end)),
        find(b, c, from, end) < end ==> b[find(b, c, from, end)] == c,
    decreases end - from,
{
    if from < end && b[from] != c {
        lemma_find_props(b, c, from + 1, end);
    }
}

/// `find`, `skip_ws` and `trim_end` read nothing outside `[from, end)`.
pub proof fn lemma_scans_local(b: Seq<u8>, b2: Seq<u8>, c: u8, from: int, end: int)
    requires
        0 <= from,
        end <= b.len(),
        end <= b2.len(),
        forall|i: int| from <= i < end ==> b[i] == b2[i],
    ensures
        find(b, c, from, end) == find(b2, c, from, end),
        skip_ws(b, from, end) == skip_ws(b2, from, end),
        trim_end(b, from, end) == trim_end(b2, from, end),
    decreases end - from,
{
    if from < end {
        lemma_scans_local(b, b2, c, from + 1, end);
        lemma_trim_end_local(b, b2, from, end);
    }
}

proof fn lemma_trim_end_local(b: Seq<u8>, b2: Seq<u8>, lo: int, hi: int)
    requires
        0 <= lo,
        hi <= b.len(),
        hi <= b2.len(),
        forall|i: int| lo <= i < hi ==> b[i] == b2[i],
    ensures
        trim_end(b, lo, hi) == trim_end(b2, lo, hi),
    decreases hi - lo,
{
    if lo < hi {
        lemma_trim_end_local(b, b2, lo, hi - 1);
    }
}

pub proof fn lemma_find_hit(b: Seq<u8>, c: u8, from: int, end: int)
    requires
        from <= end,
        find(b, c, from, end) < end,
    ensures
        b[find(b, c, from, end)] == c,
    decreases end - from,
{
    if from < end && b[from] != c {
        lemma_find_hit(b, c, from + 1, end);
    }
}

pub proof fn lemma_find_none(b: Seq<u8>, c: u8, from: int, end: int)
    requires
        from <= end,
        find(b, c, from, end) >= end,
    ensures
        none_is(b, c, from, end),
    decreases end - from,
{
    if from < end {
        lemma_find_none(b, c, from + 1, end);
    }
}

pub proof fn lemma_skip_ws_is(b: Seq<u8>, from: int, end: int, r: int)
    requires
        from <= r <= end,
        r < end ==> !is_ws(b[r]),
        forall|k: int| from <= k < r ==> is_ws(#[trigger] b[k]),
    ensures
        skip_ws(b, from, end) == r,
    decreases r - from,
{
    if from < r {
        lemma_skip_ws_is(b, from + 1, end, r);
    }
}

pub proof fn lemma_trim_end_is(b: Seq<u8>, lo: int, hi: int, r: int)
    requires
        lo <= r <= hi,
        r > lo ==> !is_ws(b[r - 1]),
        forall|k: int| r <= k < hi ==> is_ws(#[trigger] b[k]),
    ensures
        trim_end(b, lo, hi) == r,
    decreases hi - r,
{
    if r < hi {
        lemma_trim_end_is(b, lo, hi - 1, r);
    }
}

/// Whether `c` may appear in a token.
pub fn is_token_byte(c: u8) -> (r: bool)
    ensures
        r == is_tchar(c),
{
    (48 <= c && c <= 57) || (65 <= c && c <= 90) || (97 <= c && c <= 122) || c == 33 || c == 35
        || c == 36 || c == 37 || c == 38 || c == 39 || c == 42 || c == 43 || c == 45 || c == 46
        || c == 94 || c == 95 || c == 96 || c == 124 || c == 126
}

/// Whether `c` may appear in a request target.
pub fn is_visible_byte(c: u8) -> (r: bool)
    ensures
        r == is_vchar(c),
{
    c > 32 && c != 127
}

/// The first index in `[from, end)` of `b` that holds `c`, or `end`.
pub fn find_byte(b: &[u8], c: u8, from: usize, end: usize) -> (r: usize)
    requires
        from <= end <= b@.len(),
    ensures
        r == find(b@, c, from as int, end as int),
        from <= r <= end,
{
    let mut i: usize = from;
    while i < end && b[i] != c
        invariant
            from <= i <= end,
            end <= b@.len(),
            none_is(b@, c, from as int, i as int),
        decreases end - i,
    {
        i = i + 1;
    }
    proof {
        lemma_find_is(b@, c, from as int, end as int, i as int);
    }
    i
}

/// The first index in `[from, end)` of `b` that is neither a space nor a tab, or `end`.
pub fn skip_spaces(b: &[u8], from: usize, end: usize) -> (r: usize)
    requires
        from <= end <= b@.len(),
    ensures
        r == skip_ws(b@, from as int, end as int),
        from <= r <= end,
{
    let mut i: usize = from;
    while i < end && (b[i] == SP || b[i] == HTAB)
        invariant
            from <= i <= end,
            end <= b@.len(),
            forall|k: int| from <= k < i ==> is_ws(#[trigger] b@[k]),
        decreases end - i,
    {
        i = i + 1;
    }
    proof {
        lemma_skip_ws_is(b@, from as int, end as int, i as int);
    }
    i
}

/// `hi` moved down past the spaces and tabs that end `b[lo..hi]`.
pub fn trim_spaces_end(b: &[u8], lo: usize, hi: usize) -> (r: usize)
    requires
        lo <= hi <= b@.len(),
    ensures
        r == trim_end(b@, lo as int, hi as int),
        lo <= r <= hi,
{
    let mut j: usize = hi;
    while j > lo && (b[j - 1] == SP || b[j - 1] == HTAB)
        invariant
            lo <= j <= hi,
            hi <= b@.len(),
            forall|k: int| j <= k < hi ==> is_ws(#[trigger] b@[k]),
        decreases j,
    {
        j = j - 1;
    }
    proof {
        lemma_trim_end_is(b@, lo as int, hi as int, j as int);
    }
    j
}

/// Whether every byte of `b[lo..hi]` is a token byte.
pub fn all_token_bytes(b: &[u8], lo: usize, hi: usize) -> (r: bool)
    requires
        lo <= hi <= b@.len(),
    ensures
        r == all_tchar(b@, lo as int, hi as int),
{
    let mut i: usize = lo;
    while i < hi
        invariant
            lo <= i <= hi,
            hi <= b@.len(),
            all_tchar(b@, lo as int, i as int),
        decreases hi - i,
    {
        if !is_token_byte(b[i]) {
            return false;
        }
        i = i + 1;
    }
    true
}

/// Whether every byte of `b[lo..hi]` is a visible byte.
pub fn all_visible_bytes(b: &[u8], lo: usize, hi: usize) -> (r: bool)
    requires
        lo <= hi <= b@.len(),
    ensures
        r == all_vchar(b@, lo as int, hi as int),
{
    let mut i: usize = lo;
    while i < hi
        invariant
            lo <= i <= hi,
            hi <= b@.len(),
            all_vchar(b@, lo as int, i as int),
        decreases hi - i,
    {
        if !is_visible_byte(b[i]) {
            return false;
        }
        i = i + 1;
    }
    true
}

} // verus!
