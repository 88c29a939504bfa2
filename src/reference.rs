//! A second opinion on a request head, from the httparse crate's request parser.
//!
//! Only lengths come back, so the result can be held against this crate's own
//! parser: where the body starts, and how long each header's name and value are.
use vstd::prelude::*;

verus! {

/// The most header slots that a reference parse sets aside.
pub const REFERENCE_HEADER_CAPACITY: usize = 2048;

/// What the reference parser made of a buffer.
#[derive(Debug)]
pub enum ReferenceStatus {
    /// A complete head: where the body starts, and the (name, value) lengths of
    /// its headers in order.
    Complete(usize, Vec<(usize, usize)>),
    /// The buffer ends inside the head.
    Partial,
    /// The head is malformed, or has more headers than there were slots.
    Invalid,
}

/// Relies on httparse::Request::parse, given `max_headers` header slots: a complete
/// parse reports the offset in `buf` where the body starts and fills at most
/// that many slots.
#[verifier::external_body]
fn httparse_request(buf: &[u8], max_headers: usize) -> (r: ReferenceStatus)
    requires
        max_headers <= REFERENCE_HEADER_CAPACITY,
    ensures
        r matches ReferenceStatus::Complete(n, lens) ==> n <= buf@.len() && lens@.len()
            <= max_headers,
{
    let mut headers = vec![httparse::EMPTY_HEADER; max_headers];
    let mut req = httparse::Request::new(&mut headers);
    match req.parse(buf) {
        Ok(httparse::Status::Complete(n)) => ReferenceStatus::Complete(
            n,
            req.headers.iter().map(|h| (h.name.len(), h.value.len())).collect(),
        ),
        Ok(httparse::Status::Partial) => ReferenceStatus::Partial,
        Err(_) => ReferenceStatus::Invalid,
    }
}

/// Parses `buf` with the reference parser, with `max_headers` header slots.
pub fn reference_parse(buf: &[u8], max_headers: usize) -> (r: ReferenceStatus)
    requires
        max_headers <= REFERENCE_HEADER_CAPACITY,
    ensures
        r matches ReferenceStatus::Complete(n, lens) ==> n <= buf@.len() && lens@.len()
            <= max_headers,
{
    httparse_request(buf, max_headers)
}

/// The sum of both members of every pair of `lens`.
pub open spec fn pair_sum(lens: Seq<(usize, usize)>) -> int
    decreases lens.len(),
{
    if lens.len() == 0 {
        0
    } else {
        pair_sum(lens.drop_last()) + lens.last().0 + lens.last().1
    }
}

proof fn lemma_pair_sum_prefix(lens: Seq<(usize, usize)>, i: int)
    requires
        0 <= i <= lens.len(),
    ensures
        pair_sum(lens.subrange(0, i)) <= pair_sum(lens),
    decreases lens.len(),
{
    if i < lens.len() {
        assert(lens.drop_last().subrange(0, i) == lens.subrange(0, i));
        lemma_pair_sum_prefix(lens.drop_last(), i);
    } else {
        assert(lens.subrange(0, i) == lens);
    }
}

/// The total of the (name, value) lengths in `lens`, or `None` where it does not
/// fit in a `usize`.
pub fn lengths_total(lens: &Vec<(usize, usize)>) -> (r: Option<usize>)
    ensures
        pair_sum(lens@) <= usize::MAX ==> r == Some(pair_sum(lens@) as usize),
        pair_sum(lens@) > usize::MAX ==> r is None,
{
    let mut total: usize = 0;
    let mut i: usize = 0;
    while i < lens.len()
        invariant
            i <= lens@.len(),
            total == pair_sum(lens@.subrange(0, i as int)),
        decreases lens@.len() - i,
    {
        let (a, b) = lens[i];
        proof {
            assert(lens@.subrange(0, i + 1).drop_last() == lens@.subrange(0, i as int));
            assert(lens@.subrange(0, i + 1).last() == (a, b));
            lemma_pair_sum_prefix(lens@, i + 1);
            assert(pair_sum(lens@.subrange(0, i + 1)) == total + a + b);
        }
        if a > usize::MAX - total || b > usize::MAX - total - a {
            return None;
        }
        total = total + a + b;
        i = i + 1;
    }
    assert(lens@.subrange(0, i as int) == lens@);
    Some(total)
}

} // verus!
