//! Pagination arithmetic.

use vstd::prelude::*;

verus! {

/// Number of pages needed to show `count` items, `page_size` items per page:
/// the integer ceiling of `count / page_size`.
pub open spec fn page_count(count: int, page_size: int) -> int
    recommends
        count >= 0,
        page_size >= 1,
{
    if count % page_size == 0 {
        count / page_size
    } else {
        count / page_size + 1
    }
}

/// The part of a sequence that starts at position `offset` and has at most
/// `limit` items. A negative number counts as zero; what lies beyond the end
/// of the sequence is left out.
pub open spec fn window<T>(s: Seq<T>, offset: int, limit: int) -> Seq<T> {
    let skip = if offset < 0 {
        0
    } else {
        offset
    };
    let take = if limit < 0 {
        0
    } else {
        limit
    };
    let from = if skip < s.len() {
        skip
    } else {
        s.len() as int
    };
    let to = if skip + take < s.len() {
        skip + take
    } else {
        s.len() as int
    };
    s.subrange(from, to)
}

/// Computes the number of pages for `count` items.
pub fn total_pages(count: i64, page_size: i64) -> (pages: i64)
    requires
        count >= 0,
        page_size >= 1,
    ensures
        pages == page_count(count as int, page_size as int),
{
    let whole: i64 = count / page_size;
    if count % page_size == 0 {
        whole
    } else {
        assert(whole < count) by (nonlinear_arith)
            requires
                whole == count / page_size,
                count % page_size != 0,
                count >= 0,
                page_size >= 1,
        ;
        whole + 1
    }
}

} // verus!
