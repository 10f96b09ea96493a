//! Page arithmetic for a listing: the defaults for absent or zero inputs, the
//! page count, and the window of entries that a page shows.
use vstd::prelude::*;

verus! {

/// Page size used when none, or zero, is asked for.
pub const DEFAULT_PAGE_SIZE: usize = 18;

/// The page size in force for a requested one.
pub open spec fn page_size_of(requested: Option<usize>) -> usize {
    match requested {
        Some(n) => if n == 0 {
            DEFAULT_PAGE_SIZE
        } else {
            n
        },
        None => DEFAULT_PAGE_SIZE,
    }
}

/// The page number in force for a requested one (1 when absent; 0 is kept).
pub open spec fn page_of(requested: Option<usize>) -> usize {
    match requested {
        Some(p) => p,
        None => 1,
    }
}

/// Number of pages: `total / page_size` rounded up.
pub open spec fn total_pages_of(total: int, page_size: int) -> int {
    if total % page_size == 0 {
        total / page_size
    } else {
        total / page_size + 1
    }
}

/// Index of the first entry of a page; a page below 1 counts as page 1.
pub open spec fn start_of(page: int, page_size: int) -> int {
    if page >= 1 {
        (page - 1) * page_size
    } else {
        0
    }
}

/// The entries `[start, end)` that a page shows out of `total`: empty where
/// the page starts at or past the end.
pub open spec fn window_of(total: int, page: int, page_size: int) -> (int, int) {
    let s = start_of(page, page_size);
    if s >= total {
        (0, 0)
    } else if s + page_size <= total {
        (s, s + page_size)
    } else {
        (s, total)
    }
}

/// The paging facts reported with a listing.
#[derive(Clone, Copy, Debug, PartialEq, Eq)]
pub struct Pagination {
    pub page: usize,
    pub page_size: usize,
    pub total_pages: usize,
    pub total_videos: usize,
    pub has_next_page: bool,
    pub has_prev_page: bool,
}

/// The page size in force: the requested one, or 18 when it is absent or 0.
pub fn effective_page_size(requested: Option<usize>) -> (r: usize)
    ensures
        r == page_size_of(requested),
        r > 0,
        requested is None ==> r == DEFAULT_PAGE_SIZE,
        requested == Some(0usize) ==> r == DEFAULT_PAGE_SIZE,
{
    match requested {
        Some(n) => if n == 0 {
            DEFAULT_PAGE_SIZE
        } else {
            n
        },
        None => DEFAULT_PAGE_SIZE,
    }
}

/// The page number in force: the requested one, or 1 when it is absent.
pub fn effective_page(requested: Option<usize>) -> (r: usize)
    ensures
        r == page_of(requested),
{
    match requested {
        Some(p) => p,
        None => 1,
    }
}

/// Number of pages needed for `total` entries, `page_size` to a page.
pub fn total_pages(total: usize, page_size: usize) -> (r: usize)
    requires
        page_size > 0,
    ensures
        r == total_pages_of(total as int, page_size as int),
{
    if total % page_size == 0 {
        total / page_size
    } else {
        assert(page_size >= 2);
        assert((total as int) / (page_size as int) < usize::MAX) by (nonlinear_arith)
            requires
                page_size >= 2,
                total <= usize::MAX,
        ;
        total / page_size + 1
    }
}

/// The window `[start, end)` of the entries that `page` shows out of `total`.
pub fn page_window(total: usize, page: usize, page_size: usize) -> (r: (usize, usize))
    requires
        page_size > 0,
    ensures
        r.0 == window_of(total as int, page as int, page_size as int).0,
        r.1 == window_of(total as int, page as int, page_size as int).1,
{
    let before: usize = if page >= 1 {
        page - 1
    } else {
        0
    };
    let start = match before.checked_mul(page_size) {
        Some(s) => s,
        None => return (0, 0),
    };
    if start >= total {
        (0, 0)
    } else if page_size <= total - start {
        (start, start + page_size)
    } else {
        (start, total)
    }
}

/// The paging facts for `page` over `total` entries.
pub fn paginate(total: usize, page: usize, page_size: usize) -> (r: Pagination)
    requires
        page_size > 0,
    ensures
        r.page == page,
        r.page_size == page_size,
        r.total_videos == total,
        r.total_pages == total_pages_of(total as int, page_size as int),
        r.has_next_page == (page < r.total_pages),
        r.has_prev_page == (page > 1),
{
    let tp = total_pages(total, page_size);
    Pagination {
        page,
        page_size,
        total_pages: tp,
        total_videos: total,
        has_next_page: page < tp,
        has_prev_page: page > 1,
    }
}

/// A page past the last one shows no entries and has no next page.
pub proof fn lemma_page_past_end(total: nat, page: nat, page_size: nat)
    requires
        page_size > 0,
        page > total_pages_of(total as int, page_size as int),
    ensures
        window_of(total as int, page as int, page_size as int) == (0int, 0int),
        !(page < total_pages_of(total as int, page_size as int)),
{
    let q = total as int / page_size as int;
    let t = total as int;
    let ps = page_size as int;
    assert(t == q * ps + t % ps) by (nonlinear_arith)
        requires
            q == t / ps,
            ps > 0,
    ;
    assert(t <= total_pages_of(t, ps) * ps) by (nonlinear_arith)
        requires
            t == q * ps + t % ps,
            0 <= t % ps < ps,
            total_pages_of(t, ps) == if t % ps == 0 {
                q
            } else {
                q + 1
            },
    ;
    assert(total_pages_of(t, ps) * ps <= (page - 1) * ps) by (nonlinear_arith)
        requires
            total_pages_of(t, ps) <= page - 1,
            ps > 0,
    ;
}

} // verus!
