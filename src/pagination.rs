use vstd::prelude::*;

use crate::error::ListingError;

verus! {

/// Number of records on one page.
pub const PAGE_LIMIT: i64 = 50;

/// Records skipped before page `page` (pages are numbered from 1).
pub open spec fn offset_of(page: int) -> int {
    (page - 1) * (PAGE_LIMIT as int)
}

/// A page number that names a window: at least 1, with an offset that fits in `i64`.
pub open spec fn is_valid_page(page: int) -> bool {
    1 <= page && offset_of(page) <= i64::MAX
}

/// Pages needed for `total` records: `total / 50` rounded up.
pub open spec fn pages_of(total: int) -> int {
    if total % (PAGE_LIMIT as int) == 0 {
        total / (PAGE_LIMIT as int)
    } else {
        total / (PAGE_LIMIT as int) + 1
    }
}

/// The window of the ordered catalogue that one page shows.
#[derive(Debug, Clone, Copy, PartialEq, Eq, Structural)]
pub struct PageWindow {
    /// How many records to take.
    pub limit: i64,
    /// How many records to skip first.
    pub offset: i64,
}

/// The window that page `page` shows, or `PageOutOfRange` where no page has that number.
pub fn page_window(page: i64) -> (r: Result<PageWindow, ListingError>)
    ensures
        match r {
            Ok(w) => is_valid_page(page as int) && w.limit == PAGE_LIMIT && w.offset == offset_of(
                page as int,
            ),
            Err(e) => !is_valid_page(page as int) && e == ListingError::PageOutOfRange,
        },
{
    if page < 1 || page - 1 > i64::MAX / PAGE_LIMIT {
        Err(ListingError::PageOutOfRange)
    } else {
        let offset: i64 = (page - 1) * PAGE_LIMIT;
        Ok(PageWindow { limit: PAGE_LIMIT, offset })
    }
}

/// Number of pages for `total` records.
pub fn page_count(total: i64) -> (r: i64)
    requires
        total >= 0,
    ensures
        r == pages_of(total as int),
{
    let whole: i64 = total / PAGE_LIMIT;
    if total % PAGE_LIMIT == 0 {
        whole
    } else {
        whole + 1
    }
}

/// Every page from 1 on starts `(page - 1) * 50` records in, which is
/// `page * 50 - 50` and never negative.
pub proof fn lemma_offset_of_page(page: int)
    requires
        page >= 1,
    ensures
        offset_of(page) == page * PAGE_LIMIT - PAGE_LIMIT,
        offset_of(page) >= 0,
{
    assert(offset_of(page) >= 0) by (nonlinear_arith)
        requires
            page >= 1,
            offset_of(page) == (page - 1) * 50,
    ;
}

/// For any number of records the page count is the ceiling of `total / 50`:
/// the least count of pages of 50 that hold them all, which is also
/// `(total + 49) / 50` in integer division.
pub proof fn lemma_pages_is_ceiling(total: int)
    requires
        total >= 0,
    ensures
        pages_of(total) >= 0,
        pages_of(total) * PAGE_LIMIT >= total,
        pages_of(total) == 0 || (pages_of(total) - 1) * PAGE_LIMIT < total,
        pages_of(total) == (total + PAGE_LIMIT - 1) / (PAGE_LIMIT as int),
{
}

} // verus!
