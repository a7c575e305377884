use mods_api::error::ListingError;
use mods_api::pagination::{page_count, page_window, PageWindow, PAGE_LIMIT};

#[test]
fn limit_is_fifty() {
    assert_eq!(PAGE_LIMIT, 50);
}

#[test]
fn first_pages_offsets() {
    assert_eq!(page_window(1), Ok(PageWindow { limit: 50, offset: 0 }));
    assert_eq!(page_window(2), Ok(PageWindow { limit: 50, offset: 50 }));
    assert_eq!(page_window(3), Ok(PageWindow { limit: 50, offset: 100 }));
    assert_eq!(page_window(7), Ok(PageWindow { limit: 50, offset: 300 }));
}

#[test]
fn page_zero_and_negative_are_out_of_range() {
    assert_eq!(page_window(0), Err(ListingError::PageOutOfRange));
    assert_eq!(page_window(-1), Err(ListingError::PageOutOfRange));
    assert_eq!(page_window(i64::MIN), Err(ListingError::PageOutOfRange));
}

#[test]
fn largest_page_is_accepted_and_next_is_not() {
    let largest = i64::MAX / 50 + 1;
    assert_eq!(
        page_window(largest),
        Ok(PageWindow { limit: 50, offset: (largest - 1) * 50 })
    );
    assert_eq!(page_window(largest + 1), Err(ListingError::PageOutOfRange));
    assert_eq!(page_window(i64::MAX), Err(ListingError::PageOutOfRange));
}

#[test]
fn page_counts_round_up() {
    assert_eq!(page_count(0), 0);
    assert_eq!(page_count(1), 1);
    assert_eq!(page_count(50), 1);
    assert_eq!(page_count(51), 2);
    assert_eq!(page_count(75), 2);
    assert_eq!(page_count(100), 2);
    assert_eq!(page_count(101), 3);
}

#[test]
fn page_count_of_largest_total() {
    assert_eq!(page_count(i64::MAX), i64::MAX / 50 + 1);
}

#[test]
fn offset_is_page_minus_one_times_limit() {
    for page in 1..200i64 {
        let w = page_window(page).unwrap();
        assert_eq!(w.offset, (page - 1) * 50);
        assert!(w.offset >= 0);
    }
}

#[test]
fn page_count_is_ceiling_for_many_totals() {
    for n in 0..1000i64 {
        let p = page_count(n);
        assert!(p * 50 >= n);
        assert!(p == 0 || (p - 1) * 50 < n);
    }
}
