use mods_api::error::ListingError;
use mods_api::pagination::PageWindow;
use mods_api::request::{parse_page, plan_request, Pagination};

#[test]
fn parses_plain_numbers() {
    assert_eq!(parse_page("1"), Ok(Pagination { page: 1 }));
    assert_eq!(parse_page("42"), Ok(Pagination { page: 42 }));
    assert_eq!(parse_page("007"), Ok(Pagination { page: 7 }));
}

#[test]
fn parses_signs() {
    assert_eq!(parse_page("+3"), Ok(Pagination { page: 3 }));
    assert_eq!(parse_page("-4"), Ok(Pagination { page: -4 }));
    assert_eq!(parse_page("-0"), Ok(Pagination { page: 0 }));
}

#[test]
fn parses_the_ends_of_the_range() {
    assert_eq!(parse_page("9223372036854775807"), Ok(Pagination { page: i64::MAX }));
    assert_eq!(parse_page("-9223372036854775808"), Ok(Pagination { page: i64::MIN }));
}

#[test]
fn rejects_numbers_out_of_range() {
    assert_eq!(parse_page("9223372036854775808"), Err(ListingError::MalformedPage));
    assert_eq!(parse_page("-9223372036854775809"), Err(ListingError::MalformedPage));
    assert_eq!(parse_page("99999999999999999999999"), Err(ListingError::MalformedPage));
}

#[test]
fn rejects_text_that_is_no_integer() {
    for text in ["", "abc", "1.5", "+", "-", "2x", " 2", "2 ", "--1", "+-1", "1e3"] {
        assert_eq!(parse_page(text), Err(ListingError::MalformedPage), "{}", text);
    }
}

#[test]
fn malformed_page_is_a_client_error_before_any_query() {
    let r = plan_request("two");
    assert_eq!(r, Err(ListingError::MalformedPage));
    assert!(r.unwrap_err().is_client_error());
}

#[test]
fn page_below_one_is_a_client_error() {
    assert_eq!(plan_request("0"), Err(ListingError::PageOutOfRange));
    assert_eq!(plan_request("-3"), Err(ListingError::PageOutOfRange));
    assert!(ListingError::PageOutOfRange.is_client_error());
}

#[test]
fn storage_failure_is_no_client_error() {
    assert!(!ListingError::Storage.is_client_error());
}

#[test]
fn plans_the_window_of_a_page() {
    assert_eq!(plan_request("1"), Ok(PageWindow { limit: 50, offset: 0 }));
    assert_eq!(plan_request("2"), Ok(PageWindow { limit: 50, offset: 50 }));
    assert_eq!(plan_request("3"), Ok(PageWindow { limit: 50, offset: 100 }));
}
