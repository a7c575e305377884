use vstd::prelude::*;

verus! {

/// Why a listing request was not answered.
#[derive(Debug, Clone, Copy, PartialEq, Eq, Structural)]
pub enum ListingError {
    /// The `page` parameter is missing or is not an integer.
    MalformedPage,
    /// The `page` parameter is an integer, but no page has that number
    /// (it is below 1, or its window would start past the largest offset).
    PageOutOfRange,
    /// The count query or the fetch failed.
    Storage,
}

impl ListingError {
    /// Whether the caller is at fault (as opposed to the store).
    pub fn is_client_error(&self) -> (r: bool)
        ensures
            r == (*self != ListingError::Storage),
    {
        match self {
            ListingError::MalformedPage => true,
            ListingError::PageOutOfRange => true,
            ListingError::Storage => false,
        }
    }
}

} // verus!
