//! Paginated, most-downloaded-first listing of catalogue entries ("mods").
//!
//! The library turns a requested page into a bounded window over the
//! catalogue, and shapes what the store returned into a response envelope.
//! Running the queries and speaking HTTP is left to the caller.
use vstd::prelude::*;

pub mod error;
pub mod pagination;
pub mod request;
pub mod listing;
