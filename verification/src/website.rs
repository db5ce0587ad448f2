//! The page-list functions that the web page calls: their results are plain
//! strings and lists, ready to hand to a script.
use vstd::prelude::*;

use crate::page_ranges::{capped, parse_pages_capped, spec_parse_pages};

verus! {

/// The most pages that `parse_pages` hands out.
pub const PAGE_LIMIT: usize = 500;

/// The message of a page-list error whose offending text is `found`.
pub open spec fn error_message(found: Seq<char>) -> Seq<char> {
    "Expected unsigned integer, found: "@ + found
}

/// The first 500 pages that the page list `s` names, or the error message.
pub fn parse_pages(s: &str) -> (r: Result<Vec<u32>, String>)
    ensures
        match spec_parse_pages(s@) {
            Ok(pages) => r matches Ok(v) && v@ == capped(pages, PAGE_LIMIT as nat),
            Err(x) => r matches Err(m) && m@ == error_message(x),
        },
{
    match parse_pages_capped(s, PAGE_LIMIT) {
        Ok(v) => Ok(v),
        Err(e) => Err(e.message()),
    }
}

/// `None` where `s` is a valid page list, else the error message.
pub fn validate_pages(s: &str) -> (r: Option<String>)
    ensures
        match spec_parse_pages(s@) {
            Ok(_) => r is None,
            Err(x) => r matches Some(m) && m@ == error_message(x),
        },
{
    match parse_pages_capped(s, 0) {
        Ok(_) => None,
        Err(e) => Some(e.message()),
    }
}

} // verus!
