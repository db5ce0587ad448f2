//! What the web form makes of its page-list field.
use vstd::prelude::*;

use crate::page_ranges::{parse_pages, spec_parse_pages};
use crate::website::error_message;

verus! {

/// The validity message that the page-list field shows for an error whose
/// offending text is `found`.
pub open spec fn validity_message(found: Seq<char>) -> Seq<char> {
    "Pages should match `1,2-4,...`: "@ + error_message(found)
}

/// The pages that the field's text `value` names, and the field's validity
/// message: empty where the text is valid, else a hint and the error.
pub fn get_pages(value: &str) -> (r: (Option<Vec<u32>>, String))
    ensures
        match spec_parse_pages(value@) {
            Ok(pages) => r.0 matches Some(v) && v@ == pages && r.1@ == Seq::<char>::empty(),
            Err(x) => r.0 is None && r.1@ == validity_message(x),
        },
{
    match parse_pages(value) {
        Ok(pages) => (Some(pages), String::new()),
        Err(error) => {
            let mut m = String::from_str("Pages should match `1,2-4,...`: ");
            let e = error.message();
            m.append(e.as_str());
            proof {
                assert(m@ =~= validity_message(error.0@));
            }
            (None, m)
        },
    }
}

} // verus!
