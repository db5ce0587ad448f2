//! Page ranges: the predefined ranges of the supported books, and the parser
//! for lists such as `12-13,15,22-23`.
use vstd::prelude::*;


verus! {

/// The pages of the Stormlight World Guide that hold stat blocks.
pub const STORMLIGHT_WORLDGUIDE: &'static str = "191-269";

/// The pages of the Stonewalkers adventure that hold stat blocks.
pub const STONEWALKERS: &'static str = "136-170";

/// What `resolve` gives for `s`: the page list of a predefined book name,
/// or `s` itself.
pub open spec fn spec_resolve(s: Seq<char>) -> Seq<char> {
    if s == "stormlight-worldguide"@ {
        STORMLIGHT_WORLDGUIDE@
    } else if s == "stonewalkers"@ {
        STONEWALKERS@
    } else {
        s
    }
}

/// `a@ == b@`, character by character.
pub fn str_eq(a: &str, b: &str) -> (r: bool)
    ensures
        r == (a@ == b@),
{
    let n = a.unicode_len();
    if n != b.unicode_len() {
        return false;
    }
    let mut i: usize = 0;
    while i < n
        invariant
            n == a@.len() == b@.len(),
            i <= n,
            forall|k: int| 0 <= k < i ==> a@[k] == b@[k],
        decreases n - i,
    {
        if a.get_char(i) != b.get_char(i) {
            return false;
        }
        i = i + 1;
    }
    assert(a@ =~= b@);
    true
}

/// Resolves the name of a predefined page range (`stormlight-worldguide`,
/// `stonewalkers`) to its pages; any other text is returned as it is.
pub fn resolve(s: &str) -> (r: &str)
    ensures
        r@ == spec_resolve(s@),
{
    if str_eq(s, "stormlight-worldguide") {
        STORMLIGHT_WORLDGUIDE
    } else if str_eq(s, "stonewalkers") {
        STONEWALKERS
    } else {
        s
    }
}

} // verus!
