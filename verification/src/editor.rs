//! The decisions of the web page's grammar editor: its layout, which of its
//! panels show, and the pages offered for a preview.
use vstd::prelude::*;

use crate::chars::push_char;
use crate::page_ranges::{
    all_digits, capped, digits_value, parse_pages_capped, spec_parse_pages, spec_parse_u32,
};
use crate::pages::str_eq;

verus! {

/// The most pages offered for a preview.
pub const PREVIEW_LIMIT: usize = 100;

/// Whether the editor is laid out wide after its style was set to
/// `editor_style`: `side-by-side` makes it wide, `vertical` narrow, and any
/// other style leaves it as it was (`wide`).
pub fn update_editor_layout(editor_style: &str, wide: bool) -> (r: bool)
    ensures
        r == if editor_style@ == "side-by-side"@ {
            true
        } else if editor_style@ == "vertical"@ {
            false
        } else {
            wide
        },
{
    if str_eq(editor_style, "side-by-side") {
        true
    } else if str_eq(editor_style, "vertical") {
        false
    } else {
        wide
    }
}

/// Whether the data-mapping editor shows for the chosen mapping: it is
/// hidden for `none` only.
pub fn update_mapper_visibility(data_mapping: &str) -> (r: bool)
    ensures
        r == (data_mapping@ != "none"@),
{
    !str_eq(data_mapping, "none")
}

/// Whether the preview is brought up to date for the chosen parser: only
/// the `manual` parser has one.
pub fn update_preview(parser: &str) -> (r: bool)
    ensures
        r == (parser@ == "manual"@),
{
    str_eq(parser, "manual")
}

/// The character of a decimal digit.
pub open spec fn digit_char(d: nat) -> char {
    ((d + 48) as u8) as char
}

/// The decimal numeral of `n`, without leading zeros.
pub open spec fn decimal(n: nat) -> Seq<char>
    decreases n,
{
    if n < 10 {
        seq![digit_char(n)]
    } else {
        decimal(n / 10).push(digit_char(n % 10))
    }
}

/// Appends the decimal numeral of `n` to `out`.
fn push_decimal(out: &mut String, n: u32)
    ensures
        final(out)@ == old(out)@ + decimal(n as nat),
    decreases n,
{
    if n >= 10 {
        push_decimal(out, n / 10);
    }
    let d: u8 = (n % 10) as u8 + 48;
    push_char(out, d as char);
    proof {
        assert(old(out)@ + decimal(n as nat) =~= final(out)@) by {
            if n >= 10 {
                assert(decimal(n as nat) == decimal((n / 10) as nat).push(digit_char((n % 10) as nat)));
            }
        }
    }
}

/// The labels of the pages offered for a preview: the first 100 pages that
/// the page-list text `value` names, as decimal numerals; none where the
/// text is not a valid page list.
pub fn update_preview_page_selection(value: &str) -> (r: Vec<String>)
    ensures
        match spec_parse_pages(value@) {
            Ok(pages) => r@.len() == capped(pages, PREVIEW_LIMIT as nat).len() && forall|i: int|
                0 <= i < r@.len() ==> #[trigger] r@[i]@ == decimal(
                    capped(pages, PREVIEW_LIMIT as nat)[i] as nat,
                ),
            Err(_) => r@.len() == 0,
        },
{
    let mut labels: Vec<String> = Vec::new();
    match parse_pages_capped(value, PREVIEW_LIMIT) {
        Err(_) => labels,
        Ok(pages) => {
            let mut k: usize = 0;
            while k < pages.len()
                invariant
                    k <= pages@.len(),
                    labels@.len() == k,
                    forall|i: int| 0 <= i < k ==> #[trigger] labels@[i]@ == decimal(pages@[i] as nat),
                decreases pages@.len() - k,
            {
                let mut label = String::new();
                push_decimal(&mut label, pages[k]);
                labels.push(label);
                k = k + 1;
            }
            labels
        },
    }
}

proof fn lemma_decimal(n: nat)
    ensures
        decimal(n).len() > 0,
        decimal(n)[0] != '+',
        all_digits(decimal(n)),
        digits_value(decimal(n)) == n,
    decreases n,
{
    if n < 10 {
        assert(decimal(n).drop_last() =~= Seq::<char>::empty());
        assert(digit_char(n) as int == n + 48);
        assert('0' as int == 48);
        assert(decimal(n).last() == digit_char(n));
        assert(digits_value(decimal(n)) == digits_value(decimal(n).drop_last()) * 10 + (decimal(n).last() as int - '0' as int) as nat);
    } else {
        lemma_decimal(n / 10);
        let d = decimal(n);
        assert(d.drop_last() =~= decimal(n / 10));
        assert(digit_char(n % 10) as int == n % 10 + 48);
        assert((n / 10) * 10 + n % 10 == n) by (nonlinear_arith);
        assert('0' as int == 48);
        assert(d.last() == digit_char(n % 10));
        assert(digits_value(d) == digits_value(d.drop_last()) * 10 + (d.last() as int - '0' as int) as nat);
        assert forall|k: int| 0 <= k < d.len() implies crate::chars::is_ascii_digit(#[trigger] d[k]) by {
            if k < d.len() - 1 {
                assert(d[k] == decimal(n / 10)[k]);
            }
        }
    }
}

/// A preview label reads back as the page it stands for: the decimal
/// numeral of a page is a valid page number of the same value.
pub proof fn law_preview_label_parses_back(page: u32)
    ensures
        spec_parse_u32(decimal(page as nat)) == Some(page),
{
    lemma_decimal(page as nat);
}

} // verus!
