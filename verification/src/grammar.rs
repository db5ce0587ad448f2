//! The grammar of a stat block, as spec functions over the characters of a
//! page.
//!
//! Each parser takes the page `s` and a position `i`, and gives either the
//! position after what it read and the value read, or a failure: `Error`
//! (this alternative does not apply; an enclosing option or repetition may
//! try another) or `Failure` (the text is malformed past recovery: a label
//! was found but not what must follow it).
//!
//! Labels (`Health:`, `Focus`, `features`, ...) match regardless of ASCII
//! case; "whitespace" is Unicode `White_Space`; "letters" and "digits" are
//! ASCII.
use vstd::prelude::*;

use crate::chars::{
    ascii_lower, byte_len, char_at_byte, find_from, find_seq, fold_case, is_ascii_alpha,
    is_ascii_digit, is_ws, lemma_char_at_byte_bounds, occurs_at,
    lemma_find_seq_bounds, lemma_skip_ws_bounds, lemma_trim_idempotent, skip_ws, trim, trim_end,
};
use crate::page_ranges::digits_value;
use crate::structure::{
    spec_action_kind, spec_role, spec_size, ActionKind, ActionModel, AttributesModel, BeastModel,
    DefensesModel, DescValueModel, FeatureModel, MovementModel, Ranged, Role, Size, SkillModel,
};

verus! {

broadcast use lemma_char_at_byte_bounds;

#[derive(Clone, Copy, PartialEq, Eq, Debug)]
pub enum Fail {
    Error,
    Failure,
}

/// Character classes of the runs the grammar reads.
#[derive(Clone, Copy, PartialEq, Eq, Debug)]
pub enum Class {
    Digit,
    Letter,
    /// space or tab
    Blank,
    /// space, tab, carriage return or line feed
    Space,
    NotWhitespace,
    /// the action symbols `▷`, `▶` and `↩`
    ActionSymbol,
    NotLineBreak,
}

pub open spec fn in_class(c: char, k: Class) -> bool {
    match k {
        Class::Digit => is_ascii_digit(c),
        Class::Letter => is_ascii_alpha(c),
        Class::Blank => c == ' ' || c == '\t',
        Class::Space => c == ' ' || c == '\t' || c == '\r' || c == '\n',
        Class::NotWhitespace => !is_ws(c),
        Class::ActionSymbol => c == '\u{25b7}' || c == '\u{25b6}' || c == '\u{21a9}',
        Class::NotLineBreak => c != '\r' && c != '\n',
    }
}

/// The end of the run of `k` characters that starts at `i`.
pub open spec fn run_end(s: Seq<char>, i: int, k: Class) -> int
    decreases s.len() - i,
{
    if 0 <= i < s.len() && in_class(s[i], k) {
        run_end(s, i + 1, k)
    } else {
        i
    }
}

/// After leading whitespace.
pub open spec fn lead(s: Seq<char>, i: int) -> int {
    skip_ws(s, i, s.len() as int)
}

/// One or more `k` characters.
pub open spec fn p_run1(s: Seq<char>, i: int, k: Class) -> Result<int, Fail> {
    if run_end(s, i, k) > i {
        Ok(run_end(s, i, k))
    } else {
        Err(Fail::Error)
    }
}

/// The label `t` (ASCII) matches at `i`: as far as both go, the characters
/// of `s[i..]` and of `t` agree without case (`fold_case`), and what is left
/// of `s` is at least as long as `t` in UTF-8 bytes.
pub open spec fn tag_matches(s: Seq<char>, i: int, t: Seq<char>) -> bool {
    &&& 0 <= i <= s.len()
    &&& forall|k: int|
        0 <= k < t.len() && i + k < s.len() ==> fold_case(#[trigger] s[i + k]) == fold_case(t[k])
    &&& byte_len(s, i, s.len() as int) >= byte_len(t, 0, t.len() as int)
}

/// The label `t`: where it matches, the text is cut after as many UTF-8 bytes
/// as `t` has. A cut that would fall inside a character is a failure (no
/// label read here can end so; a Kelvin sign matches only the `k` of
/// "Skills", early enough in the label).
pub open spec fn p_tag(s: Seq<char>, i: int, t: Seq<char>) -> Result<int, Fail> {
    if tag_matches(s, i, t) {
        match char_at_byte(s, i, byte_len(t, 0, t.len() as int) as int) {
            Some(j) => Ok(j),
            None => Err(Fail::Failure),
        }
    } else {
        Err(Fail::Error)
    }
}

pub open spec fn p_char(s: Seq<char>, i: int, c: char) -> Result<int, Fail> {
    if 0 <= i < s.len() && s[i] == c {
        Ok(i + 1)
    } else {
        Err(Fail::Error)
    }
}

/// An optional `c`.
pub open spec fn opt_char(s: Seq<char>, i: int, c: char) -> int {
    match p_char(s, i, c) {
        Ok(j) => j,
        Err(_) => i,
    }
}

/// Up to (not including) the first `t`.
pub open spec fn p_until(s: Seq<char>, i: int, t: Seq<char>) -> Result<int, Fail> {
    match find_seq(s, t, i) {
        Some(k) => Ok(k),
        None => Err(Fail::Error),
    }
}

/// Up to the first `t`, or to the end.
pub open spec fn until_or_end(s: Seq<char>, i: int, t: Seq<char>) -> int {
    match find_seq(s, t, i) {
        Some(k) => k,
        None => s.len() as int,
    }
}

/// An `Error` inside becomes a `Failure`.
pub open spec fn cut<T>(r: Result<T, Fail>) -> Result<T, Fail> {
    match r {
        Ok(x) => Ok(x),
        Err(_) => Err(Fail::Failure),
    }
}

/// A decimal number that fits in a `u64`.
pub open spec fn p_number(s: Seq<char>, i: int) -> Result<(int, u64), Fail> {
    match p_run1(s, i, Class::Digit) {
        Err(e) => Err(e),
        Ok(j) => if digits_value(s.subrange(i, j)) <= u64::MAX {
            Ok((j, digits_value(s.subrange(i, j)) as u64))
        } else {
            Err(Fail::Error)
        },
    }
}

/// A number followed by `feet`, `ft` or `ft.`.
pub open spec fn p_feet(s: Seq<char>, i: int) -> Result<(int, u64), Fail> {
    match p_number(s, i) {
        Err(e) => Err(e),
        Ok((j, v)) => {
            let k = lead(s, j);
            match p_tag(s, k, "feet"@) {
                Ok(m) => Ok((m, v)),
                Err(_) => match p_tag(s, k, "ft"@) {
                    Ok(m) => Ok((opt_char(s, m, '.'), v)),
                    Err(e) => Err(e),
                },
            }
        },
    }
}

/// The label `name` and a colon: the position after the colon. Once the label
/// is found, a missing colon is a `Failure`.
pub open spec fn p_named(s: Seq<char>, i: int, name: Seq<char>) -> Result<int, Fail> {
    match p_tag(s, i, name) {
        Err(e) => Err(e),
        Ok(j) => cut(p_char(s, lead(s, j), ':')),
    }
}

/// `(` text `)`: the text up to the first `)`, and the position after `)`.
pub open spec fn p_paren(s: Seq<char>, i: int) -> Result<(int, (int, int)), Fail> {
    match p_char(s, lead(s, i), '(') {
        Err(e) => Err(e),
        Ok(a) => match p_until(s, a, ")"@) {
            Err(e) => Err(e),
            Ok(b) => match p_char(s, lead(s, b), ')') {
                Err(e) => Err(e),
                Ok(c) => Ok((c, (a, b))),
            },
        },
    }
}

/// `name: value (text)`, the value a number (or a number in feet), the text
/// trimmed.
pub open spec fn p_desc_value(s: Seq<char>, i: int, name: Seq<char>, feet: bool) -> Result<
    (int, DescValueModel<u64>),
    Fail,
> {
    match p_named(s, i, name) {
        Err(e) => Err(e),
        Ok(j) => {
            let k = lead(s, lead(s, j));
            cut(
                match (if feet {
                    p_feet(s, k)
                } else {
                    p_number(s, k)
                }) {
                    Err(e) => Err(e),
                    Ok((m, v)) => match p_paren(s, m) {
                        Err(e) => Err(e),
                        Ok((n, (a, b))) => Ok(
                            (n, DescValueModel { value: v, desc: trim(s.subrange(a, b)) }),
                        ),
                    },
                },
            )
        },
    }
}

/// `Health: 22 (18–26)`.
pub open spec fn p_health(s: Seq<char>, i: int) -> Result<(int, Ranged), Fail> {
    match p_tag(s, i, "Health:"@) {
        Err(e) => Err(e),
        Ok(a) => match p_number(s, lead(s, a)) {
            Err(e) => Err(e),
            Ok((b, value)) => match p_char(s, lead(s, b), '(') {
                Err(e) => Err(e),
                Ok(c) => match p_number(s, lead(s, c)) {
                    Err(e) => Err(e),
                    Ok((d, min)) => match p_dash(s, lead(s, d)) {
                        Err(e) => Err(e),
                        Ok(f) => match p_number(s, lead(s, f)) {
                            Err(e) => Err(e),
                            Ok((g, max)) => match p_char(s, lead(s, g), ')') {
                                Err(e) => Err(e),
                                Ok(h) => Ok((h, Ranged { value, min, max })),
                            },
                        },
                    },
                },
            },
        },
    }
}

/// A hyphen or an en dash.
pub open spec fn p_dash(s: Seq<char>, i: int) -> Result<int, Fail> {
    if 0 <= i < s.len() && (s[i] == '-' || s[i] == '\u{2013}') {
        Ok(i + 1)
    } else {
        Err(Fail::Error)
    }
}

/// A word of letters after optional whitespace: its bounds.
pub open spec fn p_word(s: Seq<char>, i: int) -> Result<(int, (int, int)), Fail> {
    let a = lead(s, i);
    match p_run1(s, a, Class::Letter) {
        Err(e) => Err(e),
        Ok(b) => Ok((b, (a, b))),
    }
}

/// A comma after optional whitespace.
pub open spec fn p_comma(s: Seq<char>, i: int) -> Result<int, Fail> {
    p_char(s, lead(s, i), ',')
}

/// `, swim 30 ft.`
pub open spec fn p_move_item(s: Seq<char>, i: int) -> Result<(int, DescValueModel<u64>), Fail> {
    match p_comma(s, i) {
        Err(e) => Err(e),
        Ok(a) => match p_word(s, a) {
            Err(e) => Err(e),
            Ok((b, (wa, wb))) => match p_feet(s, lead(s, b)) {
                Err(e) => Err(e),
                Ok((c, v)) => Ok((c, DescValueModel { value: v, desc: s.subrange(wa, wb) })),
            },
        },
    }
}

/// The further speeds of a movement, as many as follow.
pub open spec fn p_move_extras(s: Seq<char>, i: int) -> Result<(int, Seq<DescValueModel<u64>>), Fail>
    decreases s.len() - i when 0 <= i <= s.len()
{
    match p_move_item(s, i) {
        Err(Fail::Error) => Ok((i, seq![])),
        Err(Fail::Failure) => Err(Fail::Failure),
        Ok((j, x)) => {
            proof {
                lemma_move_item(s, i);
            }
            if j == i {
                Err(Fail::Error)
            } else {
                match p_move_extras(s, j) {
                    Ok((k, xs)) => Ok((k, seq![x] + xs)),
                    Err(e) => Err(e),
                }
            }
        },
    }
}

/// `15 ft., swim 30 ft. (30 ft. while Investiture is 0)`.
pub open spec fn p_movement(s: Seq<char>, i: int) -> Result<(int, MovementModel), Fail> {
    match p_feet(s, lead(s, i)) {
        Err(e) => Err(e),
        Ok((a, value)) => match p_move_extras(s, a) {
            Err(e) => Err(e),
            Ok((b, extra)) => match p_paren(s, b) {
                Ok((c, (x, y))) => Ok(
                    (c, MovementModel { value, extra, desc: Some(trim(s.subrange(x, y))) }),
                ),
                Err(_) => Ok((b, MovementModel { value, extra, desc: None })),
            },
        },
    }
}

/// More words, each after a comma.
pub open spec fn p_words_tail(s: Seq<char>, i: int) -> Result<(int, Seq<Seq<char>>), Fail>
    decreases s.len() - i when 0 <= i <= s.len()
{
    match p_comma(s, i) {
        Err(_) => Ok((i, seq![])),
        Ok(a) => match p_word(s, a) {
            Err(_) => Ok((i, seq![])),
            Ok((b, (x, y))) => {
                proof {
                    lemma_comma(s, i);
                    lemma_word(s, a);
                }
                match p_words_tail(s, b) {
                    Ok((c, ws)) => Ok((c, seq![s.subrange(x, y)] + ws)),
                    Err(e) => Err(e),
                }
            },
        },
    }
}

/// Words separated by commas, possibly none.
pub open spec fn p_words(s: Seq<char>, i: int) -> Result<(int, Seq<Seq<char>>), Fail> {
    match p_word(s, i) {
        Err(_) => Ok((i, seq![])),
        Ok((b, (x, y))) => match p_words_tail(s, b) {
            Ok((c, ws)) => Ok((c, seq![s.subrange(x, y)] + ws)),
            Err(e) => Err(e),
        },
    }
}

/// The end of further words of a skill's name.
pub open spec fn p_name_words(s: Seq<char>, i: int) -> int
    decreases s.len() - i when 0 <= i <= s.len()
{
    match p_word(s, i) {
        Ok((j, _)) => {
            proof {
                lemma_word(s, i);
            }
            p_name_words(s, j)
        },
        Err(_) => i,
    }
}

/// `Heavy Stabbing +3* (text)`.
pub open spec fn p_skill(s: Seq<char>, i: int) -> Result<(int, SkillModel), Fail> {
    match p_word(s, i) {
        Err(e) => Err(e),
        Ok((a, _)) => {
            let n = p_name_words(s, a);
            let va = lead(s, n);
            match p_tag(s, va, "+"@) {
                Err(e) => Err(e),
                Ok(b) => match p_run1(s, lead(s, b), Class::Digit) {
                    Err(e) => Err(e),
                    Ok(c) => {
                        let vb = opt_char(s, c, '*');
                        let name = trim_end(s.subrange(i, n));
                        let value = s.subrange(va, vb);
                        match p_paren(s, vb) {
                            Ok((d, (x, y))) => Ok(
                                (d, SkillModel { name, value, desc: Some(s.subrange(x, y)) }),
                            ),
                            Err(_) => Ok((vb, SkillModel { name, value, desc: None })),
                        }
                    },
                },
            }
        },
    }
}

/// More skills, each after a comma.
pub open spec fn p_skills_tail(s: Seq<char>, i: int) -> Result<(int, Seq<SkillModel>), Fail>
    decreases s.len() - i when 0 <= i <= s.len()
{
    match p_comma(s, i) {
        Err(_) => Ok((i, seq![])),
        Ok(a) => match p_skill(s, lead(s, a)) {
            Err(_) => Ok((i, seq![])),
            Ok((b, x)) => {
                proof {
                    lemma_comma(s, i);
                    lemma_lead(s, a);
                    lemma_skill(s, lead(s, a));
                }
                match p_skills_tail(s, b) {
                    Ok((c, xs)) => Ok((c, seq![x] + xs)),
                    Err(e) => Err(e),
                }
            },
        },
    }
}

/// Skills separated by commas, possibly none.
pub open spec fn p_skill_list(s: Seq<char>, i: int) -> Result<(int, Seq<SkillModel>), Fail> {
    match p_skill(s, lead(s, i)) {
        Err(_) => Ok((i, seq![])),
        Ok((b, x)) => match p_skills_tail(s, b) {
            Ok((c, xs)) => Ok((c, seq![x] + xs)),
            Err(e) => Err(e),
        },
    }
}

/// An optional labelled list of skills (`Physical Skills: ...`); none when
/// the label is missing.
pub open spec fn p_skills(s: Seq<char>, i: int, name: Seq<char>) -> Result<(int, Seq<SkillModel>), Fail> {
    let a = lead(s, i);
    match p_named(s, a, name) {
        Err(Fail::Error) => Ok((a, seq![])),
        Err(Fail::Failure) => Err(Fail::Failure),
        Ok(b) => cut(p_skill_list(s, lead(s, b))),
    }
}

/// An optional labelled list of words (`Immunities: ...`).
pub open spec fn p_immunities(s: Seq<char>, i: int) -> Result<(int, Seq<Seq<char>>), Fail> {
    let a = lead(s, i);
    match p_named(s, a, "Immunities"@) {
        Err(Fail::Error) => Ok((a, seq![])),
        Err(Fail::Failure) => Err(Fail::Failure),
        Ok(b) => cut(p_words(s, lead(s, b))),
    }
}

/// A run of non-whitespace after optional whitespace, other than `features`.
pub open spec fn p_lang_word(s: Seq<char>, i: int) -> Result<int, Fail> {
    let a = lead(s, i);
    let b = run_end(s, a, Class::NotWhitespace);
    if s.subrange(a, b) == "features"@ {
        Err(Fail::Error)
    } else {
        Ok(b)
    }
}

/// The end of further words of a language entry.
pub open spec fn p_lang_more(s: Seq<char>, i: int) -> Result<int, Fail>
    decreases s.len() - i when 0 <= i <= s.len()
{
    match p_lang_word(s, i) {
        Err(_) => Ok(i),
        Ok(j) => {
            proof {
                lemma_lang_word(s, i);
            }
            if j == i {
                Err(Fail::Error)
            } else {
                p_lang_more(s, j)
            }
        },
    }
}

/// One entry of the languages: one or more words, up to `features`.
pub open spec fn p_lang(s: Seq<char>, i: int) -> Result<(int, Seq<char>), Fail> {
    let a = lead(s, i);
    match p_lang_word(s, a) {
        Err(e) => Err(e),
        Ok(b) => match p_lang_more(s, b) {
            Err(e) => Err(e),
            Ok(c) => Ok((c, s.subrange(a, c))),
        },
    }
}

pub open spec fn p_langs_tail(s: Seq<char>, i: int) -> Result<(int, Seq<Seq<char>>), Fail>
    decreases s.len() - i when 0 <= i <= s.len()
{
    match p_comma(s, i) {
        Err(_) => Ok((i, seq![])),
        Ok(a) => match p_lang(s, a) {
            Err(_) => Ok((i, seq![])),
            Ok((b, x)) => {
                proof {
                    lemma_comma(s, i);
                    lemma_lang(s, a);
                }
                match p_langs_tail(s, b) {
                    Ok((c, xs)) => Ok((c, seq![x] + xs)),
                    Err(e) => Err(e),
                }
            },
        },
    }
}

/// `Languages: ...`, when present.
pub open spec fn p_languages(s: Seq<char>, i: int) -> Result<(int, Option<Seq<Seq<char>>>), Fail> {
    match p_tag(s, lead(s, i), "Languages"@) {
        Err(_) => Ok((i, None)),
        Ok(a) => match p_char(s, lead(s, a), ':') {
            Err(_) => Ok((i, None)),
            Ok(b) => {
                let c = lead(s, b);
                match p_lang(s, c) {
                    Err(_) => Ok((c, Some(seq![]))),
                    Ok((d, x)) => match p_langs_tail(s, d) {
                        Ok((e, xs)) => Ok((e, Some(seq![x] + xs))),
                        Err(e) => Err(e),
                    },
                }
            },
        },
    }
}

/// Dots and blanks after a name.
pub open spec fn skip_dots(s: Seq<char>, i: int) -> int
    decreases s.len() - i when 0 <= i <= s.len()
{
    match p_char(s, i, '.') {
        Ok(j) => skip_dots(s, j),
        Err(_) => match p_run1(s, i, Class::Blank) {
            Ok(j) => {
                proof {
                    lemma_run_end(s, i, Class::Blank);
                }
                skip_dots(s, j)
            },
            Err(_) => i,
        },
    }
}

/// The length of a name that starts at `i`: the byte offset of the first `.`
/// or blank line after `i`, or the byte length of the rest of the page,
/// whichever is least, taken as a count of characters (the name is cut by
/// characters at an offset counted in bytes).
pub open spec fn name_len(s: Seq<char>, i: int) -> int {
    let all = byte_len(s, i, s.len() as int) as int;
    let d = find_from(s, '.', i);
    let to_dot = if d < s.len() {
        byte_len(s, i, d) as int
    } else {
        all
    };
    let to_gap = match find_seq(s, "\n\n"@, i) {
        Some(k) => byte_len(s, i, k) as int,
        None => all,
    };
    let m = if to_dot <= to_gap {
        to_dot
    } else {
        to_gap
    };
    if m <= all {
        m
    } else {
        all
    }
}

/// The name of a feature or action, and where its description starts.
pub open spec fn p_name(s: Seq<char>, i: int) -> Result<(int, Seq<char>), Fail> {
    let n = name_len(s, i);
    if i + n <= s.len() {
        Ok((i + n, trim(s.subrange(i, i + n))))
    } else {
        Err(Fail::Error)
    }
}

/// `Name. Description up to a blank line.`
pub open spec fn p_feature(s: Seq<char>, i: int) -> Result<(int, FeatureModel), Fail> {
    match p_name(s, i) {
        Err(e) => Err(e),
        Ok((a, name)) => {
            let b = skip_dots(s, a);
            let c = until_or_end(s, b, "\n\n"@);
            Ok((c, FeatureModel { name, desc: trim(s.subrange(b, c)) }))
        },
    }
}

/// Features, up to one named `actions`.
pub open spec fn p_feature_list(s: Seq<char>, i: int) -> Result<(int, Seq<FeatureModel>), Fail>
    decreases s.len() - i when 0 <= i <= s.len()
{
    match p_feature(s, lead(s, i)) {
        Err(Fail::Failure) => Err(Fail::Failure),
        Err(Fail::Error) => Ok((i, seq![])),
        Ok((j, f)) => if f.name == "actions"@ {
            Ok((i, seq![]))
        } else {
            proof {
                lemma_lead(s, i);
                lemma_feature(s, lead(s, i));
            }
            if j == i {
                Err(Fail::Error)
            } else {
                match p_feature_list(s, j) {
                    Ok((k, fs)) => Ok((k, seq![f] + fs)),
                    Err(e) => Err(e),
                }
            }
        },
    }
}

/// `features` and the features, when present. Where the list cannot be
/// read (its last entry reads no text, as at the end of the page), the
/// section counts as absent: no features, and the text from the label on is
/// left unread.
pub open spec fn p_features(s: Seq<char>, i: int) -> Result<(int, Seq<FeatureModel>), Fail> {
    let a = lead(s, i);
    match p_tag(s, a, "features"@) {
        Err(_) => Ok((a, seq![])),
        Ok(b) => match p_feature_list(s, b) {
            Err(Fail::Error) => Ok((a, seq![])),
            r => r,
        },
    }
}

/// An action kind: a word or a run of action symbols naming one.
pub open spec fn p_action_kind(s: Seq<char>, i: int) -> Result<(int, ActionKind), Fail> {
    let e = match p_run1(s, i, Class::Letter) {
        Ok(e) => Ok(e),
        Err(_) => p_run1(s, i, Class::ActionSymbol),
    };
    match e {
        Err(x) => Err(x),
        Ok(e) => match spec_action_kind(s.subrange(i, e)) {
            Some(k) => Ok((e, k)),
            None => Err(Fail::Error),
        },
    }
}

/// Whether the text of an action continues after a blank line: it holds a
/// bullet or ends in a space (a page break), and what follows is neither a new
/// stat block nor a new action.
pub open spec fn continues(s: Seq<char>, p: int, k: int) -> bool {
    let d = s.subrange(p, k);
    &&& (d.contains('\u{25c6}') || (d.len() > 0 && d.last() == ' '))
    &&& p_find_head(s, k) is Err
    &&& p_action_kind(s, lead(s, k)) is Err
}

/// `▶▶ Name. Description`.
pub open spec fn p_action(s: Seq<char>, i: int) -> Result<(int, ActionModel), Fail> {
    match p_action_kind(s, i) {
        Err(e) => Err(e),
        Ok((a, kind)) => match p_name(s, run_end(s, a, Class::Blank)) {
            Err(e) => Err(e),
            Ok((b, name)) => {
                let p = skip_dots(s, b);
                let k = until_or_end(s, p, "\n\n"@);
                if continues(s, p, k) {
                    let m = lead(s, k);
                    let n = until_or_end(s, m, "\n\n"@);
                    Ok(
                        (
                            n,
                            ActionModel {
                                kind,
                                name,
                                desc: trim(s.subrange(p, k) + s.subrange(m, n)),
                            },
                        ),
                    )
                } else {
                    Ok((k, ActionModel { kind, name, desc: trim(s.subrange(p, k)) }))
                }
            },
        },
    }
}

pub open spec fn p_action_list(s: Seq<char>, i: int) -> Result<(int, Seq<ActionModel>), Fail>
    decreases s.len() - i when 0 <= i <= s.len()
{
    match p_action(s, lead(s, i)) {
        Err(Fail::Failure) => Err(Fail::Failure),
        Err(Fail::Error) => Ok((i, seq![])),
        Ok((j, a)) => {
            proof {
                lemma_lead(s, i);
                lemma_action(s, lead(s, i));
            }
            if j == i {
                Err(Fail::Error)
            } else {
                match p_action_list(s, j) {
                    Ok((k, xs)) => Ok((k, seq![a] + xs)),
                    Err(e) => Err(e),
                }
            }
        },
    }
}

/// `actions` and the actions, when present; a list that cannot be read
/// counts as absent, as for the features.
pub open spec fn p_actions(s: Seq<char>, i: int) -> Result<(int, Seq<ActionModel>), Fail> {
    let a = lead(s, i);
    match p_tag(s, a, "actions"@) {
        Err(_) => Ok((a, seq![])),
        Ok(b) => match p_action_list(s, b) {
            Err(Fail::Error) => Ok((a, seq![])),
            r => r,
        },
    }
}

/// The rest of a line; a carriage return not followed by a line feed is an
/// `Error`.
pub open spec fn p_line(s: Seq<char>, i: int) -> Result<int, Fail> {
    let k = run_end(s, i, Class::NotLineBreak);
    if k < s.len() && s[k] == '\r' && !(k + 1 < s.len() && s[k + 1] == '\n') {
        Err(Fail::Error)
    } else {
        Ok(k)
    }
}

/// A title line, then `Tier 1 Rival`: the bounds of the trimmed title, the
/// tier and the role.
pub open spec fn p_head_line(s: Seq<char>, i: int) -> Result<(int, ((int, int), u64, Role)), Fail> {
    match p_line(s, i) {
        Err(e) => Err(e),
        Ok(a) => match p_run1(s, a, Class::Space) {
            Err(e) => Err(e),
            Ok(b) => match p_tag(s, b, "Tier"@) {
                Err(e) => Err(e),
                Ok(c) => match p_run1(s, c, Class::Blank) {
                    Err(e) => Err(e),
                    Ok(d) => match p_number(s, d) {
                        Err(e) => Err(e),
                        Ok((f, tier)) => match p_run1(s, f, Class::Blank) {
                            Err(e) => Err(e),
                            Ok(g) => match p_run1(s, g, Class::Letter) {
                                Err(e) => Err(e),
                                Ok(h) => match spec_role(s.subrange(g, h)) {
                                    None => Err(Fail::Error),
                                    Some(role) => Ok((h, ((i, a), tier, role))),
                                },
                            },
                        },
                    },
                },
            },
        },
    }
}

/// The first position at or after `i` where a head line starts.
pub open spec fn p_head_search(s: Seq<char>, i: int) -> Result<(int, ((int, int), u64, Role)), Fail>
    decreases s.len() - i when 0 <= i <= s.len()
{
    match p_head_line(s, i) {
        Ok(r) => Ok(r),
        Err(Fail::Failure) => Err(Fail::Failure),
        Err(Fail::Error) => if i < s.len() {
            p_head_search(s, i + 1)
        } else {
            Err(Fail::Error)
        },
    }
}

/// The name, tier, role, size and kind that head a stat block:
/// `Swordmaster Ardent` / `Tier 1 Rival – Medium Humanoid`, after any text.
pub open spec fn p_find_head(s: Seq<char>, i: int) -> Result<
    (int, (Seq<char>, u64, Role, Option<Size>, Seq<char>)),
    Fail,
> {
    match p_head_search(s, i) {
        Err(e) => Err(e),
        Ok((a, ((ta, tb), tier, role))) => {
            let name = trim(s.subrange(ta, tb));
            let b = run_end(s, a, Class::Space);
            match p_dash(s, b) {
                Err(e) => Err(e),
                Ok(c) => {
                    let d = run_end(s, c, Class::Space);
                    let sized = match p_run1(s, d, Class::Letter) {
                        Err(_) => None,
                        Ok(e) => match spec_size(s.subrange(d, e)) {
                            None => None,
                            Some(size) => match p_word(s, e) {
                                Err(_) => None,
                                Ok((f, (x, y))) => Some((f, size, s.subrange(x, y))),
                            },
                        },
                    };
                    match sized {
                        Some((f, size, kind)) => Ok((f, (name, tier, role, Some(size), kind))),
                        None => match p_until(s, d, "\n"@) {
                            Err(e) => Err(e),
                            Ok(f) => Ok((f, (name, tier, role, None, trim(s.subrange(d, f))))),
                        },
                    }
                },
            }
        },
    }
}

/// `n` attribute or defense values (digits and an optional `*`), each after
/// optional whitespace: their bounds.
pub open spec fn p_attr_values(s: Seq<char>, i: int, n: nat) -> Result<(int, Seq<(int, int)>), Fail>
    decreases n,
{
    if n == 0 {
        Ok((i, seq![]))
    } else {
        let a = lead(s, i);
        match p_run1(s, a, Class::Digit) {
            Err(e) => Err(e),
            Ok(b) => {
                let c = opt_char(s, b, '*');
                match p_attr_values(s, c, (n - 1) as nat) {
                    Err(e) => Err(e),
                    Ok((d, vs)) => Ok((d, seq![(a, c)] + vs)),
                }
            },
        }
    }
}

/// The first position at or after `i` where nine values follow.
pub open spec fn p_attr_search(s: Seq<char>, i: int) -> Result<(int, Seq<(int, int)>), Fail>
    decreases s.len() - i when 0 <= i <= s.len()
{
    match p_attr_values(s, i, 9) {
        Ok(r) => Ok(r),
        Err(Fail::Failure) => Err(Fail::Failure),
        Err(Fail::Error) => if i < s.len() {
            p_attr_search(s, i + 1)
        } else {
            Err(Fail::Error)
        },
    }
}

/// The attribute table: after any text, nine values in the order strength,
/// physical defense, speed, intellect, cognitive defense, willpower,
/// awareness, spiritual defense, presence.
pub open spec fn p_attributes(s: Seq<char>, i: int) -> Result<(int, (AttributesModel, DefensesModel)), Fail> {
    match p_attr_search(s, i) {
        Err(e) => Err(e),
        Ok((j, vs)) => {
            let v = |k: int| s.subrange(vs[k].0, vs[k].1);
            Ok(
                (
                    j,
                    (
                        AttributesModel {
                            strength: v(0),
                            speed: v(2),
                            intellect: v(3),
                            willpower: v(5),
                            awareness: v(6),
                            presence: v(8),
                        },
                        DefensesModel { physical: v(1), cognitive: v(4), spiritual: v(7) },
                    ),
                ),
            )
        },
    }
}

/// The `opportunities and complications` section, when present.
pub open spec fn p_opp_comp(s: Seq<char>, i: int) -> Result<(int, (Option<Seq<char>>, Option<Seq<char>>)), Fail> {
    match p_tag(s, i, "opportunities and complications"@) {
        Err(_) => Ok((i, (None, None))),
        Ok(a) => match p_until(s, a, "\nOpportunity"@) {
            Err(e) => Err(e),
            Ok(b) => match p_tag(s, lead(s, b), "Opportunity"@) {
                Err(e) => Err(e),
                Ok(c) => {
                    let d = lead(s, opt_char(s, c, '.'));
                    match p_until(s, d, "\nComplication"@) {
                        Err(e) => Err(e),
                        Ok(f) => match p_tag(s, lead(s, f), "Complication"@) {
                            Err(e) => Err(e),
                            Ok(g) => {
                                let h = lead(s, opt_char(s, g, '.'));
                                match p_until(s, h, "\n\n"@) {
                                    Err(e) => Err(e),
                                    Ok(m) => Ok(
                                        (
                                            m,
                                            (
                                                Some(trim(s.subrange(d, f))),
                                                Some(trim(s.subrange(h, m))),
                                            ),
                                        ),
                                    ),
                                }
                            },
                        },
                    }
                },
            },
        },
    }
}

/// `Focus: 3`-like labelled numbers: once the label is found, the number is
/// required.
pub open spec fn p_named_number(s: Seq<char>, i: int, name: Seq<char>) -> Result<(int, u64), Fail> {
    match p_named(s, lead(s, i), name) {
        Err(e) => Err(e),
        Ok(a) => cut(p_number(s, lead(s, a))),
    }
}

/// The optional `Deflect: 2 (armor)`.
pub open spec fn p_deflect(s: Seq<char>, i: int) -> Result<(int, Option<DescValueModel<u64>>), Fail> {
    let a = lead(s, i);
    match p_desc_value(s, a, "Deflect"@, false) {
        Ok((b, d)) => Ok((b, Some(d))),
        Err(Fail::Error) => Ok((a, None)),
        Err(Fail::Failure) => Err(Fail::Failure),
    }
}

/// `Movement: ...`.
pub open spec fn p_movement_line(s: Seq<char>, i: int) -> Result<(int, MovementModel), Fail> {
    match p_named(s, lead(s, i), "Movement"@) {
        Err(e) => Err(e),
        Ok(a) => cut(p_movement(s, lead(s, a))),
    }
}

/// A complete stat block, after any text.
#[verifier::opaque]
pub open spec fn p_beast(s: Seq<char>, i: int) -> Result<(int, BeastModel), Fail> {
    match p_find_head(s, i) {
        Err(e) => Err(e),
        Ok((p1, (name, tier, role, size, kind))) => match p_attributes(s, p1) {
            Err(e) => Err(e),
            Ok((p2, (attributes, defenses))) => match p_health(s, lead(s, p2)) {
                Err(e) => Err(e),
                Ok((p3, health)) => match p_named_number(s, p3, "Focus"@) {
                    Err(e) => Err(e),
                    Ok((p4, focus)) => match p_named_number(s, p4, "investiture"@) {
                        Err(e) => Err(e),
                        Ok((p5, investiture)) => match p_deflect(s, p5) {
                            Err(e) => Err(e),
                            Ok((p6, deflect)) => match p_movement_line(s, p6) {
                                Err(e) => Err(e),
                                Ok((p7, movement)) => match p_desc_value(
                                    s,
                                    lead(s, p7),
                                    "Senses"@,
                                    true,
                                ) {
                                    Err(e) => Err(e),
                                    Ok((p8, senses)) => p_beast_rest(
                                        s,
                                        p8,
                                        BeastModel {
                                            name,
                                            tier,
                                            role,
                                            size,
                                            kind,
                                            attributes,
                                            defenses,
                                            health,
                                            focus,
                                            investiture,
                                            deflect,
                                            movement,
                                            senses,
                                            immunities: seq![],
                                            physical_skills: seq![],
                                            cognitive_skills: seq![],
                                            spiritual_skills: seq![],
                                            surge_skills: seq![],
                                            languages: None,
                                            features: seq![],
                                            actions: seq![],
                                            opportunity: None,
                                            complication: None,
                                        },
                                    ),
                                },
                            },
                        },
                    },
                },
            },
        },
    }
}

/// The lists of a stat block, from the immunities on, filled into `b`.
pub open spec fn p_beast_rest(s: Seq<char>, i: int, b: BeastModel) -> Result<(int, BeastModel), Fail> {
    match p_immunities(s, i) {
        Err(e) => Err(e),
        Ok((p1, immunities)) => match p_skills(s, p1, "Physical Skills"@) {
            Err(e) => Err(e),
            Ok((p2, physical_skills)) => match p_skills(s, p2, "Cognitive Skills"@) {
                Err(e) => Err(e),
                Ok((p3, cognitive_skills)) => match p_skills(s, p3, "Spiritual Skills"@) {
                    Err(e) => Err(e),
                    Ok((p4, spiritual_skills)) => match p_skills(s, p4, "Surge Skills"@) {
                        Err(e) => Err(e),
                        Ok((p5, surge_skills)) => match p_languages(s, p5) {
                            Err(e) => Err(e),
                            Ok((p6, languages)) => match p_features(s, p6) {
                                Err(e) => Err(e),
                                Ok((p7, features)) => match p_actions(s, p7) {
                                    Err(e) => Err(e),
                                    Ok((p8, actions)) => match cut(p_opp_comp(s, lead(s, p8))) {
                                        Err(e) => Err(e),
                                        Ok((p9, (opportunity, complication))) => Ok(
                                            (
                                                p9,
                                                BeastModel {
                                                    immunities,
                                                    physical_skills,
                                                    cognitive_skills,
                                                    spiritual_skills,
                                                    surge_skills,
                                                    languages,
                                                    features,
                                                    actions,
                                                    opportunity,
                                                    complication,
                                                    ..b
                                                },
                                            ),
                                        ),
                                    },
                                },
                            },
                        },
                    },
                },
            },
        },
    }
}

/// The stat blocks from position `i` on, as many as follow; `None` where the
/// text is malformed past recovery.
pub open spec fn p_beasts(s: Seq<char>, i: int) -> Option<Seq<BeastModel>>
    decreases s.len() - i when 0 <= i <= s.len()
{
    match p_beast(s, i) {
        Err(Fail::Error) => Some(seq![]),
        Err(Fail::Failure) => None,
        Ok((j, b)) => {
            proof {
                lemma_beast(s, i);
            }
            if j == i {
                None
            } else {
                match p_beasts(s, j) {
                    Some(bs) => Some(seq![b] + bs),
                    None => None,
                }
            }
        },
    }
}

/// The stat blocks of a page.
pub open spec fn spec_parse_page(s: Seq<char>) -> Option<Seq<BeastModel>> {
    p_beasts(s, 0)
}

// ---------------------------------------------------------------------------
// Every parser stays within the page and never moves backwards.

pub open spec fn moves<T>(r: Result<(int, T), Fail>, i: int, n: int) -> bool {
    match r {
        Ok((j, _)) => i <= j <= n,
        Err(_) => true,
    }
}

pub open spec fn moves_to(r: Result<int, Fail>, i: int, n: int) -> bool {
    match r {
        Ok(j) => i <= j <= n,
        Err(_) => true,
    }
}

pub proof fn lemma_run_end(s: Seq<char>, i: int, k: Class)
    requires
        0 <= i <= s.len(),
    ensures
        i <= run_end(s, i, k) <= s.len(),
    decreases s.len() - i,
{
    if 0 <= i < s.len() && in_class(s[i], k) {
        lemma_run_end(s, i + 1, k);
    }
}

pub proof fn lemma_lead(s: Seq<char>, i: int)
    requires
        0 <= i <= s.len(),
    ensures
        i <= lead(s, i) <= s.len(),
{
    lemma_skip_ws_bounds(s, i, s.len() as int);
}

pub proof fn lemma_number(s: Seq<char>, i: int)
    requires
        0 <= i <= s.len(),
    ensures
        moves(p_number(s, i), i, s.len() as int),
{
    lemma_run_end(s, i, Class::Digit);
}

pub proof fn lemma_feet(s: Seq<char>, i: int)
    requires
        0 <= i <= s.len(),
    ensures
        moves(p_feet(s, i), i, s.len() as int),
{
    lemma_number(s, i);
    if let Ok((j, _)) = p_number(s, i) {
        lemma_lead(s, j);
    }
}

pub proof fn lemma_until(s: Seq<char>, i: int, t: Seq<char>)
    requires
        0 <= i <= s.len(),
    ensures
        moves_to(p_until(s, i, t), i, s.len() as int),
        i <= until_or_end(s, i, t) <= s.len(),
{
    lemma_find_seq_bounds(s, t, i);
}

pub proof fn lemma_named(s: Seq<char>, i: int, name: Seq<char>)
    requires
        0 <= i <= s.len(),
    ensures
        moves_to(p_named(s, i, name), i, s.len() as int),
{
    if let Ok(j) = p_tag(s, i, name) {
        lemma_lead(s, j);
    }
}

pub proof fn lemma_paren(s: Seq<char>, i: int)
    requires
        0 <= i <= s.len(),
    ensures
        moves(p_paren(s, i), i, s.len() as int),
        p_paren(s, i) matches Ok((_, (a, b))) ==> i <= a <= b <= s.len(),
{
    lemma_lead(s, i);
    if let Ok(a) = p_char(s, lead(s, i), '(') {
        lemma_until(s, a, ")"@);
        if let Ok(b) = p_until(s, a, ")"@) {
            lemma_lead(s, b);
        }
    }
}

pub proof fn lemma_desc_value(s: Seq<char>, i: int, name: Seq<char>, feet: bool)
    requires
        0 <= i <= s.len(),
    ensures
        moves(p_desc_value(s, i, name, feet), i, s.len() as int),
{
    lemma_named(s, i, name);
    if let Ok(j) = p_named(s, i, name) {
        lemma_lead(s, j);
        lemma_lead(s, lead(s, j));
        let k = lead(s, lead(s, j));
        lemma_feet(s, k);
        lemma_number(s, k);
        if feet {
            if let Ok((m, _)) = p_feet(s, k) {
                lemma_paren(s, m);
            }
        } else {
            if let Ok((m, _)) = p_number(s, k) {
                lemma_paren(s, m);
            }
        }
    }
}

pub proof fn lemma_health(s: Seq<char>, i: int)
    requires
        0 <= i <= s.len(),
    ensures
        moves(p_health(s, i), i, s.len() as int),
{
    if let Ok(a) = p_tag(s, i, "Health:"@) {
        lemma_lead(s, a);
        lemma_number(s, lead(s, a));
        if let Ok((b, _)) = p_number(s, lead(s, a)) {
            lemma_lead(s, b);
            if let Ok(c) = p_char(s, lead(s, b), '(') {
                lemma_lead(s, c);
                lemma_number(s, lead(s, c));
                if let Ok((d, _)) = p_number(s, lead(s, c)) {
                    lemma_lead(s, d);
                    if let Ok(f) = p_dash(s, lead(s, d)) {
                        lemma_lead(s, f);
                        lemma_number(s, lead(s, f));
                        if let Ok((g, _)) = p_number(s, lead(s, f)) {
                            lemma_lead(s, g);
                        }
                    }
                }
            }
        }
    }
}

pub proof fn lemma_word(s: Seq<char>, i: int)
    requires
        0 <= i <= s.len(),
    ensures
        moves(p_word(s, i), i, s.len() as int),
        p_word(s, i) matches Ok((j, (a, b))) ==> i <= a < b == j <= s.len(),
{
    lemma_lead(s, i);
    lemma_run_end(s, lead(s, i), Class::Letter);
}

pub proof fn lemma_comma(s: Seq<char>, i: int)
    requires
        0 <= i <= s.len(),
    ensures
        p_comma(s, i) matches Ok(j) ==> i < j <= s.len(),
{
    lemma_lead(s, i);
}

pub proof fn lemma_move_item(s: Seq<char>, i: int)
    requires
        0 <= i <= s.len(),
    ensures
        p_move_item(s, i) matches Ok((j, _)) ==> i < j <= s.len(),
{
    lemma_comma(s, i);
    if let Ok(a) = p_comma(s, i) {
        lemma_word(s, a);
        if let Ok((b, _)) = p_word(s, a) {
            lemma_lead(s, b);
            lemma_feet(s, lead(s, b));
        }
    }
}

pub proof fn lemma_move_extras(s: Seq<char>, i: int)
    requires
        0 <= i <= s.len(),
    ensures
        moves(p_move_extras(s, i), i, s.len() as int),
    decreases s.len() - i,
{
    lemma_move_item(s, i);
    if let Ok((j, _)) = p_move_item(s, i) {
        lemma_move_extras(s, j);
    }
}

pub proof fn lemma_movement(s: Seq<char>, i: int)
    requires
        0 <= i <= s.len(),
    ensures
        moves(p_movement(s, i), i, s.len() as int),
{
    lemma_lead(s, i);
    lemma_feet(s, lead(s, i));
    if let Ok((a, _)) = p_feet(s, lead(s, i)) {
        lemma_move_extras(s, a);
        if let Ok((b, _)) = p_move_extras(s, a) {
            lemma_paren(s, b);
        }
    }
}

pub proof fn lemma_words_tail(s: Seq<char>, i: int)
    requires
        0 <= i <= s.len(),
    ensures
        moves(p_words_tail(s, i), i, s.len() as int),
    decreases s.len() - i,
{
    lemma_comma(s, i);
    if let Ok(a) = p_comma(s, i) {
        lemma_word(s, a);
        if let Ok((b, _)) = p_word(s, a) {
            lemma_words_tail(s, b);
        }
    }
}

pub proof fn lemma_words(s: Seq<char>, i: int)
    requires
        0 <= i <= s.len(),
    ensures
        moves(p_words(s, i), i, s.len() as int),
{
    lemma_word(s, i);
    if let Ok((b, _)) = p_word(s, i) {
        lemma_words_tail(s, b);
    }
}

pub proof fn lemma_name_words(s: Seq<char>, i: int)
    requires
        0 <= i <= s.len(),
    ensures
        i <= p_name_words(s, i) <= s.len(),
    decreases s.len() - i,
{
    lemma_word(s, i);
    if let Ok((j, _)) = p_word(s, i) {
        lemma_name_words(s, j);
    }
}

pub proof fn lemma_skill(s: Seq<char>, i: int)
    requires
        0 <= i <= s.len(),
    ensures
        moves(p_skill(s, i), i, s.len() as int),
        p_skill(s, i) matches Ok((j, _)) ==> i < j,
{
    lemma_word(s, i);
    if let Ok((a, _)) = p_word(s, i) {
        lemma_name_words(s, a);
        let n = p_name_words(s, a);
        lemma_lead(s, n);
        if let Ok(b) = p_tag(s, lead(s, n), "+"@) {
            lemma_lead(s, b);
            lemma_run_end(s, lead(s, b), Class::Digit);
            if let Ok(c) = p_run1(s, lead(s, b), Class::Digit) {
                lemma_paren(s, opt_char(s, c, '*'));
            }
        }
    }
}

pub proof fn lemma_skills_tail(s: Seq<char>, i: int)
    requires
        0 <= i <= s.len(),
    ensures
        moves(p_skills_tail(s, i), i, s.len() as int),
    decreases s.len() - i,
{
    lemma_comma(s, i);
    if let Ok(a) = p_comma(s, i) {
        lemma_lead(s, a);
        lemma_skill(s, lead(s, a));
        if let Ok((b, _)) = p_skill(s, lead(s, a)) {
            lemma_skills_tail(s, b);
        }
    }
}

pub proof fn lemma_skill_list(s: Seq<char>, i: int)
    requires
        0 <= i <= s.len(),
    ensures
        moves(p_skill_list(s, i), i, s.len() as int),
{
    lemma_lead(s, i);
    lemma_skill(s, lead(s, i));
    if let Ok((b, _)) = p_skill(s, lead(s, i)) {
        lemma_skills_tail(s, b);
    }
}

pub proof fn lemma_skills(s: Seq<char>, i: int, name: Seq<char>)
    requires
        0 <= i <= s.len(),
    ensures
        moves(p_skills(s, i, name), i, s.len() as int),
{
    lemma_lead(s, i);
    lemma_named(s, lead(s, i), name);
    if let Ok(b) = p_named(s, lead(s, i), name) {
        lemma_lead(s, b);
        lemma_skill_list(s, lead(s, b));
    }
}

pub proof fn lemma_immunities(s: Seq<char>, i: int)
    requires
        0 <= i <= s.len(),
    ensures
        moves(p_immunities(s, i), i, s.len() as int),
{
    lemma_lead(s, i);
    lemma_named(s, lead(s, i), "Immunities"@);
    if let Ok(b) = p_named(s, lead(s, i), "Immunities"@) {
        lemma_lead(s, b);
        lemma_words(s, lead(s, b));
    }
}

pub proof fn lemma_lang_word(s: Seq<char>, i: int)
    requires
        0 <= i <= s.len(),
    ensures
        moves_to(p_lang_word(s, i), i, s.len() as int),
{
    lemma_lead(s, i);
    lemma_run_end(s, lead(s, i), Class::NotWhitespace);
}

pub proof fn lemma_lang_more(s: Seq<char>, i: int)
    requires
        0 <= i <= s.len(),
    ensures
        moves_to(p_lang_more(s, i), i, s.len() as int),
    decreases s.len() - i,
{
    lemma_lang_word(s, i);
    if let Ok(j) = p_lang_word(s, i) {
        if j != i {
            lemma_lang_more(s, j);
        }
    }
}

pub proof fn lemma_lang(s: Seq<char>, i: int)
    requires
        0 <= i <= s.len(),
    ensures
        moves(p_lang(s, i), i, s.len() as int),
        p_lang(s, i) matches Ok((c, _)) ==> i <= lead(s, i) <= c,
{
    lemma_lead(s, i);
    lemma_lang_word(s, lead(s, i));
    if let Ok(b) = p_lang_word(s, lead(s, i)) {
        lemma_lang_more(s, b);
    }
}

pub proof fn lemma_langs_tail(s: Seq<char>, i: int)
    requires
        0 <= i <= s.len(),
    ensures
        moves(p_langs_tail(s, i), i, s.len() as int),
    decreases s.len() - i,
{
    lemma_comma(s, i);
    if let Ok(a) = p_comma(s, i) {
        lemma_lang(s, a);
        if let Ok((b, _)) = p_lang(s, a) {
            lemma_langs_tail(s, b);
        }
    }
}

pub proof fn lemma_languages(s: Seq<char>, i: int)
    requires
        0 <= i <= s.len(),
    ensures
        moves(p_languages(s, i), i, s.len() as int),
{
    lemma_lead(s, i);
    if let Ok(a) = p_tag(s, lead(s, i), "Languages"@) {
        lemma_lead(s, a);
        if let Ok(b) = p_char(s, lead(s, a), ':') {
            lemma_lead(s, b);
            lemma_lang(s, lead(s, b));
            if let Ok((d, _)) = p_lang(s, lead(s, b)) {
                lemma_langs_tail(s, d);
            }
        }
    }
}

pub proof fn lemma_skip_dots(s: Seq<char>, i: int)
    requires
        0 <= i <= s.len(),
    ensures
        i <= skip_dots(s, i) <= s.len(),
    decreases s.len() - i,
{
    if let Ok(j) = p_char(s, i, '.') {
        lemma_skip_dots(s, j);
    } else {
        lemma_run_end(s, i, Class::Blank);
        if let Ok(j) = p_run1(s, i, Class::Blank) {
            lemma_skip_dots(s, j);
        }
    }
}

pub proof fn lemma_name(s: Seq<char>, i: int)
    requires
        0 <= i <= s.len(),
    ensures
        moves(p_name(s, i), i, s.len() as int),
{
}

pub proof fn lemma_feature(s: Seq<char>, i: int)
    requires
        0 <= i <= s.len(),
    ensures
        moves(p_feature(s, i), i, s.len() as int),
{
    if let Ok((a, _)) = p_name(s, i) {
        lemma_skip_dots(s, a);
        lemma_until(s, skip_dots(s, a), "\n\n"@);
    }
}

pub proof fn lemma_feature_list(s: Seq<char>, i: int)
    requires
        0 <= i <= s.len(),
    ensures
        moves(p_feature_list(s, i), i, s.len() as int),
    decreases s.len() - i,
{
    lemma_lead(s, i);
    lemma_feature(s, lead(s, i));
    if let Ok((j, f)) = p_feature(s, lead(s, i)) {
        if f.name != "actions"@ && j != i {
            lemma_feature_list(s, j);
        }
    }
}

pub proof fn lemma_features(s: Seq<char>, i: int)
    requires
        0 <= i <= s.len(),
    ensures
        moves(p_features(s, i), i, s.len() as int),
{
    lemma_lead(s, i);
    if let Ok(b) = p_tag(s, lead(s, i), "features"@) {
        lemma_feature_list(s, b);
    }
}

pub proof fn lemma_action_kind(s: Seq<char>, i: int)
    requires
        0 <= i <= s.len(),
    ensures
        moves(p_action_kind(s, i), i, s.len() as int),
{
    lemma_run_end(s, i, Class::Letter);
    lemma_run_end(s, i, Class::ActionSymbol);
}

pub proof fn lemma_action(s: Seq<char>, i: int)
    requires
        0 <= i <= s.len(),
    ensures
        moves(p_action(s, i), i, s.len() as int),
{
    lemma_action_kind(s, i);
    if let Ok((a, _)) = p_action_kind(s, i) {
        lemma_run_end(s, a, Class::Blank);
        let b0 = run_end(s, a, Class::Blank);
        if let Ok((b, _)) = p_name(s, b0) {
            lemma_skip_dots(s, b);
            let p = skip_dots(s, b);
            lemma_until(s, p, "\n\n"@);
            let k = until_or_end(s, p, "\n\n"@);
            lemma_lead(s, k);
            lemma_until(s, lead(s, k), "\n\n"@);
        }
    }
}

pub proof fn lemma_action_list(s: Seq<char>, i: int)
    requires
        0 <= i <= s.len(),
    ensures
        moves(p_action_list(s, i), i, s.len() as int),
    decreases s.len() - i,
{
    lemma_lead(s, i);
    lemma_action(s, lead(s, i));
    if let Ok((j, _)) = p_action(s, lead(s, i)) {
        if j != i {
            lemma_action_list(s, j);
        }
    }
}

pub proof fn lemma_actions(s: Seq<char>, i: int)
    requires
        0 <= i <= s.len(),
    ensures
        moves(p_actions(s, i), i, s.len() as int),
{
    lemma_lead(s, i);
    if let Ok(b) = p_tag(s, lead(s, i), "actions"@) {
        lemma_action_list(s, b);
    }
}

pub proof fn lemma_head_line(s: Seq<char>, i: int)
    requires
        0 <= i <= s.len(),
    ensures
        moves(p_head_line(s, i), i, s.len() as int),
        p_head_line(s, i) matches Ok((h, ((ta, tb), _, _))) ==> ta == i <= tb <= h,
{
    lemma_run_end(s, i, Class::NotLineBreak);
    if let Ok(a) = p_line(s, i) {
        lemma_run_end(s, a, Class::Space);
        if let Ok(b) = p_run1(s, a, Class::Space) {
            if let Ok(c) = p_tag(s, b, "Tier"@) {
                lemma_run_end(s, c, Class::Blank);
                if let Ok(d) = p_run1(s, c, Class::Blank) {
                    lemma_number(s, d);
                    if let Ok((f, _)) = p_number(s, d) {
                        lemma_run_end(s, f, Class::Blank);
                        if let Ok(g) = p_run1(s, f, Class::Blank) {
                            lemma_run_end(s, g, Class::Letter);
                        }
                    }
                }
            }
        }
    }
}

pub proof fn lemma_head_search(s: Seq<char>, i: int)
    requires
        0 <= i <= s.len(),
    ensures
        moves(p_head_search(s, i), i, s.len() as int),
        p_head_search(s, i) matches Ok((h, ((ta, tb), _, _))) ==> i <= ta <= tb <= h,
    decreases s.len() - i,
{
    lemma_head_line(s, i);
    if p_head_line(s, i) is Err && i < s.len() {
        lemma_head_search(s, i + 1);
    }
}

pub proof fn lemma_find_head(s: Seq<char>, i: int)
    requires
        0 <= i <= s.len(),
    ensures
        moves(p_find_head(s, i), i, s.len() as int),
{
    lemma_head_search(s, i);
    if let Ok((a, _)) = p_head_search(s, i) {
        lemma_run_end(s, a, Class::Space);
        let b = run_end(s, a, Class::Space);
        if let Ok(c) = p_dash(s, b) {
            lemma_run_end(s, c, Class::Space);
            let d = run_end(s, c, Class::Space);
            lemma_run_end(s, d, Class::Letter);
            lemma_until(s, d, "\n"@);
            if let Ok(e) = p_run1(s, d, Class::Letter) {
                lemma_word(s, e);
            }
        }
    }
}

pub proof fn lemma_attr_values(s: Seq<char>, i: int, n: nat)
    requires
        0 <= i <= s.len(),
    ensures
        moves(p_attr_values(s, i, n), i, s.len() as int),
        p_attr_values(s, i, n) matches Ok((d, vs)) ==> vs.len() == n && forall|k: int|
            0 <= k < n ==> i <= (#[trigger] vs[k]).0 <= vs[k].1 <= d,
    decreases n,
{
    if n > 0 {
        lemma_lead(s, i);
        let a = lead(s, i);
        lemma_run_end(s, a, Class::Digit);
        if let Ok(b) = p_run1(s, a, Class::Digit) {
            let c = opt_char(s, b, '*');
            lemma_attr_values(s, c, (n - 1) as nat);
            if let Ok((d, vs)) = p_attr_values(s, c, (n - 1) as nat) {
                let all = seq![(a, c)] + vs;
                assert forall|k: int| 0 <= k < n implies i <= (#[trigger] all[k]).0 <= all[k].1
                    <= d by {
                    if k > 0 {
                        assert(all[k] == vs[k - 1]);
                    }
                }
            }
        }
    }
}

pub proof fn lemma_attr_search(s: Seq<char>, i: int)
    requires
        0 <= i <= s.len(),
    ensures
        moves(p_attr_search(s, i), i, s.len() as int),
        p_attr_search(s, i) matches Ok((d, vs)) ==> vs.len() == 9 && forall|k: int|
            0 <= k < 9 ==> i <= (#[trigger] vs[k]).0 <= vs[k].1 <= d,
    decreases s.len() - i,
{
    lemma_attr_values(s, i, 9);
    if p_attr_values(s, i, 9) is Err && i < s.len() {
        lemma_attr_search(s, i + 1);
    }
}

pub proof fn lemma_attributes(s: Seq<char>, i: int)
    requires
        0 <= i <= s.len(),
    ensures
        moves(p_attributes(s, i), i, s.len() as int),
{
    lemma_attr_search(s, i);
}

pub proof fn lemma_opp_comp(s: Seq<char>, i: int)
    requires
        0 <= i <= s.len(),
    ensures
        moves(p_opp_comp(s, i), i, s.len() as int),
{
    if let Ok(a) = p_tag(s, i, "opportunities and complications"@) {
        lemma_until(s, a, "\nOpportunity"@);
        if let Ok(b) = p_until(s, a, "\nOpportunity"@) {
            lemma_lead(s, b);
            if let Ok(c) = p_tag(s, lead(s, b), "Opportunity"@) {
                let d = lead(s, opt_char(s, c, '.'));
                lemma_lead(s, opt_char(s, c, '.'));
                lemma_until(s, d, "\nComplication"@);
                if let Ok(f) = p_until(s, d, "\nComplication"@) {
                    lemma_lead(s, f);
                    if let Ok(g) = p_tag(s, lead(s, f), "Complication"@) {
                        lemma_lead(s, opt_char(s, g, '.'));
                        let h = lead(s, opt_char(s, g, '.'));
                        lemma_until(s, h, "\n\n"@);
                    }
                }
            }
        }
    }
}

pub proof fn lemma_named_number(s: Seq<char>, i: int, name: Seq<char>)
    requires
        0 <= i <= s.len(),
    ensures
        moves(p_named_number(s, i, name), i, s.len() as int),
{
    lemma_lead(s, i);
    lemma_named(s, lead(s, i), name);
    if let Ok(a) = p_named(s, lead(s, i), name) {
        lemma_lead(s, a);
        lemma_number(s, lead(s, a));
    }
}

pub proof fn lemma_deflect(s: Seq<char>, i: int)
    requires
        0 <= i <= s.len(),
    ensures
        moves(p_deflect(s, i), i, s.len() as int),
{
    lemma_lead(s, i);
    lemma_desc_value(s, lead(s, i), "Deflect"@, false);
}

pub proof fn lemma_movement_line(s: Seq<char>, i: int)
    requires
        0 <= i <= s.len(),
    ensures
        moves(p_movement_line(s, i), i, s.len() as int),
{
    lemma_lead(s, i);
    lemma_named(s, lead(s, i), "Movement"@);
    if let Ok(a) = p_named(s, lead(s, i), "Movement"@) {
        lemma_lead(s, a);
        lemma_movement(s, lead(s, a));
    }
}

pub proof fn lemma_beast_rest(s: Seq<char>, i: int, b: BeastModel)
    requires
        0 <= i <= s.len(),
    ensures
        moves(p_beast_rest(s, i, b), i, s.len() as int),
{
    lemma_immunities(s, i);
    if let Ok((p1, _)) = p_immunities(s, i) {
        lemma_skills(s, p1, "Physical Skills"@);
        if let Ok((p2, _)) = p_skills(s, p1, "Physical Skills"@) {
            lemma_skills(s, p2, "Cognitive Skills"@);
            if let Ok((p3, _)) = p_skills(s, p2, "Cognitive Skills"@) {
                lemma_skills(s, p3, "Spiritual Skills"@);
                if let Ok((p4, _)) = p_skills(s, p3, "Spiritual Skills"@) {
                    lemma_skills(s, p4, "Surge Skills"@);
                    if let Ok((p5, _)) = p_skills(s, p4, "Surge Skills"@) {
                        lemma_languages(s, p5);
                        if let Ok((p6, _)) = p_languages(s, p5) {
                            lemma_features(s, p6);
                            if let Ok((p7, _)) = p_features(s, p6) {
                                lemma_actions(s, p7);
                                if let Ok((p8, _)) = p_actions(s, p7) {
                                    lemma_lead(s, p8);
                                    lemma_opp_comp(s, lead(s, p8));
                                }
                            }
                        }
                    }
                }
            }
        }
    }
}

pub proof fn lemma_beast(s: Seq<char>, i: int)
    requires
        0 <= i <= s.len(),
    ensures
        moves(p_beast(s, i), i, s.len() as int),
{
    reveal(p_beast);
    lemma_find_head(s, i);
    if let Ok((p1, (name, tier, role, size, kind))) = p_find_head(s, i) {
        lemma_attributes(s, p1);
        if let Ok((p2, (attributes, defenses))) = p_attributes(s, p1) {
            lemma_lead(s, p2);
            lemma_health(s, lead(s, p2));
            if let Ok((p3, health)) = p_health(s, lead(s, p2)) {
                lemma_named_number(s, p3, "Focus"@);
                if let Ok((p4, focus)) = p_named_number(s, p3, "Focus"@) {
                    lemma_named_number(s, p4, "investiture"@);
                    if let Ok((p5, investiture)) = p_named_number(s, p4, "investiture"@) {
                        lemma_deflect(s, p5);
                        if let Ok((p6, deflect)) = p_deflect(s, p5) {
                            lemma_movement_line(s, p6);
                            if let Ok((p7, movement)) = p_movement_line(s, p6) {
                                lemma_lead(s, p7);
                                lemma_desc_value(s, lead(s, p7), "Senses"@, true);
                                if let Ok((p8, senses)) = p_desc_value(
                                    s,
                                    lead(s, p7),
                                    "Senses"@,
                                    true,
                                ) {
                                    lemma_beast_rest(
                                        s,
                                        p8,
                                        BeastModel {
                                            name,
                                            tier,
                                            role,
                                            size,
                                            kind,
                                            attributes,
                                            defenses,
                                            health,
                                            focus,
                                            investiture,
                                            deflect,
                                            movement,
                                            senses,
                                            immunities: seq![],
                                            physical_skills: seq![],
                                            cognitive_skills: seq![],
                                            spiritual_skills: seq![],
                                            surge_skills: seq![],
                                            languages: None,
                                            features: seq![],
                                            actions: seq![],
                                            opportunity: None,
                                            complication: None,
                                        },
                                    );
                                }
                            }
                        }
                    }
                }
            }
        }
    }
}

// ---------------------------------------------------------------------------
// Laws

proof fn lemma_no_tier_no_head(s: Seq<char>, i: int)
    requires
        0 <= i <= s.len(),
        forall|k: int| i <= k ==> !tag_matches(s, k, "Tier"@),
    ensures
        p_head_search(s, i) == Err::<(int, ((int, int), u64, Role)), Fail>(Fail::Error),
    decreases s.len() - i,
{
    lemma_run_end(s, i, Class::NotLineBreak);
    if let Ok(a) = p_line(s, i) {
        lemma_run_end(s, a, Class::Space);
        if let Ok(b) = p_run1(s, a, Class::Space) {
            assert(!tag_matches(s, b, "Tier"@));
        }
    }
    if i < s.len() {
        lemma_no_tier_no_head(s, i + 1);
    }
}

/// A page on which the label `Tier` matches nowhere holds no stat block.
pub proof fn law_no_tier_no_beasts(s: Seq<char>)
    requires
        forall|k: int| 0 <= k ==> !tag_matches(s, k, "Tier"@),
    ensures
        spec_parse_page(s) == Some(Seq::<BeastModel>::empty()),
{
    lemma_no_tier_no_head(s, 0);
    reveal(p_beast);
}

/// Features and actions come out trimmed: their names and descriptions
/// neither start nor end with whitespace.
pub proof fn law_features_and_actions_trimmed(s: Seq<char>, i: int)
    ensures
        p_feature(s, i) matches Ok((_, f)) ==> trim(f.name) == f.name && trim(f.desc) == f.desc,
        p_action(s, i) matches Ok((_, a)) ==> trim(a.name) == a.name && trim(a.desc) == a.desc,
{
    let n = name_len(s, i);
    lemma_trim_idempotent(s.subrange(i, i + n));
    let b = skip_dots(s, i + n);
    lemma_trim_idempotent(s.subrange(b, until_or_end(s, b, "\n\n"@)));
    if let Ok((a, _)) = p_action_kind(s, i) {
        let q = run_end(s, a, Class::Blank);
        let m = name_len(s, q);
        lemma_trim_idempotent(s.subrange(q, q + m));
        let p = skip_dots(s, q + m);
        let k = until_or_end(s, p, "\n\n"@);
        lemma_trim_idempotent(s.subrange(p, k));
        let l = lead(s, k);
        lemma_trim_idempotent(s.subrange(p, k) + s.subrange(l, until_or_end(s, l, "\n\n"@)));
    }
}

/// An action list keeps every action it reads, in order: where an action is
/// read at the start of the list (after blanks) and moves past its start, the
/// list is that action followed by the list read after it; where none can be
/// read, the list is empty.
pub proof fn law_action_list_keeps_every_action(s: Seq<char>, i: int)
    requires
        0 <= i <= s.len(),
    ensures
        match p_action(s, lead(s, i)) {
            Ok((j, a)) => j != i ==> p_action_list(s, i) == match p_action_list(s, j) {
                Ok((k, rest)) => Ok((k, seq![a] + rest)),
                Err(e) => Err::<(int, Seq<ActionModel>), Fail>(e),
            },
            Err(Fail::Error) => p_action_list(s, i) == Ok::<(int, Seq<ActionModel>), Fail>(
                (i, seq![]),
            ),
            Err(Fail::Failure) => p_action_list(s, i) == Err::<(int, Seq<ActionModel>), Fail>(
                Fail::Failure,
            ),
        },
{
    lemma_lead(s, i);
    lemma_action(s, lead(s, i));
}

/// A feature list keeps every feature it reads, in order, up to one named
/// `actions`.
pub proof fn law_feature_list_keeps_every_feature(s: Seq<char>, i: int)
    requires
        0 <= i <= s.len(),
    ensures
        match p_feature(s, lead(s, i)) {
            Ok((j, f)) => j != i && f.name != "actions"@ ==> p_feature_list(s, i) == match p_feature_list(
                s,
                j,
            ) {
                Ok((k, rest)) => Ok((k, seq![f] + rest)),
                Err(e) => Err::<(int, Seq<FeatureModel>), Fail>(e),
            },
            Err(_) => true,
        },
{
    lemma_lead(s, i);
    lemma_feature(s, lead(s, i));
}

/// Where an action's text up to the first blank line holds a bullet (◆) or
/// ends in a space (a page or column break), and what follows the blank line
/// is neither a new stat block nor a new action, the text after the blank
/// line, up to the next one, belongs to the action too; otherwise the action
/// ends at the blank line.
pub proof fn law_action_continues_after_break(
    s: Seq<char>,
    i: int,
    a: int,
    kind: ActionKind,
    b: int,
    name: Seq<char>,
)
    requires
        0 <= i <= s.len(),
        p_action_kind(s, i) == Ok::<(int, ActionKind), Fail>((a, kind)),
        p_name(s, run_end(s, a, Class::Blank)) == Ok::<(int, Seq<char>), Fail>((b, name)),
    ensures
        ({
            let p = skip_dots(s, b);
            let k = until_or_end(s, p, "\n\n"@);
            let m = lead(s, k);
            let n = until_or_end(s, m, "\n\n"@);
            if (s.subrange(p, k).contains('\u{25c6}') || (p < k && s[k - 1] == ' '))
                && p_find_head(s, k) is Err && p_action_kind(s, lead(s, k)) is Err {
                p_action(s, i) == Ok::<(int, ActionModel), Fail>(
                    (n, ActionModel { kind, name, desc: trim(s.subrange(p, k) + s.subrange(m, n)) }),
                )
            } else {
                p_action(s, i) == Ok::<(int, ActionModel), Fail>(
                    (k, ActionModel { kind, name, desc: trim(s.subrange(p, k)) }),
                )
            }
        }),
{
    lemma_action_kind(s, i);
    lemma_run_end(s, a, Class::Blank);
    lemma_name(s, run_end(s, a, Class::Blank));
    lemma_skip_dots(s, b);
    let p = skip_dots(s, b);
    lemma_until(s, p, "\n\n"@);
    let k = until_or_end(s, p, "\n\n"@);
    lemma_lead(s, k);
    lemma_until(s, lead(s, k), "\n\n"@);
    if p < k && s[k - 1] == ' ' {
        assert(s.subrange(p, k).last() == s[k - 1]);
    }
}

proof fn lemma_find_seq_first(s: Seq<char>, t: Seq<char>, i: int)
    requires
        0 <= i,
    ensures
        match find_seq(s, t, i) {
            Some(k) => occurs_at(s, k, t) && forall|x: int| i <= x < k ==> !occurs_at(s, x, t),
            None => forall|x: int| i <= x ==> !occurs_at(s, x, t),
        },
    decreases s.len() + 1 - i,
{
    if i + t.len() <= s.len() && !occurs_at(s, i, t) {
        lemma_find_seq_first(s, t, i + 1);
    }
}

/// A feature's description runs from after its name (and the dots and blanks
/// after it) to the first blank line, or to the end of the text: a single
/// line break inside it does not end it.
pub proof fn law_feature_runs_to_blank_line(s: Seq<char>, i: int)
    requires
        0 <= i <= s.len(),
    ensures
        p_feature(s, i) matches Ok((c, f)) ==> ({
            let b = skip_dots(s, i + name_len(s, i));
            &&& c == s.len() || occurs_at(s, c, "\n\n"@)
            &&& forall|x: int| b <= x < c ==> !occurs_at(s, x, "\n\n"@)
            &&& f.desc == trim(s.subrange(b, c))
        }),
{
    lemma_name(s, i);
    if let Ok((a, _)) = p_name(s, i) {
        lemma_skip_dots(s, a);
        let b = skip_dots(s, a);
        lemma_find_seq_first(s, "\n\n"@, b);
    }
}

/// A section label followed by a readable list gives that list: the
/// `actions` section holds the actions read after its label, and the
/// `features` section the features read after its label.
pub proof fn law_sections_hold_their_lists(s: Seq<char>, i: int)
    requires
        0 <= i <= s.len(),
    ensures
        p_tag(s, lead(s, i), "actions"@) matches Ok(b) ==> (p_action_list(s, b) is Ok ==> p_actions(
            s,
            i,
        ) == p_action_list(s, b)),
        p_tag(s, lead(s, i), "features"@) matches Ok(b) ==> (p_feature_list(s, b) is Ok
            ==> p_features(s, i) == p_feature_list(s, b)),
{
}

} // verus!
