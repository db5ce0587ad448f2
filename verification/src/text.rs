//! The stat-block parser: each function reads the page `v` from position `i`
//! as the spec function of the same name (with `p_`) in `grammar` says.
use vstd::prelude::*;

use crate::chars::{
    byte_len, char_at_byte, char_width, fold_case, fold_char, collect_string, find_from_exec, find_seq_exec, is_alpha, is_digit,
    is_whitespace, lemma_find_seq_bounds, lower_char, range_is, skip_ws_exec, to_chars, trim_exec,
};
use crate::grammar::{
    in_class, lead, lemma_attr_search, lemma_lang, lemma_move_extras, lemma_skill, lemma_until,
    name_len, opt_char, p_char, p_comma, p_dash, p_desc_value, p_feet, p_health, p_move_extras,
    p_move_item, p_movement, p_named, p_number, p_paren, p_run1, p_tag, p_until, p_word, run_end,
    skip_dots, tag_matches, until_or_end, Class, Fail,
};
use crate::page_ranges::{digits_value, lemma_digits_step};
use crate::structure::{DescValue, Movement, Ranged};

verus! {

/// An exec parse result as the grammar states it.
pub open spec fn lift<T: DeepView>(r: Result<(usize, T), Fail>) -> Result<(int, T::V), Fail> {
    match r {
        Ok((j, x)) => Ok((j as int, x.deep_view())),
        Err(e) => Err(e),
    }
}

pub open spec fn lift_pos(r: Result<usize, Fail>) -> Result<int, Fail> {
    match r {
        Ok(j) => Ok(j as int),
        Err(e) => Err(e),
    }
}

pub open spec fn lift_span(r: Result<(usize, (usize, usize)), Fail>) -> Result<(int, (int, int)), Fail> {
    match r {
        Ok((j, (a, b))) => Ok((j as int, (a as int, b as int))),
        Err(e) => Err(e),
    }
}

fn in_class_exec(c: char, k: Class) -> (r: bool)
    ensures
        r == in_class(c, k),
{
    match k {
        Class::Digit => is_digit(c),
        Class::Letter => is_alpha(c),
        Class::Blank => c == ' ' || c == '\t',
        Class::Space => c == ' ' || c == '\t' || c == '\r' || c == '\n',
        Class::NotWhitespace => !is_whitespace(c),
        Class::ActionSymbol => c == '\u{25b7}' || c == '\u{25b6}' || c == '\u{21a9}',
        Class::NotLineBreak => c != '\r' && c != '\n',
    }
}

fn run_end_exec(v: &Vec<char>, i: usize, k: Class) -> (r: usize)
    requires
        i <= v@.len(),
    ensures
        r == run_end(v@, i as int, k),
        i <= r <= v@.len(),
{
    let mut j = i;
    while j < v.len() && in_class_exec(v[j], k)
        invariant
            i <= j <= v@.len(),
            run_end(v@, j as int, k) == run_end(v@, i as int, k),
        decreases v@.len() - j,
    {
        j = j + 1;
    }
    j
}

fn lead_exec(v: &Vec<char>, i: usize) -> (r: usize)
    requires
        i <= v@.len(),
    ensures
        r == lead(v@, i as int),
        i <= r <= v@.len(),
{
    skip_ws_exec(v, i, v.len())
}

fn run1(v: &Vec<char>, i: usize, k: Class) -> (r: Result<usize, Fail>)
    requires
        i <= v@.len(),
    ensures
        lift_pos(r) == p_run1(v@, i as int, k),
        r matches Ok(j) ==> i < j <= v@.len(),
{
    let j = run_end_exec(v, i, k);
    if j > i {
        Ok(j)
    } else {
        Err(Fail::Error)
    }
}

fn tag(v: &Vec<char>, i: usize, t: &str) -> (r: Result<usize, Fail>)
    requires
        i <= v@.len(),
    ensures
        lift_pos(r) == p_tag(v@, i as int, t@),
        r matches Ok(j) ==> i <= j <= v@.len(),
{
    let n = t.unicode_len();
    let mut k: usize = 0;
    while k < n && k < v.len() - i
        invariant
            n == t@.len(),
            i <= v@.len(),
            k <= n,
            k <= v@.len() - i,
            forall|x: int| 0 <= x < k ==> fold_case(#[trigger] v@[i + x]) == fold_case(t@[x]),
        decreases n - k,
    {
        if fold_char(v[i + k]) != fold_char(t.get_char(k)) {
            assert(!tag_matches(v@, i as int, t@)) by {
                let x = k as int;
                assert(fold_case(v@[i + x]) != fold_case(t@[x]));
            }
            return Err(Fail::Error);
        }
        k = k + 1;
    }
    let tv = to_chars(t);
    let tb = byte_len_exec(&tv, 0, tv.len());
    assert(tv@ == t@);
    let ghost len = v@.len() as int;
    let mut j = i;
    let mut acc: u128 = 0;
    while j < v.len() && acc < tb
        invariant
            i <= j <= v@.len(),
            len == v@.len(),
            tb == byte_len(t@, 0, t@.len() as int),
            byte_len(v@, i as int, len) == acc + byte_len(v@, j as int, len),
            char_at_byte(v@, i as int, tb as int) == char_at_byte(v@, j as int, tb - acc),
            acc <= tb + 4,
            tb <= 4 * n,
        decreases v@.len() - j,
    {
        acc = acc + char_width(v[j]) as u128;
        j = j + 1;
    }
    if acc < tb {
        return Err(Fail::Error);
    }
    assert(tag_matches(v@, i as int, t@));
    if acc == tb {
        Ok(j)
    } else {
        Err(Fail::Failure)
    }
}

fn char_at(v: &Vec<char>, i: usize, c: char) -> (r: Result<usize, Fail>)
    requires
        i <= v@.len(),
    ensures
        lift_pos(r) == p_char(v@, i as int, c),
        r matches Ok(j) ==> j == i + 1 <= v@.len(),
{
    if i < v.len() && v[i] == c {
        Ok(i + 1)
    } else {
        Err(Fail::Error)
    }
}

fn opt_char_exec(v: &Vec<char>, i: usize, c: char) -> (r: usize)
    requires
        i <= v@.len(),
    ensures
        r == opt_char(v@, i as int, c),
        i <= r <= v@.len(),
{
    match char_at(v, i, c) {
        Ok(j) => j,
        Err(_) => i,
    }
}

fn dash(v: &Vec<char>, i: usize) -> (r: Result<usize, Fail>)
    requires
        i <= v@.len(),
    ensures
        lift_pos(r) == p_dash(v@, i as int),
        r matches Ok(j) ==> j == i + 1 <= v@.len(),
{
    if i < v.len() && (v[i] == '-' || v[i] == '\u{2013}') {
        Ok(i + 1)
    } else {
        Err(Fail::Error)
    }
}

fn until(v: &Vec<char>, i: usize, t: &str) -> (r: Result<usize, Fail>)
    requires
        i <= v@.len(),
    ensures
        lift_pos(r) == p_until(v@, i as int, t@),
        r matches Ok(j) ==> i <= j <= v@.len(),
{
    proof {
        lemma_until(v@, i as int, t@);
    }
    let p = to_chars(t);
    match find_seq_exec(v, &p, i) {
        Some(k) => Ok(k),
        None => Err(Fail::Error),
    }
}

fn until_or_end_exec(v: &Vec<char>, i: usize, t: &str) -> (r: usize)
    requires
        i <= v@.len(),
    ensures
        r == until_or_end(v@, i as int, t@),
        i <= r <= v@.len(),
{
    match until(v, i, t) {
        Ok(k) => k,
        Err(_) => v.len(),
    }
}

/// The value of the digits `v[i..j]`, if it fits in a `u64`.
fn digits_u64(v: &Vec<char>, i: usize, j: usize) -> (r: Option<u64>)
    requires
        i <= j <= v@.len(),
        forall|x: int| i <= x < j ==> crate::chars::is_ascii_digit(#[trigger] v@[x]),
    ensures
        r == (if digits_value(v@.subrange(i as int, j as int)) <= u64::MAX {
            Some(digits_value(v@.subrange(i as int, j as int)) as u64)
        } else {
            None::<u64>
        }),
{
    let ghost d = v@.subrange(i as int, j as int);
    let cap: u128 = 0x1_0000_0000_0000_0000;
    let mut acc: u128 = 0;
    let mut k = i;
    while k < j
        invariant
            i <= k <= j <= v@.len(),
            d == v@.subrange(i as int, j as int),
            cap == 0x1_0000_0000_0000_0000,
            forall|x: int| i <= x < j ==> crate::chars::is_ascii_digit(#[trigger] v@[x]),
            acc == if digits_value(d.subrange(0, k - i)) < cap {
                digits_value(d.subrange(0, k - i))
            } else {
                cap as nat
            },
        decreases j - k,
    {
        proof {
            lemma_digits_step(d, k - i);
        }
        let c = v[k];
        assert(crate::chars::is_ascii_digit(v@[k as int]));
        let dv = (c as u32 - '0' as u32) as u128;
        let next = acc * 10 + dv;
        acc = if next < cap {
            next
        } else {
            cap
        };
        k = k + 1;
    }
    assert(d.subrange(0, j - i) =~= d);
    if acc < cap {
        Some(acc as u64)
    } else {
        None
    }
}

fn number(v: &Vec<char>, i: usize) -> (r: Result<(usize, u64), Fail>)
    requires
        i <= v@.len(),
    ensures
        lift(r) == p_number(v@, i as int),
        r matches Ok((j, _)) ==> i < j <= v@.len(),
{
    let j = match run1(v, i, Class::Digit) {
        Err(e) => return Err(e),
        Ok(j) => j,
    };
    proof {
        lemma_run_digits(v@, i as int);
    }
    match digits_u64(v, i, j) {
        Some(x) => Ok((j, x)),
        None => Err(Fail::Error),
    }
}

proof fn lemma_run_digits(s: Seq<char>, i: int)
    requires
        0 <= i <= s.len(),
    ensures
        forall|x: int|
            i <= x < run_end(s, i, Class::Digit) ==> crate::chars::is_ascii_digit(#[trigger] s[x]),
    decreases s.len() - i,
{
    if 0 <= i < s.len() && in_class(s[i], Class::Digit) {
        lemma_run_digits(s, i + 1);
    }
}

fn feet(v: &Vec<char>, i: usize) -> (r: Result<(usize, u64), Fail>)
    requires
        i <= v@.len(),
    ensures
        lift(r) == p_feet(v@, i as int),
        r matches Ok((j, _)) ==> i <= j <= v@.len(),
{
    let (j, x) = match number(v, i) {
        Err(e) => return Err(e),
        Ok(r) => r,
    };
    let k = lead_exec(v, j);
    match tag(v, k, "feet") {
        Ok(m) => Ok((m, x)),
        Err(_) => match tag(v, k, "ft") {
            Ok(m) => Ok((opt_char_exec(v, m, '.'), x)),
            Err(e) => Err(e),
        },
    }
}

fn named(v: &Vec<char>, i: usize, name: &str) -> (r: Result<usize, Fail>)
    requires
        i <= v@.len(),
    ensures
        lift_pos(r) == p_named(v@, i as int, name@),
        r matches Ok(j) ==> i <= j <= v@.len(),
{
    match tag(v, i, name) {
        Err(e) => Err(e),
        Ok(j) => match char_at(v, lead_exec(v, j), ':') {
            Ok(k) => Ok(k),
            Err(_) => Err(Fail::Failure),
        },
    }
}

fn paren(v: &Vec<char>, i: usize) -> (r: Result<(usize, (usize, usize)), Fail>)
    requires
        i <= v@.len(),
    ensures
        lift_span(r) == p_paren(v@, i as int),
        r matches Ok((j, (a, b))) ==> i <= a <= b <= j <= v@.len(),
{
    let a = match char_at(v, lead_exec(v, i), '(') {
        Err(e) => return Err(e),
        Ok(a) => a,
    };
    let b = match until(v, a, ")") {
        Err(e) => return Err(e),
        Ok(b) => b,
    };
    match char_at(v, lead_exec(v, b), ')') {
        Err(e) => Err(e),
        Ok(c) => Ok((c, (a, b))),
    }
}

/// A new `String` holding `trim(v[a..b])`.
fn trimmed(v: &Vec<char>, a: usize, b: usize) -> (r: String)
    requires
        a <= b <= v@.len(),
    ensures
        r@ == crate::chars::trim(v@.subrange(a as int, b as int)),
{
    let (x, y) = trim_exec(v, a, b);
    collect_string(v, x, y)
}

fn desc_value(v: &Vec<char>, i: usize, name: &str, in_feet: bool) -> (r: Result<
    (usize, DescValue<u64>),
    Fail,
>)
    requires
        i <= v@.len(),
    ensures
        lift(r) == p_desc_value(v@, i as int, name@, in_feet),
        r matches Ok((j, _)) ==> i <= j <= v@.len(),
{
    let j = match named(v, i, name) {
        Err(e) => return Err(e),
        Ok(j) => j,
    };
    let k = lead_exec(v, lead_exec(v, j));
    let inner = if in_feet {
        feet(v, k)
    } else {
        number(v, k)
    };
    let (m, x) = match inner {
        Err(_) => return Err(Fail::Failure),
        Ok(r) => r,
    };
    match paren(v, m) {
        Err(_) => Err(Fail::Failure),
        Ok((n, (a, b))) => Ok((n, DescValue { value: x, desc: trimmed(v, a, b) })),
    }
}

fn health(v: &Vec<char>, i: usize) -> (r: Result<(usize, Ranged), Fail>)
    requires
        i <= v@.len(),
    ensures
        lift(r) == p_health(v@, i as int),
        r matches Ok((j, _)) ==> i <= j <= v@.len(),
{
    let a = match tag(v, i, "Health:") {
        Err(e) => return Err(e),
        Ok(a) => a,
    };
    let (b, value) = match number(v, lead_exec(v, a)) {
        Err(e) => return Err(e),
        Ok(r) => r,
    };
    let c = match char_at(v, lead_exec(v, b), '(') {
        Err(e) => return Err(e),
        Ok(c) => c,
    };
    let (d, min) = match number(v, lead_exec(v, c)) {
        Err(e) => return Err(e),
        Ok(r) => r,
    };
    let f = match dash(v, lead_exec(v, d)) {
        Err(e) => return Err(e),
        Ok(f) => f,
    };
    let (g, max) = match number(v, lead_exec(v, f)) {
        Err(e) => return Err(e),
        Ok(r) => r,
    };
    match char_at(v, lead_exec(v, g), ')') {
        Err(e) => Err(e),
        Ok(h) => Ok((h, Ranged { value, min, max })),
    }
}

fn word(v: &Vec<char>, i: usize) -> (r: Result<(usize, (usize, usize)), Fail>)
    requires
        i <= v@.len(),
    ensures
        lift_span(r) == p_word(v@, i as int),
        r matches Ok((j, (a, b))) ==> i <= a < b == j <= v@.len(),
{
    let a = lead_exec(v, i);
    match run1(v, a, Class::Letter) {
        Err(e) => Err(e),
        Ok(b) => Ok((b, (a, b))),
    }
}

fn comma(v: &Vec<char>, i: usize) -> (r: Result<usize, Fail>)
    requires
        i <= v@.len(),
    ensures
        lift_pos(r) == p_comma(v@, i as int),
        r matches Ok(j) ==> i < j <= v@.len(),
{
    char_at(v, lead_exec(v, i), ',')
}

fn move_item(v: &Vec<char>, i: usize) -> (r: Result<(usize, DescValue<u64>), Fail>)
    requires
        i <= v@.len(),
    ensures
        lift(r) == p_move_item(v@, i as int),
        r matches Ok((j, _)) ==> i < j <= v@.len(),
{
    let a = match comma(v, i) {
        Err(e) => return Err(e),
        Ok(a) => a,
    };
    let (b, (wa, wb)) = match word(v, a) {
        Err(e) => return Err(e),
        Ok(r) => r,
    };
    match feet(v, lead_exec(v, b)) {
        Err(e) => Err(e),
        Ok((c, x)) => Ok((c, DescValue { value: x, desc: collect_string(v, wa, wb) })),
    }
}

fn move_extras(v: &Vec<char>, i: usize) -> (r: Result<(usize, Vec<DescValue<u64>>), Fail>)
    requires
        i <= v@.len(),
    ensures
        lift(r) == p_move_extras(v@, i as int),
        r matches Ok((j, _)) ==> i <= j <= v@.len(),
{
    let mut out: Vec<DescValue<u64>> = Vec::new();
    let mut pos = i;
    loop
        invariant
            i <= pos <= v@.len(),
            p_move_extras(v@, i as int) == match p_move_extras(v@, pos as int) {
                Ok((k, xs)) => Ok((k, out.deep_view() + xs)),
                Err(e) => Err::<(int, Seq<crate::structure::DescValueModel<u64>>), Fail>(e),
            },
        decreases v@.len() - pos,
    {
        proof {
            lemma_move_extras(v@, pos as int);
        }
        match move_item(v, pos) {
            Err(Fail::Failure) => return Err(Fail::Failure),
            Err(Fail::Error) => {
                assert(out.deep_view() + seq![] =~= out.deep_view());
                return Ok((pos, out));
            },
            Ok((j, x)) => {
                let ghost before = out.deep_view();
                out.push(x);
                assert(out.deep_view() =~= before.push(x.deep_view()));
                proof {
                    match p_move_extras(v@, j as int) {
                        Ok((k, xs)) => {
                            assert(before + (seq![x.deep_view()] + xs) =~= out.deep_view() + xs);
                        },
                        Err(_) => {},
                    }
                }
                pos = j;
            },
        }
    }
}

fn movement(v: &Vec<char>, i: usize) -> (r: Result<(usize, Movement), Fail>)
    requires
        i <= v@.len(),
    ensures
        lift(r) == p_movement(v@, i as int),
        r matches Ok((j, _)) ==> i <= j <= v@.len(),
{
    let (a, value) = match feet(v, lead_exec(v, i)) {
        Err(e) => return Err(e),
        Ok(r) => r,
    };
    let (b, extra) = match move_extras(v, a) {
        Err(e) => return Err(e),
        Ok(r) => r,
    };
    match paren(v, b) {
        Ok((c, (x, y))) => Ok((c, Movement { value, extra, desc: Some(trimmed(v, x, y)) })),
        Err(_) => Ok((b, Movement { value, extra, desc: None })),
    }
}

fn words(v: &Vec<char>, i: usize) -> (r: Result<(usize, Vec<String>), Fail>)
    requires
        i <= v@.len(),
    ensures
        lift(r) == crate::grammar::p_words(v@, i as int),
        r matches Ok((j, _)) ==> i <= j <= v@.len(),
{
    let mut out: Vec<String> = Vec::new();
    let (b, (x, y)) = match word(v, i) {
        Err(_) => {
            assert(out.deep_view() =~= seq![]);
            return Ok((i, out));
        },
        Ok(r) => r,
    };
    out.push(collect_string(v, x, y));
    assert(out.deep_view() =~= seq![v@.subrange(x as int, y as int)]);
    let mut pos = b;
    loop
        invariant
            i <= pos <= v@.len(),
            crate::grammar::p_words(v@, i as int) == match crate::grammar::p_words_tail(
                v@,
                pos as int,
            ) {
                Ok((k, xs)) => Ok((k, out.deep_view() + xs)),
                Err(e) => Err::<(int, Seq<Seq<char>>), Fail>(e),
            },
        decreases v@.len() - pos,
    {
        let a = match comma(v, pos) {
            Err(_) => {
                assert(out.deep_view() + seq![] =~= out.deep_view());
                return Ok((pos, out));
            },
            Ok(a) => a,
        };
        let (b, (x, y)) = match word(v, a) {
            Err(_) => {
                assert(out.deep_view() + seq![] =~= out.deep_view());
                return Ok((pos, out));
            },
            Ok(r) => r,
        };
        let ghost before = out.deep_view();
        out.push(collect_string(v, x, y));
        assert(out.deep_view() =~= before.push(v@.subrange(x as int, y as int)));
        proof {
            match crate::grammar::p_words_tail(v@, b as int) {
                Ok((k, xs)) => {
                    assert(before + (seq![v@.subrange(x as int, y as int)] + xs) =~= out.deep_view()
                        + xs);
                },
                Err(_) => {},
            }
        }
        pos = b;
    }
}

fn name_words(v: &Vec<char>, i: usize) -> (r: usize)
    requires
        i <= v@.len(),
    ensures
        r == crate::grammar::p_name_words(v@, i as int),
        i <= r <= v@.len(),
{
    let mut pos = i;
    loop
        invariant
            i <= pos <= v@.len(),
            crate::grammar::p_name_words(v@, i as int) == crate::grammar::p_name_words(
                v@,
                pos as int,
            ),
        decreases v@.len() - pos,
    {
        match word(v, pos) {
            Err(_) => return pos,
            Ok((j, _)) => {
                pos = j;
            },
        }
    }
}

fn skill(v: &Vec<char>, i: usize) -> (r: Result<(usize, crate::structure::Skill), Fail>)
    requires
        i <= v@.len(),
    ensures
        lift(r) == crate::grammar::p_skill(v@, i as int),
        r matches Ok((j, _)) ==> i < j <= v@.len(),
{
    proof {
        lemma_skill(v@, i as int);
    }
    let a = match word(v, i) {
        Err(e) => return Err(e),
        Ok((a, _)) => a,
    };
    let n = name_words(v, a);
    let va = lead_exec(v, n);
    let b = match tag(v, va, "+") {
        Err(e) => return Err(e),
        Ok(b) => b,
    };
    let c = match run1(v, lead_exec(v, b), Class::Digit) {
        Err(e) => return Err(e),
        Ok(c) => c,
    };
    let vb = opt_char_exec(v, c, '*');
    let ne = crate::chars::skip_ws_back_exec(v, i, n);
    proof {
        crate::chars::lemma_skip_ws_back_sub(v@, i as int, n as int, 0, n - i);
        assert(crate::chars::trim_end(v@.subrange(i as int, n as int)) =~= v@.subrange(
            i as int,
            ne as int,
        ));
    }
    let name = collect_string(v, i, ne);
    let value = collect_string(v, va, vb);
    match paren(v, vb) {
        Ok((d, (x, y))) => Ok(
            (d, crate::structure::Skill { name, value, desc: Some(collect_string(v, x, y)) }),
        ),
        Err(_) => Ok((vb, crate::structure::Skill { name, value, desc: None })),
    }
}

fn skill_list(v: &Vec<char>, i: usize) -> (r: Result<(usize, Vec<crate::structure::Skill>), Fail>)
    requires
        i <= v@.len(),
    ensures
        lift(r) == crate::grammar::p_skill_list(v@, i as int),
        r matches Ok((j, _)) ==> i <= j <= v@.len(),
{
    let mut out: Vec<crate::structure::Skill> = Vec::new();
    let (b, x) = match skill(v, lead_exec(v, i)) {
        Err(_) => {
            assert(out.deep_view() =~= seq![]);
            return Ok((i, out));
        },
        Ok(r) => r,
    };
    let ghost x0 = x.deep_view();
    out.push(x);
    assert(out.deep_view() =~= seq![x0]);
    let mut pos = b;
    loop
        invariant
            i <= pos <= v@.len(),
            crate::grammar::p_skill_list(v@, i as int) == match crate::grammar::p_skills_tail(
                v@,
                pos as int,
            ) {
                Ok((k, xs)) => Ok((k, out.deep_view() + xs)),
                Err(e) => Err::<(int, Seq<crate::structure::SkillModel>), Fail>(e),
            },
        decreases v@.len() - pos,
    {
        let a = match comma(v, pos) {
            Err(_) => {
                assert(out.deep_view() + seq![] =~= out.deep_view());
                return Ok((pos, out));
            },
            Ok(a) => a,
        };
        let (b, x) = match skill(v, lead_exec(v, a)) {
            Err(_) => {
                assert(out.deep_view() + seq![] =~= out.deep_view());
                return Ok((pos, out));
            },
            Ok(r) => r,
        };
        let ghost before = out.deep_view();
        let ghost xv = x.deep_view();
        out.push(x);
        assert(out.deep_view() =~= before.push(xv));
        proof {
            match crate::grammar::p_skills_tail(v@, b as int) {
                Ok((k, xs)) => {
                    assert(before + (seq![xv] + xs) =~= out.deep_view() + xs);
                },
                Err(_) => {},
            }
        }
        pos = b;
    }
}

fn skills(v: &Vec<char>, i: usize, name: &str) -> (r: Result<(usize, Vec<crate::structure::Skill>), Fail>)
    requires
        i <= v@.len(),
    ensures
        lift(r) == crate::grammar::p_skills(v@, i as int, name@),
        r matches Ok((j, _)) ==> i <= j <= v@.len(),
{
    let a = lead_exec(v, i);
    match named(v, a, name) {
        Err(Fail::Error) => {
            let out: Vec<crate::structure::Skill> = Vec::new();
            assert(out.deep_view() =~= seq![]);
            Ok((a, out))
        },
        Err(Fail::Failure) => Err(Fail::Failure),
        Ok(b) => match skill_list(v, lead_exec(v, b)) {
            Ok(r) => Ok(r),
            Err(_) => Err(Fail::Failure),
        },
    }
}

fn immunities(v: &Vec<char>, i: usize) -> (r: Result<(usize, Vec<String>), Fail>)
    requires
        i <= v@.len(),
    ensures
        lift(r) == crate::grammar::p_immunities(v@, i as int),
        r matches Ok((j, _)) ==> i <= j <= v@.len(),
{
    let a = lead_exec(v, i);
    match named(v, a, "Immunities") {
        Err(Fail::Error) => {
            let out: Vec<String> = Vec::new();
            assert(out.deep_view() =~= seq![]);
            Ok((a, out))
        },
        Err(Fail::Failure) => Err(Fail::Failure),
        Ok(b) => match words(v, lead_exec(v, b)) {
            Ok(r) => Ok(r),
            Err(_) => Err(Fail::Failure),
        },
    }
}

fn lang_word(v: &Vec<char>, i: usize) -> (r: Result<usize, Fail>)
    requires
        i <= v@.len(),
    ensures
        lift_pos(r) == crate::grammar::p_lang_word(v@, i as int),
        r matches Ok(j) ==> i <= j <= v@.len(),
{
    let a = lead_exec(v, i);
    let b = run_end_exec(v, a, Class::NotWhitespace);
    if range_is(v, a, b, "features") {
        Err(Fail::Error)
    } else {
        Ok(b)
    }
}

fn lang_more(v: &Vec<char>, i: usize) -> (r: Result<usize, Fail>)
    requires
        i <= v@.len(),
    ensures
        lift_pos(r) == crate::grammar::p_lang_more(v@, i as int),
        r matches Ok(j) ==> i <= j <= v@.len(),
{
    let mut pos = i;
    loop
        invariant
            i <= pos <= v@.len(),
            crate::grammar::p_lang_more(v@, i as int) == crate::grammar::p_lang_more(
                v@,
                pos as int,
            ),
        decreases v@.len() - pos,
    {
        match lang_word(v, pos) {
            Err(_) => return Ok(pos),
            Ok(j) => {
                if j == pos {
                    return Err(Fail::Error);
                }
                pos = j;
            },
        }
    }
}

fn lang(v: &Vec<char>, i: usize) -> (r: Result<(usize, String), Fail>)
    requires
        i <= v@.len(),
    ensures
        lift(r) == crate::grammar::p_lang(v@, i as int),
        r matches Ok((j, _)) ==> i <= j <= v@.len(),
{
    let a = lead_exec(v, i);
    let b = match lang_word(v, a) {
        Err(e) => return Err(e),
        Ok(b) => b,
    };
    match lang_more(v, b) {
        Err(e) => Err(e),
        Ok(c) => Ok((c, collect_string(v, a, c))),
    }
}

fn languages(v: &Vec<char>, i: usize) -> (r: Result<(usize, Option<Vec<String>>), Fail>)
    requires
        i <= v@.len(),
    ensures
        lift(r) == crate::grammar::p_languages(v@, i as int),
        r matches Ok((j, _)) ==> i <= j <= v@.len(),
{
    let a = match tag(v, lead_exec(v, i), "Languages") {
        Err(_) => return Ok((i, None)),
        Ok(a) => a,
    };
    let b = match char_at(v, lead_exec(v, a), ':') {
        Err(_) => return Ok((i, None)),
        Ok(b) => b,
    };
    let c = lead_exec(v, b);
    let mut out: Vec<String> = Vec::new();
    let (d, x) = match lang(v, c) {
        Err(_) => {
            assert(out.deep_view() =~= seq![]);
            return Ok((c, Some(out)));
        },
        Ok(r) => r,
    };
    let ghost x0 = x@;
    out.push(x);
    assert(out.deep_view() =~= seq![x0]);
    let mut pos = d;
    proof {
        lemma_lang(v@, c as int);
    }
    loop
        invariant
            i <= pos <= v@.len(),
            crate::grammar::p_languages(v@, i as int) == match crate::grammar::p_langs_tail(
                v@,
                pos as int,
            ) {
                Ok((k, xs)) => Ok((k, Some(out.deep_view() + xs))),
                Err(e) => Err::<(int, Option<Seq<Seq<char>>>), Fail>(e),
            },
        decreases v@.len() - pos,
    {
        let a = match comma(v, pos) {
            Err(_) => {
                assert(out.deep_view() + seq![] =~= out.deep_view());
                return Ok((pos, Some(out)));
            },
            Ok(a) => a,
        };
        let (b, x) = match lang(v, a) {
            Err(_) => {
                assert(out.deep_view() + seq![] =~= out.deep_view());
                return Ok((pos, Some(out)));
            },
            Ok(r) => r,
        };
        let ghost before = out.deep_view();
        let ghost xv = x@;
        out.push(x);
        assert(out.deep_view() =~= before.push(xv));
        proof {
            match crate::grammar::p_langs_tail(v@, b as int) {
                Ok((k, xs)) => {
                    assert(before + (seq![xv] + xs) =~= out.deep_view() + xs);
                },
                Err(_) => {},
            }
        }
        pos = b;
    }
}

fn skip_dots_exec(v: &Vec<char>, i: usize) -> (r: usize)
    requires
        i <= v@.len(),
    ensures
        r == skip_dots(v@, i as int),
        i <= r <= v@.len(),
{
    let mut pos = i;
    loop
        invariant
            i <= pos <= v@.len(),
            skip_dots(v@, i as int) == skip_dots(v@, pos as int),
        decreases v@.len() - pos,
    {
        match char_at(v, pos, '.') {
            Ok(j) => {
                pos = j;
            },
            Err(_) => match run1(v, pos, Class::Blank) {
                Ok(j) => {
                    pos = j;
                },
                Err(_) => return pos,
            },
        }
    }
}

/// `byte_len(v, i, j)`.
fn byte_len_exec(v: &Vec<char>, i: usize, j: usize) -> (r: u128)
    requires
        i <= j <= v@.len(),
    ensures
        r == byte_len(v@, i as int, j as int),
        r <= 4 * (j - i),
{
    let mut k = j;
    let mut acc: u128 = 0;
    while k > i
        invariant
            i <= k <= j <= v@.len(),
            acc == byte_len(v@, k as int, j as int),
            acc <= 4 * (j - k),
        decreases k - i,
    {
        k = k - 1;
        acc = acc + char_width(v[k]) as u128;
    }
    acc
}

/// `p_name`: the end of the name, and the name.
fn name(v: &Vec<char>, i: usize) -> (r: Result<(usize, String), Fail>)
    requires
        i <= v@.len(),
    ensures
        lift(r) == crate::grammar::p_name(v@, i as int),
        r matches Ok((j, _)) ==> i <= j <= v@.len(),
{
    let n = v.len();
    let all = byte_len_exec(v, i, n);
    let d = find_from_exec(v, '.', i);
    let to_dot = if d < n {
        byte_len_exec(v, i, d)
    } else {
        all
    };
    let gap = to_chars("\n\n");
    proof {
        lemma_find_seq_bounds(v@, gap@, i as int);
    }
    let to_gap = match find_seq_exec(v, &gap, i) {
        Some(k) => byte_len_exec(v, i, k),
        None => all,
    };
    let m = if to_dot <= to_gap {
        to_dot
    } else {
        to_gap
    };
    let m = if m <= all {
        m
    } else {
        all
    };
    assert(m == name_len(v@, i as int));
    if m <= (n - i) as u128 {
        let e = i + m as usize;
        Ok((e, trimmed(v, i, e)))
    } else {
        Err(Fail::Error)
    }
}

fn feature(v: &Vec<char>, i: usize) -> (r: Result<(usize, crate::structure::Feature), Fail>)
    requires
        i <= v@.len(),
    ensures
        lift(r) == crate::grammar::p_feature(v@, i as int),
        r matches Ok((j, _)) ==> i <= j <= v@.len(),
{
    let (a, nm) = match name(v, i) {
        Err(e) => return Err(e),
        Ok(r) => r,
    };
    let b = skip_dots_exec(v, a);
    let c = until_or_end_exec(v, b, "\n\n");
    Ok((c, crate::structure::Feature { name: nm, desc: trimmed(v, b, c) }))
}

fn features(v: &Vec<char>, i: usize) -> (r: Result<(usize, Vec<crate::structure::Feature>), Fail>)
    requires
        i <= v@.len(),
    ensures
        lift(r) == crate::grammar::p_features(v@, i as int),
        r matches Ok((j, _)) ==> i <= j <= v@.len(),
{
    let a = lead_exec(v, i);
    let mut out: Vec<crate::structure::Feature> = Vec::new();
    let b = match tag(v, a, "features") {
        Err(_) => {
            assert(out.deep_view() =~= seq![]);
            return Ok((a, out));
        },
        Ok(b) => b,
    };
    let mut pos = b;
    assert(out.deep_view() + seq![] =~= out.deep_view());
    loop
        invariant
            i <= a <= b <= pos <= v@.len(),
            a == lead(v@, i as int),
            crate::grammar::p_tag(v@, a as int, "features"@) == Ok::<int, Fail>(b as int),
            crate::grammar::p_feature_list(v@, b as int) == match crate::grammar::p_feature_list(
                v@,
                pos as int,
            ) {
                Ok((k, xs)) => Ok((k, out.deep_view() + xs)),
                Err(e) => Err::<(int, Seq<crate::structure::FeatureModel>), Fail>(e),
            },
        decreases v@.len() - pos,
    {
        match feature(v, lead_exec(v, pos)) {
            Err(Fail::Failure) => return Err(Fail::Failure),
            Err(Fail::Error) => {
                assert(out.deep_view() + seq![] =~= out.deep_view());
                return Ok((pos, out));
            },
            Ok((j, f)) => {
                if range_is(&to_chars(f.name.as_str()), 0, f.name.unicode_len(), "actions") {
                    proof {
                        assert(f.name@.subrange(0, f.name@.len() as int) =~= f.name@);
                    }
                    assert(out.deep_view() + seq![] =~= out.deep_view());
                    return Ok((pos, out));
                }
                proof {
                    assert(f.name@.subrange(0, f.name@.len() as int) =~= f.name@);
                }
                if j == pos {
                    let none: Vec<crate::structure::Feature> = Vec::new();
                    assert(none.deep_view() =~= seq![]);
                    assert(crate::grammar::p_feature_list(v@, pos as int) == Err::<
                        (int, Seq<crate::structure::FeatureModel>),
                        Fail,
                    >(Fail::Error));
                    return Ok((a, none));
                }
                let ghost before = out.deep_view();
                let ghost fv = f.deep_view();
                out.push(f);
                assert(out.deep_view() =~= before.push(fv));
                proof {
                    match crate::grammar::p_feature_list(v@, j as int) {
                        Ok((k, xs)) => {
                            assert(before + (seq![fv] + xs) =~= out.deep_view() + xs);
                        },
                        Err(_) => {},
                    }
                }
                pos = j;
            },
        }
    }
}

fn action_kind(v: &Vec<char>, i: usize) -> (r: Result<(usize, crate::structure::ActionKind), Fail>)
    requires
        i <= v@.len(),
    ensures
        lift(r) == crate::grammar::p_action_kind(v@, i as int),
        r matches Ok((j, _)) ==> i <= j <= v@.len(),
{
    let e = match run1(v, i, Class::Letter) {
        Ok(e) => e,
        Err(_) => match run1(v, i, Class::ActionSymbol) {
            Ok(e) => e,
            Err(x) => return Err(x),
        },
    };
    match crate::structure::action_kind_in(v, i, e) {
        Some(k) => Ok((e, k)),
        None => Err(Fail::Error),
    }
}

fn line(v: &Vec<char>, i: usize) -> (r: Result<usize, Fail>)
    requires
        i <= v@.len(),
    ensures
        lift_pos(r) == crate::grammar::p_line(v@, i as int),
        r matches Ok(j) ==> i <= j <= v@.len(),
{
    let k = run_end_exec(v, i, Class::NotLineBreak);
    if k < v.len() && v[k] == '\r' && !(k + 1 < v.len() && v[k + 1] == '\n') {
        Err(Fail::Error)
    } else {
        Ok(k)
    }
}

pub open spec fn lift_head(r: Result<(usize, ((usize, usize), u64, crate::structure::Role)), Fail>) -> Result<
    (int, ((int, int), u64, crate::structure::Role)),
    Fail,
> {
    match r {
        Ok((j, ((a, b), t, role))) => Ok((j as int, ((a as int, b as int), t, role))),
        Err(e) => Err(e),
    }
}

fn head_line(v: &Vec<char>, i: usize) -> (r: Result<(usize, ((usize, usize), u64, crate::structure::Role)), Fail>)
    requires
        i <= v@.len(),
    ensures
        lift_head(r) == crate::grammar::p_head_line(v@, i as int),
        r matches Ok((j, ((a, b), _, _))) ==> i == a <= b <= j <= v@.len(),
{
    let a = match line(v, i) {
        Err(e) => return Err(e),
        Ok(a) => a,
    };
    let b = match run1(v, a, Class::Space) {
        Err(e) => return Err(e),
        Ok(b) => b,
    };
    let c = match tag(v, b, "Tier") {
        Err(e) => return Err(e),
        Ok(c) => c,
    };
    let d = match run1(v, c, Class::Blank) {
        Err(e) => return Err(e),
        Ok(d) => d,
    };
    let (f, tier) = match number(v, d) {
        Err(e) => return Err(e),
        Ok(r) => r,
    };
    let g = match run1(v, f, Class::Blank) {
        Err(e) => return Err(e),
        Ok(g) => g,
    };
    let h = match run1(v, g, Class::Letter) {
        Err(e) => return Err(e),
        Ok(h) => h,
    };
    match crate::structure::role_in(v, g, h) {
        None => Err(Fail::Error),
        Some(role) => Ok((h, ((i, a), tier, role))),
    }
}

fn head_search(v: &Vec<char>, i: usize) -> (r: Result<(usize, ((usize, usize), u64, crate::structure::Role)), Fail>)
    requires
        i <= v@.len(),
    ensures
        lift_head(r) == crate::grammar::p_head_search(v@, i as int),
        r matches Ok((j, ((a, b), _, _))) ==> i <= a <= b <= j <= v@.len(),
{
    let mut pos = i;
    loop
        invariant
            i <= pos <= v@.len(),
            crate::grammar::p_head_search(v@, i as int) == crate::grammar::p_head_search(
                v@,
                pos as int,
            ),
        decreases v@.len() - pos,
    {
        match head_line(v, pos) {
            Ok(r) => return Ok(r),
            Err(Fail::Failure) => return Err(Fail::Failure),
            Err(Fail::Error) => {
                if pos < v.len() {
                    pos = pos + 1;
                } else {
                    return Err(Fail::Error);
                }
            },
        }
    }
}

fn find_head(v: &Vec<char>, i: usize) -> (r: Result<
    (usize, (String, u64, crate::structure::Role, Option<crate::structure::Size>, String)),
    Fail,
>)
    requires
        i <= v@.len(),
    ensures
        lift(r) == crate::grammar::p_find_head(v@, i as int),
        r matches Ok((j, _)) ==> i <= j <= v@.len(),
{
    let (a, ((ta, tb), tier, role)) = match head_search(v, i) {
        Err(e) => return Err(e),
        Ok(r) => r,
    };
    let b = run_end_exec(v, a, Class::Space);
    let c = match dash(v, b) {
        Err(e) => return Err(e),
        Ok(c) => c,
    };
    let d = run_end_exec(v, c, Class::Space);
    let sized = match run1(v, d, Class::Letter) {
        Err(_) => None,
        Ok(e) => match crate::structure::size_in(v, d, e) {
            None => None,
            Some(size) => match word(v, e) {
                Err(_) => None,
                Ok((f, (x, y))) => Some((f, size, x, y)),
            },
        },
    };
    match sized {
        Some((f, size, x, y)) => Ok(
            (f, (trimmed(v, ta, tb), tier, role, Some(size), collect_string(v, x, y))),
        ),
        None => match until(v, d, "\n") {
            Err(e) => Err(e),
            Ok(f) => Ok((f, (trimmed(v, ta, tb), tier, role, None, trimmed(v, d, f)))),
        },
    }
}

/// Whether `c` occurs in `v[a..b]`.
fn contains_char(v: &Vec<char>, a: usize, b: usize, c: char) -> (r: bool)
    requires
        a <= b <= v@.len(),
    ensures
        r == v@.subrange(a as int, b as int).contains(c),
{
    let ghost d = v@.subrange(a as int, b as int);
    let mut k = a;
    while k < b
        invariant
            a <= k <= b <= v@.len(),
            d == v@.subrange(a as int, b as int),
            forall|x: int| a <= x < k ==> v@[x] != c,
        decreases b - k,
    {
        if v[k] == c {
            assert(d[k - a] == c);
            return true;
        }
        k = k + 1;
    }
    assert forall|x: int| 0 <= x < d.len() implies d[x] != c by {
        assert(d[x] == v@[a + x]);
    }
    false
}

fn action(v: &Vec<char>, i: usize) -> (r: Result<(usize, crate::structure::Action), Fail>)
    requires
        i <= v@.len(),
    ensures
        lift(r) == crate::grammar::p_action(v@, i as int),
        r matches Ok((j, _)) ==> i <= j <= v@.len(),
{
    let (a, kind) = match action_kind(v, i) {
        Err(e) => return Err(e),
        Ok(r) => r,
    };
    let (b, nm) = match name(v, run_end_exec(v, a, Class::Blank)) {
        Err(e) => return Err(e),
        Ok(r) => r,
    };
    let p = skip_dots_exec(v, b);
    let k = until_or_end_exec(v, p, "\n\n");
    let cont = (contains_char(v, p, k, '\u{25c6}') || (k > p && v[k - 1] == ' ')) && find_head(
        v,
        k,
    ).is_err() && action_kind(v, lead_exec(v, k)).is_err();
    proof {
        let d = v@.subrange(p as int, k as int);
        assert(k > p ==> d.last() == v@[k - 1]);
    }
    if cont {
        let m = lead_exec(v, k);
        let n = until_or_end_exec(v, m, "\n\n");
        let mut w: Vec<char> = Vec::new();
        let mut x = p;
        while x < k
            invariant
                p <= x <= k <= v@.len(),
                w@ == v@.subrange(p as int, x as int),
            decreases k - x,
        {
            w.push(v[x]);
            x = x + 1;
        }
        let mut y = m;
        while y < n
            invariant
                m <= y <= n <= v@.len(),
                w@ == v@.subrange(p as int, k as int) + v@.subrange(m as int, y as int),
            decreases n - y,
        {
            w.push(v[y]);
            assert(w@ =~= v@.subrange(p as int, k as int) + v@.subrange(m as int, y + 1));
            y = y + 1;
        }
        let wl = w.len();
        proof {
            assert(w@.subrange(0, wl as int) =~= w@);
        }
        Ok((n, crate::structure::Action { kind, name: nm, desc: trimmed(&w, 0, wl) }))
    } else {
        Ok((k, crate::structure::Action { kind, name: nm, desc: trimmed(v, p, k) }))
    }
}

fn actions(v: &Vec<char>, i: usize) -> (r: Result<(usize, Vec<crate::structure::Action>), Fail>)
    requires
        i <= v@.len(),
    ensures
        lift(r) == crate::grammar::p_actions(v@, i as int),
        r matches Ok((j, _)) ==> i <= j <= v@.len(),
{
    let a = lead_exec(v, i);
    let mut out: Vec<crate::structure::Action> = Vec::new();
    let b = match tag(v, a, "actions") {
        Err(_) => {
            assert(out.deep_view() =~= seq![]);
            return Ok((a, out));
        },
        Ok(b) => b,
    };
    let mut pos = b;
    assert(out.deep_view() + seq![] =~= out.deep_view());
    loop
        invariant
            i <= a <= b <= pos <= v@.len(),
            a == lead(v@, i as int),
            crate::grammar::p_tag(v@, a as int, "actions"@) == Ok::<int, Fail>(b as int),
            crate::grammar::p_action_list(v@, b as int) == match crate::grammar::p_action_list(
                v@,
                pos as int,
            ) {
                Ok((k, xs)) => Ok((k, out.deep_view() + xs)),
                Err(e) => Err::<(int, Seq<crate::structure::ActionModel>), Fail>(e),
            },
        decreases v@.len() - pos,
    {
        match action(v, lead_exec(v, pos)) {
            Err(Fail::Failure) => return Err(Fail::Failure),
            Err(Fail::Error) => {
                assert(out.deep_view() + seq![] =~= out.deep_view());
                return Ok((pos, out));
            },
            Ok((j, x)) => {
                if j == pos {
                    let none: Vec<crate::structure::Action> = Vec::new();
                    assert(none.deep_view() =~= seq![]);
                    assert(crate::grammar::p_action_list(v@, pos as int) == Err::<
                        (int, Seq<crate::structure::ActionModel>),
                        Fail,
                    >(Fail::Error));
                    return Ok((a, none));
                }
                let ghost before = out.deep_view();
                let ghost xv = x.deep_view();
                out.push(x);
                assert(out.deep_view() =~= before.push(xv));
                proof {
                    match crate::grammar::p_action_list(v@, j as int) {
                        Ok((k, xs)) => {
                            assert(before + (seq![xv] + xs) =~= out.deep_view() + xs);
                        },
                        Err(_) => {},
                    }
                }
                pos = j;
            },
        }
    }
}

pub open spec fn lift_spans(r: Result<(usize, Vec<(usize, usize)>), Fail>) -> Result<(int, Seq<(int, int)>), Fail> {
    match r {
        Ok((j, vs)) => Ok(
            (j as int, Seq::new(vs@.len(), |k: int| (vs@[k].0 as int, vs@[k].1 as int))),
        ),
        Err(e) => Err(e),
    }
}

fn attr_values(v: &Vec<char>, i: usize, n: usize) -> (r: Result<(usize, Vec<(usize, usize)>), Fail>)
    requires
        i <= v@.len(),
    ensures
        lift_spans(r) == crate::grammar::p_attr_values(v@, i as int, n as nat),
        r matches Ok((j, _)) ==> i <= j <= v@.len(),
{
    let mut out: Vec<(usize, usize)> = Vec::new();
    let mut pos = i;
    let mut m: usize = 0;
    while m < n
        invariant
            i <= pos <= v@.len(),
            m <= n,
            out@.len() == m,
            crate::grammar::p_attr_values(v@, i as int, n as nat) == match crate::grammar::p_attr_values(
                v@,
                pos as int,
                (n - m) as nat,
            ) {
                Ok((k, xs)) => Ok(
                    (k, Seq::new(out@.len(), |x: int| (out@[x].0 as int, out@[x].1 as int)) + xs),
                ),
                Err(e) => Err::<(int, Seq<(int, int)>), Fail>(e),
            },
        decreases n - m,
    {
        let a = lead_exec(v, pos);
        let b = match run1(v, a, Class::Digit) {
            Err(e) => return Err(e),
            Ok(b) => b,
        };
        let c = opt_char_exec(v, b, '*');
        let ghost before = Seq::new(out@.len(), |x: int| (out@[x].0 as int, out@[x].1 as int));
        out.push((a, c));
        let ghost after = Seq::new(out@.len(), |x: int| (out@[x].0 as int, out@[x].1 as int));
        assert(after =~= before.push((a as int, c as int)));
        proof {
            match crate::grammar::p_attr_values(v@, c as int, (n - m - 1) as nat) {
                Ok((k, xs)) => {
                    assert(before + (seq![(a as int, c as int)] + xs) =~= after + xs);
                },
                Err(_) => {},
            }
        }
        pos = c;
        m = m + 1;
    }
    proof {
        let sq = Seq::new(out@.len(), |x: int| (out@[x].0 as int, out@[x].1 as int));
        assert(sq + seq![] =~= sq);
    }
    Ok((pos, out))
}

fn attr_search(v: &Vec<char>, i: usize) -> (r: Result<(usize, Vec<(usize, usize)>), Fail>)
    requires
        i <= v@.len(),
    ensures
        lift_spans(r) == crate::grammar::p_attr_search(v@, i as int),
        r matches Ok((j, _)) ==> i <= j <= v@.len(),
{
    let mut pos = i;
    loop
        invariant
            i <= pos <= v@.len(),
            crate::grammar::p_attr_search(v@, i as int) == crate::grammar::p_attr_search(
                v@,
                pos as int,
            ),
        decreases v@.len() - pos,
    {
        match attr_values(v, pos, 9) {
            Ok(r) => return Ok(r),
            Err(Fail::Failure) => return Err(Fail::Failure),
            Err(Fail::Error) => {
                if pos < v.len() {
                    pos = pos + 1;
                } else {
                    return Err(Fail::Error);
                }
            },
        }
    }
}

fn attributes(v: &Vec<char>, i: usize) -> (r: Result<
    (usize, (crate::structure::Attributes, crate::structure::Defenses)),
    Fail,
>)
    requires
        i <= v@.len(),
    ensures
        lift(r) == crate::grammar::p_attributes(v@, i as int),
        r matches Ok((j, _)) ==> i <= j <= v@.len(),
{
    let (j, vs) = match attr_search(v, i) {
        Err(e) => return Err(e),
        Ok(r) => r,
    };
    proof {
        lemma_attr_search(v@, i as int);
    }
    let ghost sp = Seq::new(vs@.len(), |x: int| (vs@[x].0 as int, vs@[x].1 as int));
    assert(vs@.len() == 9);
    let (a0, b0) = vs[0];
    let (a1, b1) = vs[1];
    let (a2, b2) = vs[2];
    let (a3, b3) = vs[3];
    let (a4, b4) = vs[4];
    let (a5, b5) = vs[5];
    let (a6, b6) = vs[6];
    let (a7, b7) = vs[7];
    let (a8, b8) = vs[8];
    proof {
        assert(sp[0] == (a0 as int, b0 as int));
        assert(sp[1] == (a1 as int, b1 as int));
        assert(sp[2] == (a2 as int, b2 as int));
        assert(sp[3] == (a3 as int, b3 as int));
        assert(sp[4] == (a4 as int, b4 as int));
        assert(sp[5] == (a5 as int, b5 as int));
        assert(sp[6] == (a6 as int, b6 as int));
        assert(sp[7] == (a7 as int, b7 as int));
        assert(sp[8] == (a8 as int, b8 as int));
    }
    let attrs = crate::structure::Attributes {
        strength: collect_string(v, a0, b0),
        speed: collect_string(v, a2, b2),
        intellect: collect_string(v, a3, b3),
        willpower: collect_string(v, a5, b5),
        awareness: collect_string(v, a6, b6),
        presence: collect_string(v, a8, b8),
    };
    let defs = crate::structure::Defenses {
        physical: collect_string(v, a1, b1),
        cognitive: collect_string(v, a4, b4),
        spiritual: collect_string(v, a7, b7),
    };
    Ok((j, (attrs, defs)))
}

fn opp_comp(v: &Vec<char>, i: usize) -> (r: Result<(usize, (Option<String>, Option<String>)), Fail>)
    requires
        i <= v@.len(),
    ensures
        lift(r) == crate::grammar::p_opp_comp(v@, i as int),
        r matches Ok((j, _)) ==> i <= j <= v@.len(),
{
    let a = match tag(v, i, "opportunities and complications") {
        Err(_) => return Ok((i, (None, None))),
        Ok(a) => a,
    };
    let b = match until(v, a, "\nOpportunity") {
        Err(e) => return Err(e),
        Ok(b) => b,
    };
    let c = match tag(v, lead_exec(v, b), "Opportunity") {
        Err(e) => return Err(e),
        Ok(c) => c,
    };
    let d = lead_exec(v, opt_char_exec(v, c, '.'));
    let f = match until(v, d, "\nComplication") {
        Err(e) => return Err(e),
        Ok(f) => f,
    };
    let g = match tag(v, lead_exec(v, f), "Complication") {
        Err(e) => return Err(e),
        Ok(g) => g,
    };
    let h = lead_exec(v, opt_char_exec(v, g, '.'));
    match until(v, h, "\n\n") {
        Err(e) => Err(e),
        Ok(m) => Ok((m, (Some(trimmed(v, d, f)), Some(trimmed(v, h, m))))),
    }
}

fn named_number(v: &Vec<char>, i: usize, label: &str) -> (r: Result<(usize, u64), Fail>)
    requires
        i <= v@.len(),
    ensures
        lift(r) == crate::grammar::p_named_number(v@, i as int, label@),
        r matches Ok((j, _)) ==> i <= j <= v@.len(),
{
    let a = match named(v, lead_exec(v, i), label) {
        Err(e) => return Err(e),
        Ok(a) => a,
    };
    match number(v, lead_exec(v, a)) {
        Ok(r) => Ok(r),
        Err(_) => Err(Fail::Failure),
    }
}

fn deflect(v: &Vec<char>, i: usize) -> (r: Result<(usize, Option<DescValue<u64>>), Fail>)
    requires
        i <= v@.len(),
    ensures
        lift(r) == crate::grammar::p_deflect(v@, i as int),
        r matches Ok((j, _)) ==> i <= j <= v@.len(),
{
    let a = lead_exec(v, i);
    match desc_value(v, a, "Deflect", false) {
        Ok((b, d)) => Ok((b, Some(d))),
        Err(Fail::Error) => Ok((a, None)),
        Err(Fail::Failure) => Err(Fail::Failure),
    }
}

fn movement_line(v: &Vec<char>, i: usize) -> (r: Result<(usize, Movement), Fail>)
    requires
        i <= v@.len(),
    ensures
        lift(r) == crate::grammar::p_movement_line(v@, i as int),
        r matches Ok((j, _)) ==> i <= j <= v@.len(),
{
    let a = match named(v, lead_exec(v, i), "Movement") {
        Err(e) => return Err(e),
        Ok(a) => a,
    };
    match movement(v, lead_exec(v, a)) {
        Ok(r) => Ok(r),
        Err(_) => Err(Fail::Failure),
    }
}

fn beast_rest(v: &Vec<char>, i: usize, b: crate::structure::Beast) -> (r: Result<(usize, crate::structure::Beast), Fail>)
    requires
        i <= v@.len(),
    ensures
        lift(r) == crate::grammar::p_beast_rest(v@, i as int, b.deep_view()),
        r matches Ok((j, _)) ==> i <= j <= v@.len(),
{
    let (p1, immunities) = match immunities(v, i) {
        Err(e) => return Err(e),
        Ok(r) => r,
    };
    let (p2, physical_skills) = match skills(v, p1, "Physical Skills") {
        Err(e) => return Err(e),
        Ok(r) => r,
    };
    let (p3, cognitive_skills) = match skills(v, p2, "Cognitive Skills") {
        Err(e) => return Err(e),
        Ok(r) => r,
    };
    let (p4, spiritual_skills) = match skills(v, p3, "Spiritual Skills") {
        Err(e) => return Err(e),
        Ok(r) => r,
    };
    let (p5, surge_skills) = match skills(v, p4, "Surge Skills") {
        Err(e) => return Err(e),
        Ok(r) => r,
    };
    let (p6, languages) = match languages(v, p5) {
        Err(e) => return Err(e),
        Ok(r) => r,
    };
    let (p7, features) = match features(v, p6) {
        Err(e) => return Err(e),
        Ok(r) => r,
    };
    let (p8, actions) = match actions(v, p7) {
        Err(e) => return Err(e),
        Ok(r) => r,
    };
    let (p9, (opportunity, complication)) = match opp_comp(v, lead_exec(v, p8)) {
        Err(_) => return Err(Fail::Failure),
        Ok(r) => r,
    };
    Ok(
        (
            p9,
            crate::structure::Beast {
                immunities,
                physical_skills,
                cognitive_skills,
                spiritual_skills,
                surge_skills,
                languages,
                features,
                actions,
                opportunity,
                complication,
                ..b
            },
        ),
    )
}

fn beast(v: &Vec<char>, i: usize) -> (r: Result<(usize, crate::structure::Beast), Fail>)
    requires
        i <= v@.len(),
    ensures
        lift(r) == crate::grammar::p_beast(v@, i as int),
        r matches Ok((j, _)) ==> i <= j <= v@.len(),
{
    reveal(crate::grammar::p_beast);
    let (p1, (name, tier, role, size, kind)) = match find_head(v, i) {
        Err(e) => return Err(e),
        Ok(r) => r,
    };
    let (p2, (attributes, defenses)) = match attributes(v, p1) {
        Err(e) => return Err(e),
        Ok(r) => r,
    };
    let (p3, health) = match health(v, lead_exec(v, p2)) {
        Err(e) => return Err(e),
        Ok(r) => r,
    };
    let (p4, focus) = match named_number(v, p3, "Focus") {
        Err(e) => return Err(e),
        Ok(r) => r,
    };
    let (p5, investiture) = match named_number(v, p4, "investiture") {
        Err(e) => return Err(e),
        Ok(r) => r,
    };
    let (p6, deflect) = match deflect(v, p5) {
        Err(e) => return Err(e),
        Ok(r) => r,
    };
    let (p7, movement) = match movement_line(v, p6) {
        Err(e) => return Err(e),
        Ok(r) => r,
    };
    let (p8, senses) = match desc_value(v, lead_exec(v, p7), "Senses", true) {
        Err(e) => return Err(e),
        Ok(r) => r,
    };
    let b = crate::structure::Beast {
        name,
        tier,
        role,
        size,
        kind,
        attributes,
        defenses,
        health,
        focus,
        investiture,
        deflect,
        movement,
        senses,
        immunities: Vec::new(),
        physical_skills: Vec::new(),
        cognitive_skills: Vec::new(),
        spiritual_skills: Vec::new(),
        surge_skills: Vec::new(),
        languages: None,
        features: Vec::new(),
        actions: Vec::new(),
        opportunity: None,
        complication: None,
    };
    proof {
        assert(b.immunities.deep_view() =~= seq![]);
        assert(b.physical_skills.deep_view() =~= seq![]);
        assert(b.cognitive_skills.deep_view() =~= seq![]);
        assert(b.spiritual_skills.deep_view() =~= seq![]);
        assert(b.surge_skills.deep_view() =~= seq![]);
        assert(b.features.deep_view() =~= seq![]);
        assert(b.actions.deep_view() =~= seq![]);
    }
    beast_rest(v, p8, b)
}

/// The stat blocks of the page `v`, or `None` where it is malformed past
/// recovery.
fn beasts(v: &Vec<char>) -> (r: Option<Vec<crate::structure::Beast>>)
    ensures
        r.deep_view() == crate::grammar::spec_parse_page(v@),
{
    let mut out: Vec<crate::structure::Beast> = Vec::new();
    let mut pos: usize = 0;
    assert(out.deep_view() + seq![] =~= out.deep_view());
    loop
        invariant
            pos <= v@.len(),
            crate::grammar::spec_parse_page(v@) == match crate::grammar::p_beasts(v@, pos as int) {
                Some(xs) => Some(out.deep_view() + xs),
                None => None::<Seq<crate::structure::BeastModel>>,
            },
        decreases v@.len() - pos,
    {
        match beast(v, pos) {
            Err(Fail::Failure) => return None,
            Err(Fail::Error) => {
                assert(out.deep_view() + seq![] =~= out.deep_view());
                return Some(out);
            },
            Ok((j, x)) => {
                if j == pos {
                    return None;
                }
                let ghost before = out.deep_view();
                let ghost xv = x.deep_view();
                out.push(x);
                assert(out.deep_view() =~= before.push(xv));
                proof {
                    match crate::grammar::p_beasts(v@, j as int) {
                        Some(xs) => {
                            assert(before + (seq![xv] + xs) =~= out.deep_view() + xs);
                        },
                        None => {},
                    }
                }
                pos = j;
            },
        }
    }
}

/// Reads the stat blocks on the text of a page, in order (see `grammar` for
/// the format), or `None` where the page cannot be read: a label is not
/// followed by what must follow it, or a stat block reads no text.
pub fn try_parse_page(s: &str) -> (r: Option<Vec<crate::structure::Beast>>)
    ensures
        match crate::grammar::spec_parse_page(s@) {
            Some(bs) => r matches Some(v) && v.deep_view() == bs,
            None => r is None,
        },
{
    let v = to_chars(s);
    beasts(&v)
}

/// Reads the stat blocks on the text of a page, in order (see `grammar` for
/// the format). Text before, between and after stat blocks is skipped. The
/// page must be readable (`try_parse_page` tells).
pub fn parse_page(s: &str) -> (r: Vec<crate::structure::Beast>)
    requires
        crate::grammar::spec_parse_page(s@) is Some,
    ensures
        r.deep_view() == crate::grammar::spec_parse_page(s@).unwrap(),
{
    match try_parse_page(s) {
        Some(bs) => bs,
        None => Vec::new(),
    }
}

/// Reads one feature (`Name. Description`) at the start of `s`: the feature
/// and the text after it.
pub fn parse_feature(s: &str) -> (r: Option<(String, crate::structure::Feature)>)
    ensures
        match crate::grammar::p_feature(s@, 0) {
            Ok((j, f)) => r matches Some((rest, x)) && x.deep_view() == f && rest@ == s@.subrange(
                j,
                s@.len() as int,
            ),
            Err(_) => r is None,
        },
{
    let v = to_chars(s);
    match feature(&v, 0) {
        Ok((j, f)) => Some((collect_string(&v, j, v.len()), f)),
        Err(_) => None,
    }
}

/// Reads one action (`▶▶ Name. Description`) at the start of `s`: the action
/// and the text after it.
pub fn parse_action(s: &str) -> (r: Option<(String, crate::structure::Action)>)
    ensures
        match crate::grammar::p_action(s@, 0) {
            Ok((j, a)) => r matches Some((rest, x)) && x.deep_view() == a && rest@ == s@.subrange(
                j,
                s@.len() as int,
            ),
            Err(_) => r is None,
        },
{
    let v = to_chars(s);
    match action(&v, 0) {
        Ok((j, a)) => Some((collect_string(&v, j, v.len()), a)),
        Err(_) => None,
    }
}

} // verus!
