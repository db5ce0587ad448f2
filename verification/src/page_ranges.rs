//! Parsing page lists such as `12-13,15,22-23` into page numbers.
use vstd::prelude::*;

use crate::chars::{
    collect_string, find_from, find_from_exec, is_ascii_digit, is_digit, lemma_find_from_bounds,
    to_chars, trim, trim_exec,
};
use crate::pages::{resolve, spec_resolve};

verus! {

/// The offending part of a page list, which was expected to be an unsigned
/// integer.
pub struct ParsePageError(pub String);

impl ParsePageError {
    /// The error message: `Expected unsigned integer, found: ` and the
    /// offending text.
    pub fn message(&self) -> (r: String)
        ensures
            r@ == "Expected unsigned integer, found: "@ + self.0@,
    {
        let mut r = String::from_str("Expected unsigned integer, found: ");
        r.append(self.0.as_str());
        r
    }
}

/// The value of a string of decimal digits.
pub open spec fn digits_value(d: Seq<char>) -> nat
    decreases d.len(),
{
    if d.len() == 0 {
        0
    } else {
        digits_value(d.drop_last()) * 10 + (d.last() as int - '0' as int) as nat
    }
}

pub open spec fn all_digits(d: Seq<char>) -> bool {
    forall|k: int| 0 <= k < d.len() ==> is_ascii_digit(#[trigger] d[k])
}

/// `u32::from_str`: an optional `+` and at least one ASCII digit, of value at
/// most `u32::MAX`.
pub open spec fn spec_parse_u32(t: Seq<char>) -> Option<u32> {
    let d = if t.len() > 0 && t[0] == '+' {
        t.drop_first()
    } else {
        t
    };
    if d.len() > 0 && all_digits(d) && digits_value(d) <= u32::MAX {
        Some(digits_value(d) as u32)
    } else {
        None
    }
}

/// `first..=last`, or `last..=first` where `first > last`.
pub open spec fn range_seq(first: u32, last: u32) -> Seq<u32> {
    let lo = if first <= last {
        first
    } else {
        last
    };
    let hi = if first <= last {
        last
    } else {
        first
    };
    Seq::new((hi - lo + 1) as nat, |k: int| (lo + k) as u32)
}

/// One comma-separated piece: `a-b` (split at the first `-`) or `a`, each
/// number trimmed; the error holds the trimmed text that is not a number.
pub open spec fn spec_parse_piece(p: Seq<char>) -> Result<(u32, u32), Seq<char>> {
    let d = find_from(p, '-', 0);
    let f = trim(p.subrange(0, d));
    let t = if d < p.len() {
        trim(p.subrange(d + 1, p.len() as int))
    } else {
        f
    };
    match spec_parse_u32(f) {
        None => Err(f),
        Some(a) => match spec_parse_u32(t) {
            None => Err(t),
            Some(b) => Ok((a, b)),
        },
    }
}

/// The pages of the comma-separated pieces of `s` from position `i` on, in
/// order; the first piece that does not parse gives the error.
pub open spec fn spec_pages_from(s: Seq<char>, i: int) -> Result<Seq<u32>, Seq<char>>
    decreases s.len() - i when 0 <= i <= s.len()
{
    let e = find_from(s, ',', i);
    proof {
        lemma_find_from_bounds(s, ',', i);
    }
    match spec_parse_piece(s.subrange(i, e)) {
        Err(x) => Err(x),
        Ok((a, b)) => if e < s.len() {
            match spec_pages_from(s, e + 1) {
                Ok(rest) => Ok(range_seq(a, b) + rest),
                Err(x) => Err(x),
            }
        } else {
            Ok(range_seq(a, b))
        },
    }
}

/// What `parse_pages` gives for the text `s`.
pub open spec fn spec_parse_pages(s: Seq<char>) -> Result<Seq<u32>, Seq<char>> {
    spec_pages_from(spec_resolve(s), 0)
}

pub proof fn lemma_digits_step(d: Seq<char>, k: int)
    requires
        0 <= k < d.len(),
    ensures
        digits_value(d.subrange(0, k + 1)) == digits_value(d.subrange(0, k)) * 10 + (d[k] as int
            - '0' as int) as nat,
{
    assert(d.subrange(0, k + 1).drop_last() =~= d.subrange(0, k));
}

/// `u32::from_str` on `v[i..j]`.
pub fn parse_u32(v: &Vec<char>, i: usize, j: usize) -> (r: Option<u32>)
    requires
        i <= j <= v@.len(),
    ensures
        r == spec_parse_u32(v@.subrange(i as int, j as int)),
{
    let ghost t = v@.subrange(i as int, j as int);
    let mut a = i;
    if a < j && v[a] == '+' {
        a = a + 1;
    }
    let ghost d = v@.subrange(a as int, j as int);
    assert(d =~= (if t.len() > 0 && t[0] == '+' {
        t.drop_first()
    } else {
        t
    }));
    if a == j {
        return None;
    }
    let cap: u64 = 0x1_0000_0000;
    let mut acc: u64 = 0;
    let mut k = a;
    while k < j
        invariant
            a <= k <= j <= v@.len(),
            t == v@.subrange(i as int, j as int),
            d == v@.subrange(a as int, j as int),
            d == (if t.len() > 0 && t[0] == '+' {
                t.drop_first()
            } else {
                t
            }),
            cap == 0x1_0000_0000,
            forall|x: int| a <= x < k ==> is_ascii_digit(#[trigger] v@[x]),
            acc == if digits_value(d.subrange(0, k - a)) < cap {
                digits_value(d.subrange(0, k - a))
            } else {
                cap as nat
            },
        decreases j - k,
    {
        let c = v[k];
        if !is_digit(c) {
            assert(!is_ascii_digit(d[k - a]));
            return None;
        }
        proof {
            lemma_digits_step(d, k - a);
        }
        let dv = (c as u32 - '0' as u32) as u64;
        let next = acc * 10 + dv;
        acc = if next < cap {
            next
        } else {
            cap
        };
        k = k + 1;
    }
    assert(d.subrange(0, j - a) =~= d);
    assert(all_digits(d)) by {
        assert forall|x: int| 0 <= x < d.len() implies is_ascii_digit(#[trigger] d[x]) by {
            assert(d[x] == v@[a + x]);
        }
    }
    if acc < cap {
        Some(acc as u32)
    } else {
        None
    }
}

/// One comma-separated piece `v[i..j]`; the error holds the bounds of the
/// offending trimmed text.
fn parse_piece(v: &Vec<char>, i: usize, j: usize) -> (r: Result<(u32, u32), (usize, usize)>)
    requires
        i <= j <= v@.len(),
    ensures
        match r {
            Ok(p) => spec_parse_piece(v@.subrange(i as int, j as int)) == Ok::<(u32, u32), Seq<char>>(p),
            Err((a, b)) => a <= b <= v@.len() && spec_parse_piece(v@.subrange(i as int, j as int))
                == Err::<(u32, u32), Seq<char>>(v@.subrange(a as int, b as int)),
        },
{
    let ghost p = v@.subrange(i as int, j as int);
    let mut d = i;
    while d < j && v[d] != '-'
        invariant
            i <= d <= j <= v@.len(),
            p == v@.subrange(i as int, j as int),
            find_from(p, '-', d - i) == find_from(p, '-', 0),
        decreases j - d,
    {
        assert(p[d - i] == v@[d as int]);
        d = d + 1;
    }
    assert(d < j ==> p[d - i] == v@[d as int]);
    assert(find_from(p, '-', d - i) == d - i);
    assert(p.subrange(0, d - i) =~= v@.subrange(i as int, d as int));
    let (fa, fb) = trim_exec(v, i, d);
    let (ta, tb) = if d < j {
        assert(p.subrange(d - i + 1, p.len() as int) =~= v@.subrange(d + 1, j as int));
        trim_exec(v, d + 1, j)
    } else {
        (fa, fb)
    };
    match parse_u32(v, fa, fb) {
        None => Err((fa, fb)),
        Some(a) => match parse_u32(v, ta, tb) {
            None => Err((ta, tb)),
            Some(b) => Ok((a, b)),
        },
    }
}

/// Appends the pages `first..=last` (or `last..=first`) to `out`.
fn push_range(out: &mut Vec<u32>, first: u32, last: u32)
    ensures
        final(out)@ == old(out)@ + range_seq(first, last),
{
    let lo = if first <= last {
        first
    } else {
        last
    };
    let hi = if first <= last {
        last
    } else {
        first
    };
    let ghost start = out@;
    let mut k: u64 = lo as u64;
    while k <= hi as u64
        invariant
            lo <= k <= hi + 1,
            out@ == start + Seq::new((k - lo) as nat, |x: int| (lo + x) as u32),
        decreases hi + 1 - k,
    {
        out.push(k as u32);
        assert(out@ =~= start + Seq::new((k + 1 - lo) as nat, |x: int| (lo + x) as u32));
        k = k + 1;
    }
    assert(out@ =~= old(out)@ + range_seq(first, last));
}

/// Parses a list of pages and page ranges such as `12-13,15,22-23`, or one of
/// the predefined range names that `resolve` knows, into the pages it names,
/// in order. A range whose first page is the larger one is read backwards
/// (`5-3` is `3,4,5`). Each number may be surrounded by whitespace.
///
/// The error holds the first piece, trimmed, that is not an unsigned integer.
pub fn parse_pages(s: &str) -> (r: Result<Vec<u32>, ParsePageError>)
    ensures
        match spec_parse_pages(s@) {
            Ok(pages) => r matches Ok(v) && v@ == pages,
            Err(x) => r matches Err(e) && e.0@ == x,
        },
{
    let v = to_chars(resolve(s));
    let ghost sv = v@;
    let mut out: Vec<u32> = Vec::new();
    let mut pos: usize = 0;
    loop
        invariant
            sv == v@,
            sv == spec_resolve(s@),
            pos <= v@.len(),
            spec_parse_pages(s@) == match spec_pages_from(sv, pos as int) {
                Ok(rest) => Ok(out@ + rest),
                Err(x) => Err::<Seq<u32>, Seq<char>>(x),
            },
        decreases v@.len() - pos,
    {
        let e = find_from_exec(&v, ',', pos);
        proof {
            lemma_find_from_bounds(sv, ',', pos as int);
        }
        match parse_piece(&v, pos, e) {
            Err((a, b)) => {
                return Err(ParsePageError(collect_string(&v, a, b)));
            },
            Ok((first, last)) => {
                let ghost before = out@;
                push_range(&mut out, first, last);
                if e == v.len() {
                    assert(out@ == before + range_seq(first, last));
                    return Ok(out);
                }
                assert(match spec_pages_from(sv, e + 1) {
                    Ok(rest) => Ok(out@ + rest),
                    Err(x) => Err::<Seq<u32>, Seq<char>>(x),
                } == match spec_pages_from(sv, pos as int) {
                    Ok(rest) => Ok(before + rest),
                    Err(x) => Err::<Seq<u32>, Seq<char>>(x),
                }) by {
                    match spec_pages_from(sv, e + 1) {
                        Ok(rest) => {
                            assert(before + (range_seq(first, last) + rest) =~= out@ + rest);
                        },
                        Err(_) => {},
                    }
                }
                pos = e + 1;
            },
        }
    }
}

/// The first `limit` items of `s`, or all of them where there are fewer.
pub open spec fn capped(s: Seq<u32>, limit: nat) -> Seq<u32> {
    if s.len() <= limit {
        s
    } else {
        s.take(limit as int)
    }
}

proof fn lemma_capped_append(a: Seq<u32>, b: Seq<u32>, limit: nat)
    ensures
        capped(capped(a, limit) + b, limit) == capped(a + b, limit),
{
    if a.len() > limit {
        assert((a.take(limit as int) + b).take(limit as int) =~= a.take(limit as int));
        assert((a + b).take(limit as int) =~= a.take(limit as int));
    }
}

/// Appends to `out` the pages `first..=last` (or `last..=first`), but stops
/// once `out` holds `limit` pages.
fn push_range_capped(out: &mut Vec<u32>, first: u32, last: u32, limit: usize)
    requires
        old(out)@.len() <= limit,
    ensures
        final(out)@ == capped(old(out)@ + range_seq(first, last), limit as nat),
{
    let lo = if first <= last {
        first
    } else {
        last
    };
    let hi = if first <= last {
        last
    } else {
        first
    };
    let ghost start = out@;
    let mut k: u64 = lo as u64;
    while k <= hi as u64 && out.len() < limit
        invariant
            lo <= k <= hi + 1,
            out@ == start + Seq::new((k - lo) as nat, |x: int| (lo + x) as u32),
            out@.len() <= limit,
        decreases hi + 1 - k,
    {
        out.push(k as u32);
        assert(out@ =~= start + Seq::new((k + 1 - lo) as nat, |x: int| (lo + x) as u32));
        k = k + 1;
    }
    let ghost whole = start + range_seq(first, last);
    if k > hi as u64 {
        assert(out@ =~= whole);
    } else {
        assert(out@ =~= whole.take(limit as int));
    }
}

/// `parse_pages` without expanding more than `limit` pages: every piece is
/// still checked, but only the first `limit` pages are kept.
pub fn parse_pages_capped(s: &str, limit: usize) -> (r: Result<Vec<u32>, ParsePageError>)
    ensures
        match spec_parse_pages(s@) {
            Ok(pages) => r matches Ok(v) && v@ == capped(pages, limit as nat),
            Err(x) => r matches Err(e) && e.0@ == x,
        },
{
    let v = to_chars(resolve(s));
    let ghost sv = v@;
    let mut out: Vec<u32> = Vec::new();
    let ghost mut done: Seq<u32> = Seq::empty();
    let mut pos: usize = 0;
    loop
        invariant
            sv == v@,
            sv == spec_resolve(s@),
            pos <= v@.len(),
            out@ == capped(done, limit as nat),
            spec_parse_pages(s@) == match spec_pages_from(sv, pos as int) {
                Ok(rest) => Ok(done + rest),
                Err(x) => Err::<Seq<u32>, Seq<char>>(x),
            },
        decreases v@.len() - pos,
    {
        let e = find_from_exec(&v, ',', pos);
        proof {
            lemma_find_from_bounds(sv, ',', pos as int);
        }
        match parse_piece(&v, pos, e) {
            Err((a, b)) => {
                return Err(ParsePageError(collect_string(&v, a, b)));
            },
            Ok((first, last)) => {
                let ghost before = done;
                push_range_capped(&mut out, first, last, limit);
                proof {
                    lemma_capped_append(before, range_seq(first, last), limit as nat);
                    done = before + range_seq(first, last);
                }
                if e == v.len() {
                    return Ok(out);
                }
                assert(match spec_pages_from(sv, e + 1) {
                    Ok(rest) => Ok(done + rest),
                    Err(x) => Err::<Seq<u32>, Seq<char>>(x),
                } == match spec_pages_from(sv, pos as int) {
                    Ok(rest) => Ok(before + rest),
                    Err(x) => Err::<Seq<u32>, Seq<char>>(x),
                }) by {
                    match spec_pages_from(sv, e + 1) {
                        Ok(rest) => {
                            assert(before + (range_seq(first, last) + rest) =~= done + rest);
                        },
                        Err(_) => {},
                    }
                }
                pos = e + 1;
            },
        }
    }
}

// ---------------------------------------------------------------------------
// Laws

proof fn lemma_find_from_shift(p: Seq<char>, q: Seq<char>, c: char, k: int)
    requires
        0 <= k <= q.len(),
    ensures
        find_from(p + q, c, p.len() + k) == p.len() + find_from(q, c, k),
    decreases q.len() - k,
{
    if k < q.len() {
        assert((p + q)[p.len() + k] == q[k]);
        if q[k] != c {
            lemma_find_from_shift(p, q, c, k + 1);
        }
    }
}

proof fn lemma_pages_shift(p: Seq<char>, q: Seq<char>, k: int)
    requires
        0 <= k <= q.len(),
    ensures
        spec_pages_from(p + q, p.len() + k) == spec_pages_from(q, k),
    decreases q.len() - k,
{
    let x = p + q;
    lemma_find_from_shift(p, q, ',', k);
    lemma_find_from_bounds(q, ',', k);
    let e = find_from(q, ',', k);
    assert(x.subrange(p.len() + k, p.len() + e) =~= q.subrange(k, e));
    if e < q.len() {
        lemma_pages_shift(p, q, e + 1);
    }
}

proof fn lemma_find_from_prefix(a: Seq<char>, q: Seq<char>, c: char, i: int)
    requires
        0 <= i <= a.len(),
    ensures
        find_from(a + q, c, i) == if find_from(a, c, i) < a.len() {
            find_from(a, c, i)
        } else {
            a.len() + find_from(q, c, 0)
        },
    decreases a.len() - i,
{
    if i < a.len() {
        assert((a + q)[i] == a[i]);
        if a[i] != c {
            lemma_find_from_prefix(a, q, c, i + 1);
        }
    } else {
        lemma_find_from_shift(a, q, c, 0);
    }
}

proof fn lemma_pages_prefix(a: Seq<char>, b: Seq<char>, i: int)
    requires
        0 <= i <= a.len(),
    ensures
        spec_pages_from(a + seq![','] + b, i) == match (spec_pages_from(a, i), spec_pages_from(b, 0)) {
            (Ok(x), Ok(y)) => Ok(x + y),
            (Err(e), _) => Err(e),
            (Ok(_), Err(e)) => Err(e),
        },
    decreases a.len() - i,
{
    let q = seq![','] + b;
    let x = a + seq![','] + b;
    assert(x =~= a + q);
    assert(q[0] == ',');
    lemma_find_from_prefix(a, q, ',', i);
    lemma_find_from_bounds(a, ',', i);
    let e = find_from(a, ',', i);
    if e < a.len() {
        assert(x.subrange(i, e) =~= a.subrange(i, e));
        lemma_pages_prefix(a, b, e + 1);
        match (spec_parse_piece(a.subrange(i, e)), spec_pages_from(a, e + 1), spec_pages_from(b, 0)) {
            (Ok((f, l)), Ok(ra), Ok(y)) => {
                assert(range_seq(f, l) + ra + y =~= range_seq(f, l) + (ra + y));
            },
            _ => {},
        }
    } else {
        assert(x.subrange(i, a.len() as int) =~= a.subrange(i, a.len() as int));
        assert(x =~= (a + seq![',']) + b);
        lemma_pages_shift(a + seq![','], b, 0);
    }
}

proof fn lemma_names_have_no_comma(x: Seq<char>)
    requires
        x.contains(','),
    ensures
        spec_resolve(x) == x,
{
    reveal_strlit("stormlight-worldguide");
    reveal_strlit("stonewalkers");
    let i = choose|i: int| 0 <= i < x.len() && x[i] == ',';
    if x == "stormlight-worldguide"@ {
        assert("stormlight-worldguide"@[i] != ',');
    }
    if x == "stonewalkers"@ {
        assert("stonewalkers"@[i] != ',');
    }
}

/// A page list is the concatenation of its comma-separated parts: parsing
/// `a,b` (where neither part is the name of a predefined range) gives the
/// pages of `a` followed by those of `b`, or the first error among them.
pub proof fn law_pages_concatenate(a: Seq<char>, b: Seq<char>)
    requires
        spec_resolve(a) == a,
        spec_resolve(b) == b,
    ensures
        spec_parse_pages(a + seq![','] + b) == match (spec_parse_pages(a), spec_parse_pages(b)) {
            (Ok(x), Ok(y)) => Ok(x + y),
            (Err(e), _) => Err(e),
            (Ok(_), Err(e)) => Err(e),
        },
{
    let x = a + seq![','] + b;
    assert(x[a.len() as int] == ',');
    lemma_names_have_no_comma(x);
    lemma_pages_prefix(a, b, 0);
}

/// Resolving is idempotent: the page lists of the predefined ranges are no
/// range names themselves.
pub proof fn law_resolve_idempotent(s: Seq<char>)
    ensures
        spec_resolve(spec_resolve(s)) == spec_resolve(s),
{
    reveal_strlit("stormlight-worldguide");
    reveal_strlit("stonewalkers");
    reveal_strlit("191-269");
    reveal_strlit("136-170");
    assert("stonewalkers"@.len() == 12);
    assert("191-269"@.len() == 7);
    assert("136-170"@.len() == 7);
    assert("191-269"@ != "stonewalkers"@);
    assert("136-170"@ != "stonewalkers"@);
    assert("191-269"@ != "stormlight-worldguide"@);
    assert("136-170"@ != "stormlight-worldguide"@);
}

/// A range read backwards gives the same pages as read forwards.
pub proof fn law_range_symmetric(first: u32, last: u32)
    ensures
        range_seq(first, last) == range_seq(last, first),
{
}

} // verus!
