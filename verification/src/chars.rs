//! Character-level helpers shared by the page-range parser, the stat-block
//! grammar and the Obsidian text clean-up.
//!
//! Text is modelled as a `Seq<char>`; positions are character indices.
use vstd::prelude::*;

verus! {

/// Unicode `White_Space`, the property that `char::is_whitespace` and
/// `str::trim` go by.
pub open spec fn is_ws(c: char) -> bool {
    ||| ('\u{9}' <= c && c <= '\u{d}')
    ||| c == ' '
    ||| c == '\u{85}'
    ||| c == '\u{a0}'
    ||| c == '\u{1680}'
    ||| ('\u{2000}' <= c && c <= '\u{200a}')
    ||| c == '\u{2028}'
    ||| c == '\u{2029}'
    ||| c == '\u{202f}'
    ||| c == '\u{205f}'
    ||| c == '\u{3000}'
}

pub open spec fn is_ascii_digit(c: char) -> bool {
    '0' <= c && c <= '9'
}

pub open spec fn is_ascii_alpha(c: char) -> bool {
    ('a' <= c && c <= 'z') || ('A' <= c && c <= 'Z')
}

/// ASCII lower-casing of one character; every other character is kept.
pub open spec fn ascii_lower(c: char) -> char {
    if 'A' <= c && c <= 'Z' {
        ((c as u32) + 32) as char
    } else {
        c
    }
}

/// `c` compared without case, as `char::to_lowercase` does for a character
/// that lowers to one ASCII character: ASCII letters lowered, and the Kelvin
/// sign (U+212A) taken as `k`; every other character is kept.
pub open spec fn fold_case(c: char) -> char {
    if c == '\u{212a}' {
        'k'
    } else {
        ascii_lower(c)
    }
}

/// The number of bytes `c` takes in UTF-8.
pub open spec fn utf8_width(c: char) -> nat {
    if (c as u32) < 0x80 {
        1
    } else if (c as u32) < 0x800 {
        2
    } else if (c as u32) < 0x10000 {
        3
    } else {
        4
    }
}

/// The UTF-8 length in bytes of `s[i..j]`.
pub open spec fn byte_len(s: Seq<char>, i: int, j: int) -> nat
    decreases j - i,
{
    if i < j {
        utf8_width(s[i]) + byte_len(s, i + 1, j)
    } else {
        0
    }
}

/// The position `b` UTF-8 bytes after position `i`, where that is the start
/// of a character or the end of `s`; `None` where it falls inside a
/// character or beyond the end.
pub open spec fn char_at_byte(s: Seq<char>, i: int, b: int) -> Option<int>
    decreases s.len() - i,
{
    if b == 0 {
        Some(i)
    } else if b < 0 || i < 0 || i >= s.len() {
        None
    } else {
        char_at_byte(s, i + 1, b - utf8_width(s[i]))
    }
}

/// The first position at or after `i` (and below `j`) that does not hold
/// whitespace, or `j`.
pub open spec fn skip_ws(s: Seq<char>, i: int, j: int) -> int
    decreases j - i,
{
    if i < j && is_ws(s[i]) {
        skip_ws(s, i + 1, j)
    } else {
        i
    }
}

/// The end of `s[i..j]` once trailing whitespace is dropped.
pub open spec fn skip_ws_back(s: Seq<char>, i: int, j: int) -> int
    decreases j - i,
{
    if i < j && is_ws(s[j - 1]) {
        skip_ws_back(s, i, j - 1)
    } else {
        j
    }
}

/// `str::trim`: `s` without leading and trailing whitespace.
pub open spec fn trim(s: Seq<char>) -> Seq<char> {
    let a = skip_ws(s, 0, s.len() as int);
    s.subrange(a, skip_ws_back(s, a, s.len() as int))
}

/// `str::trim_start`.
pub open spec fn trim_start(s: Seq<char>) -> Seq<char> {
    s.subrange(skip_ws(s, 0, s.len() as int), s.len() as int)
}

/// `str::trim_end`.
pub open spec fn trim_end(s: Seq<char>) -> Seq<char> {
    s.subrange(0, skip_ws_back(s, 0, s.len() as int))
}

/// The first position `k >= i` with `s[k] == c`, or `s.len()`.
pub open spec fn find_from(s: Seq<char>, c: char, i: int) -> int
    decreases s.len() - i,
{
    if i >= s.len() {
        s.len() as int
    } else if s[i] == c {
        i
    } else {
        find_from(s, c, i + 1)
    }
}

/// `s[k..k + p.len()] == p`.
pub open spec fn occurs_at(s: Seq<char>, k: int, p: Seq<char>) -> bool {
    0 <= k && k + p.len() <= s.len() && s.subrange(k, k + p.len() as int) == p
}

/// The first position `k >= i` at which `p` occurs in `s`, if any.
pub open spec fn find_seq(s: Seq<char>, p: Seq<char>, i: int) -> Option<int>
    decreases s.len() + 1 - i,
{
    if i + p.len() > s.len() || i < 0 {
        None
    } else if occurs_at(s, i, p) {
        Some(i)
    } else {
        find_seq(s, p, i + 1)
    }
}

pub proof fn lemma_skip_ws_bounds(s: Seq<char>, i: int, j: int)
    requires
        i <= j,
    ensures
        i <= skip_ws(s, i, j) <= j,
        skip_ws(s, i, j) < j ==> !is_ws(s[skip_ws(s, i, j)]),
    decreases j - i,
{
    if i < j && is_ws(s[i]) {
        lemma_skip_ws_bounds(s, i + 1, j);
    }
}

pub proof fn lemma_skip_ws_back_bounds(s: Seq<char>, i: int, j: int)
    requires
        i <= j,
    ensures
        i <= skip_ws_back(s, i, j) <= j,
    decreases j - i,
{
    if i < j && is_ws(s[j - 1]) {
        lemma_skip_ws_back_bounds(s, i, j - 1);
    }
}

pub proof fn lemma_skip_ws_back_last(s: Seq<char>, i: int, j: int)
    requires
        0 <= i <= j <= s.len(),
    ensures
        skip_ws_back(s, i, j) > i ==> !is_ws(s[skip_ws_back(s, i, j) - 1]),
    decreases j - i,
{
    if i < j && is_ws(s[j - 1]) {
        lemma_skip_ws_back_last(s, i, j - 1);
    }
}

/// A position some bytes further on lies within the text and not before.
pub broadcast proof fn lemma_char_at_byte_bounds(s: Seq<char>, i: int, b: int)
    requires
        0 <= i <= s.len(),
    ensures
        #[trigger] char_at_byte(s, i, b) matches Some(j) ==> i <= j <= s.len(),
    decreases s.len() - i,
{
    if b != 0 && b >= 0 && i < s.len() {
        lemma_char_at_byte_bounds(s, i + 1, b - utf8_width(s[i]));
    }
}

/// Trimming twice is trimming once.
pub proof fn lemma_trim_idempotent(s: Seq<char>)
    ensures
        trim(trim(s)) == trim(s),
{
    let n = s.len() as int;
    let a = skip_ws(s, 0, n);
    lemma_skip_ws_bounds(s, 0, n);
    let b = skip_ws_back(s, a, n);
    lemma_skip_ws_back_bounds(s, a, n);
    lemma_skip_ws_back_last(s, a, n);
    let t = trim(s);
    assert(t =~= s.subrange(a, b));
    let m = t.len() as int;
    if m > 0 {
        assert(t[0] == s[a]);
        assert(t[m - 1] == s[b - 1]);
        assert(!is_ws(t[0]));
        assert(skip_ws(t, 0, m) == 0);
        assert(skip_ws_back(t, 0, m) == m);
    }
    assert(trim(t) =~= t);
}

pub proof fn lemma_find_from_bounds(s: Seq<char>, c: char, i: int)
    requires
        0 <= i <= s.len(),
    ensures
        i <= find_from(s, c, i) <= s.len(),
        find_from(s, c, i) < s.len() ==> s[find_from(s, c, i)] == c,
    decreases s.len() - i,
{
    if i < s.len() && s[i] != c {
        lemma_find_from_bounds(s, c, i + 1);
    }
}

pub proof fn lemma_find_seq_bounds(s: Seq<char>, p: Seq<char>, i: int)
    requires
        0 <= i,
    ensures
        find_seq(s, p, i) matches Some(k) ==> i <= k && occurs_at(s, k, p),
    decreases s.len() + 1 - i,
{
    if i + p.len() <= s.len() && !occurs_at(s, i, p) {
        lemma_find_seq_bounds(s, p, i + 1);
    }
}

pub proof fn lemma_skip_ws_sub(s: Seq<char>, lo: int, hi: int, x: int, y: int)
    requires
        0 <= lo <= hi <= s.len(),
        0 <= x <= y <= hi - lo,
    ensures
        skip_ws(s.subrange(lo, hi), x, y) == skip_ws(s, lo + x, lo + y) - lo,
    decreases y - x,
{
    if x < y {
        assert(s.subrange(lo, hi)[x] == s[lo + x]);
        lemma_skip_ws_sub(s, lo, hi, x + 1, y);
    }
}

pub proof fn lemma_skip_ws_back_sub(s: Seq<char>, lo: int, hi: int, x: int, y: int)
    requires
        0 <= lo <= hi <= s.len(),
        0 <= x <= y <= hi - lo,
    ensures
        skip_ws_back(s.subrange(lo, hi), x, y) == skip_ws_back(s, lo + x, lo + y) - lo,
    decreases y - x,
{
    if x < y {
        assert(s.subrange(lo, hi)[y - 1] == s[lo + y - 1]);
        lemma_skip_ws_back_sub(s, lo, hi, x, y - 1);
    }
}

/// The bounds of `trim(s[i..j])` inside `s`.
pub open spec fn trim_bounds(s: Seq<char>, i: int, j: int) -> (int, int) {
    let a = skip_ws(s, i, j);
    (a, skip_ws_back(s, a, j))
}

pub proof fn lemma_trim_bounds(s: Seq<char>, i: int, j: int)
    requires
        0 <= i <= j <= s.len(),
    ensures
        i <= trim_bounds(s, i, j).0 <= trim_bounds(s, i, j).1 <= j,
        s.subrange(trim_bounds(s, i, j).0, trim_bounds(s, i, j).1) == trim(s.subrange(i, j)),
{
    let t = s.subrange(i, j);
    lemma_skip_ws_bounds(s, i, j);
    let a = skip_ws(s, i, j);
    lemma_skip_ws_back_bounds(s, a, j);
    lemma_skip_ws_sub(s, i, j, 0, j - i);
    lemma_skip_ws_back_sub(s, i, j, a - i, j - i);
    assert(t.subrange(a - i, skip_ws_back(s, a, j) - i) =~= s.subrange(a, skip_ws_back(s, a, j)));
}

/// The bounds of `trim(v[i..j])` inside `v`.
pub fn trim_exec(v: &Vec<char>, i: usize, j: usize) -> (r: (usize, usize))
    requires
        i <= j <= v@.len(),
    ensures
        i <= r.0 <= r.1 <= j,
        r.0 == trim_bounds(v@, i as int, j as int).0,
        r.1 == trim_bounds(v@, i as int, j as int).1,
        v@.subrange(r.0 as int, r.1 as int) == trim(v@.subrange(i as int, j as int)),
{
    proof {
        lemma_trim_bounds(v@, i as int, j as int);
    }
    let a = skip_ws_exec(v, i, j);
    let b = skip_ws_back_exec(v, a, j);
    (a, b)
}

/// `char::is_whitespace`.
pub fn is_whitespace(c: char) -> (r: bool)
    ensures
        r == is_ws(c),
{
    ('\u{9}' <= c && c <= '\u{d}') || c == ' ' || c == '\u{85}' || c == '\u{a0}' || c
        == '\u{1680}' || ('\u{2000}' <= c && c <= '\u{200a}') || c == '\u{2028}' || c
        == '\u{2029}' || c == '\u{202f}' || c == '\u{205f}' || c == '\u{3000}'
}

pub fn is_digit(c: char) -> (r: bool)
    ensures
        r == is_ascii_digit(c),
{
    '0' <= c && c <= '9'
}

pub fn is_alpha(c: char) -> (r: bool)
    ensures
        r == is_ascii_alpha(c),
{
    ('a' <= c && c <= 'z') || ('A' <= c && c <= 'Z')
}

/// `char::len_utf8`.
pub fn char_width(c: char) -> (r: usize)
    ensures
        r == utf8_width(c),
{
    let u = c as u32;
    if u < 0x80 {
        1
    } else if u < 0x800 {
        2
    } else if u < 0x10000 {
        3
    } else {
        4
    }
}

/// Appends one character to a `String` (`String::push`).
#[verifier::external_body]
pub fn push_char(s: &mut String, c: char)
    ensures
        final(s)@ == old(s)@.push(c),
{
    s.push(c);
}

/// The characters of `s`, in order.
pub fn to_chars(s: &str) -> (v: Vec<char>)
    ensures
        v@ == s@,
{
    let n = s.unicode_len();
    let mut v: Vec<char> = Vec::new();
    let mut i: usize = 0;
    while i < n
        invariant
            n == s@.len(),
            i <= n,
            v@ == s@.subrange(0, i as int),
        decreases n - i,
    {
        v.push(s.get_char(i));
        i = i + 1;
    }
    v
}

/// A new `String` holding `v[i..j]`.
pub fn collect_string(v: &Vec<char>, i: usize, j: usize) -> (r: String)
    requires
        i <= j <= v@.len(),
    ensures
        r@ == v@.subrange(i as int, j as int),
{
    let mut r = String::new();
    let mut k: usize = i;
    while k < j
        invariant
            i <= k <= j <= v@.len(),
            r@ == v@.subrange(i as int, k as int),
        decreases j - k,
    {
        push_char(&mut r, v[k]);
        k = k + 1;
    }
    r
}

/// Appends `v[i..j]` to `r`.
pub fn append_range(r: &mut String, v: &Vec<char>, i: usize, j: usize)
    requires
        i <= j <= v@.len(),
    ensures
        final(r)@ == old(r)@ + v@.subrange(i as int, j as int),
{
    let ghost start = r@;
    let mut k: usize = i;
    while k < j
        invariant
            i <= k <= j <= v@.len(),
            r@ == start + v@.subrange(i as int, k as int),
        decreases j - k,
    {
        push_char(r, v[k]);
        k = k + 1;
    }
}

/// Whether `v[i..j]`, with ASCII letters lowered, is `lit`.
pub fn lower_range_is(v: &Vec<char>, i: usize, j: usize, lit: &str) -> (r: bool)
    requires
        i <= j <= v@.len(),
    ensures
        r == (Seq::new((j - i) as nat, |k: int| ascii_lower(v@[i + k])) == lit@),
{
    let ghost l = Seq::new((j - i) as nat, |k: int| ascii_lower(v@[i + k]));
    let n = lit.unicode_len();
    if j - i != n {
        return false;
    }
    let mut k: usize = 0;
    while k < n
        invariant
            i <= j <= v@.len(),
            n == lit@.len() == j - i,
            l == Seq::new((j - i) as nat, |k: int| ascii_lower(v@[i + k])),
            k <= n,
            forall|x: int| 0 <= x < k ==> l[x] == lit@[x],
        decreases n - k,
    {
        if lower_char(v[i + k]) != lit.get_char(k) {
            assert(l[k as int] != lit@[k as int]);
            return false;
        }
        k = k + 1;
    }
    assert(l =~= lit@);
    true
}

/// Whether `v[i..j]` is `lit`.
pub fn range_is(v: &Vec<char>, i: usize, j: usize, lit: &str) -> (r: bool)
    requires
        i <= j <= v@.len(),
    ensures
        r == (v@.subrange(i as int, j as int) == lit@),
{
    let ghost l = v@.subrange(i as int, j as int);
    let n = lit.unicode_len();
    if j - i != n {
        return false;
    }
    let mut k: usize = 0;
    while k < n
        invariant
            i <= j <= v@.len(),
            n == lit@.len() == j - i,
            l == v@.subrange(i as int, j as int),
            k <= n,
            forall|x: int| 0 <= x < k ==> l[x] == lit@[x],
        decreases n - k,
    {
        if v[i + k] != lit.get_char(k) {
            assert(l[k as int] != lit@[k as int]);
            return false;
        }
        k = k + 1;
    }
    assert(l =~= lit@);
    true
}

/// `c` lowered if it is an ASCII upper-case letter (`char::to_ascii_lowercase`).
pub fn lower_char(c: char) -> (r: char)
    ensures
        r == ascii_lower(c),
{
    if 'A' <= c && c <= 'Z' {
        let b: u8 = (c as u32 + 32) as u8;
        b as char
    } else {
        c
    }
}

/// `fold_case(c)`.
pub fn fold_char(c: char) -> (r: char)
    ensures
        r == fold_case(c),
{
    if c == '\u{212a}' {
        'k'
    } else {
        lower_char(c)
    }
}

/// `skip_ws` on a vector.
pub fn skip_ws_exec(v: &Vec<char>, i: usize, j: usize) -> (r: usize)
    requires
        i <= j <= v@.len(),
    ensures
        r == skip_ws(v@, i as int, j as int),
        i <= r <= j,
{
    let mut k = i;
    while k < j && is_whitespace(v[k])
        invariant
            i <= k <= j <= v@.len(),
            skip_ws(v@, k as int, j as int) == skip_ws(v@, i as int, j as int),
        decreases j - k,
    {
        k = k + 1;
    }
    k
}

/// `skip_ws_back` on a vector.
pub fn skip_ws_back_exec(v: &Vec<char>, i: usize, j: usize) -> (r: usize)
    requires
        i <= j <= v@.len(),
    ensures
        r == skip_ws_back(v@, i as int, j as int),
        i <= r <= j,
{
    let mut k = j;
    while k > i && is_whitespace(v[k - 1])
        invariant
            i <= k <= j <= v@.len(),
            skip_ws_back(v@, i as int, k as int) == skip_ws_back(v@, i as int, j as int),
        decreases k - i,
    {
        k = k - 1;
    }
    k
}

/// `find_from` on a vector.
pub fn find_from_exec(v: &Vec<char>, c: char, i: usize) -> (r: usize)
    requires
        i <= v@.len(),
    ensures
        r == find_from(v@, c, i as int),
        i <= r <= v@.len(),
{
    let mut k = i;
    while k < v.len() && v[k] != c
        invariant
            i <= k <= v@.len(),
            find_from(v@, c, k as int) == find_from(v@, c, i as int),
        decreases v@.len() - k,
    {
        k = k + 1;
    }
    k
}

/// Whether `p` occurs in `v` at position `k`.
pub fn occurs_at_exec(v: &Vec<char>, k: usize, p: &Vec<char>) -> (r: bool)
    ensures
        r == occurs_at(v@, k as int, p@),
{
    if k > v.len() || p.len() > v.len() - k {
        return false;
    }
    let mut m: usize = 0;
    while m < p.len()
        invariant
            k + p@.len() <= v@.len() <= usize::MAX,
            m <= p@.len(),
            forall|x: int| 0 <= x < m ==> v@[k + x] == p@[x],
        decreases p@.len() - m,
    {
        let idx: usize = k + m;
        if v[idx] != p[m] {
            assert(v@.subrange(k as int, k + p@.len())[m as int] != p@[m as int]);
            return false;
        }
        m = m + 1;
    }
    assert(v@.subrange(k as int, k + p@.len()) =~= p@);
    true
}

/// `find_seq` on a vector.
pub fn find_seq_exec(v: &Vec<char>, p: &Vec<char>, i: usize) -> (r: Option<usize>)
    ensures
        r matches Some(k) ==> find_seq(v@, p@, i as int) == Some(k as int),
        r is None ==> find_seq(v@, p@, i as int) is None,
{
    let mut k = i;
    loop
        invariant
            i <= k,
            find_seq(v@, p@, k as int) == find_seq(v@, p@, i as int),
        decreases v@.len() + 1 - k,
    {
        if k > v.len() || p.len() > v.len() - k {
            return None;
        }
        if occurs_at_exec(v, k, p) {
            return Some(k);
        }
        if k == v.len() {
            assert(p@.len() == 0);
            assert(v@.subrange(k as int, k as int) =~= p@);
            assert(false);
            return None;
        }
        k = k + 1;
    }
}

} // verus!
