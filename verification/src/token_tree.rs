//! Turning the token stream of a user-supplied grammar into nested values.
//!
//! A grammar engine reports, for each rule it matched, a `Start` and an `End`
//! token with byte positions into the page. Each matched rule becomes a value:
//! the matched text where no rule matched inside it, or else a record of its
//! inner rules with the matched text under `_`. An inner rule matched more
//! than once becomes a list.
use vstd::prelude::*;

use crate::chars::{char_width, collect_string, to_chars, utf8_width};

verus! {

/// A nested value read off the token stream.
pub enum Value {
    Text(String),
    Record(Vec<(String, Value)>),
    List(Vec<Value>),
}

pub enum ValueModel {
    Text(Seq<char>),
    Record(Seq<(Seq<char>, ValueModel)>),
    List(Seq<ValueModel>),
}

pub open spec fn model(v: Value) -> ValueModel
    decreases v, 0nat,
{
    match v {
        Value::Text(t) => ValueModel::Text(t@),
        Value::Record(fs) => ValueModel::Record(fields_model(fs@, fs@.len() as int)),
        Value::List(xs) => ValueModel::List(list_model(xs@, xs@.len() as int)),
    }
}

/// The models of `xs[0..n]`.
pub open spec fn list_model(xs: Seq<Value>, n: int) -> Seq<ValueModel>
    decreases xs, n,
{
    if 0 < n <= xs.len() {
        list_model(xs, n - 1).push(model(xs[n - 1]))
    } else {
        seq![]
    }
}

/// The models of `fs[0..n]`.
pub open spec fn fields_model(fs: Seq<(String, Value)>, n: int) -> Seq<(Seq<char>, ValueModel)>
    decreases fs, n,
{
    if 0 < n <= fs.len() {
        fields_model(fs, n - 1).push((fs[n - 1].0@, model(fs[n - 1].1)))
    } else {
        seq![]
    }
}

pub open spec fn values_model(xs: Seq<Value>) -> Seq<ValueModel> {
    list_model(xs, xs.len() as int)
}

pub open spec fn record_model(fs: Seq<(String, Value)>) -> Seq<(Seq<char>, ValueModel)> {
    fields_model(fs, fs.len() as int)
}

/// A token of a grammar engine: a rule starts or ends at a byte position.
pub enum Token {
    Start { rule: String, pos: usize },
    End { rule: String, pos: usize },
}

pub enum TokenModel {
    Start { rule: Seq<char>, pos: int },
    End { rule: Seq<char>, pos: int },
}

pub open spec fn token_model(t: Token) -> TokenModel {
    match t {
        Token::Start { rule, pos } => TokenModel::Start { rule: rule@, pos: pos as int },
        Token::End { rule, pos } => TokenModel::End { rule: rule@, pos: pos as int },
    }
}

pub open spec fn tokens_model(ts: Seq<Token>) -> Seq<TokenModel> {
    Seq::new(ts.len(), |i: int| token_model(ts[i]))
}

/// The character index at which byte offset `b` of `s` falls, scanning from
/// index `k` at byte offset `at`; none where `b` is not at a character
/// boundary.
pub open spec fn index_of_byte(s: Seq<char>, b: int, k: int, at: int) -> Option<int>
    decreases s.len() - k,
{
    if at == b {
        Some(k)
    } else if at < b && 0 <= k < s.len() {
        index_of_byte(s, b, k + 1, at + utf8_width(s[k]))
    } else {
        None
    }
}

/// `&s[a..b]` for byte offsets `a` and `b`; none where that slice panics.
pub open spec fn byte_slice(s: Seq<char>, a: int, b: int) -> Option<Seq<char>> {
    match (index_of_byte(s, a, 0, 0), index_of_byte(s, b, 0, 0)) {
        (Some(i), Some(j)) => if i <= j {
            Some(s.subrange(i, j))
        } else {
            None
        },
        _ => None,
    }
}

/// The first field of `fs` named `k`.
pub open spec fn find_key(fs: Seq<(Seq<char>, ValueModel)>, k: Seq<char>, i: int) -> Option<int>
    decreases fs.len() - i,
{
    if 0 <= i < fs.len() {
        if fs[i].0 == k {
            Some(i)
        } else {
            find_key(fs, k, i + 1)
        }
    } else {
        None
    }
}

/// `fs` with field `k` set to `v`.
pub open spec fn put(fs: Seq<(Seq<char>, ValueModel)>, k: Seq<char>, v: ValueModel) -> Seq<
    (Seq<char>, ValueModel),
> {
    match find_key(fs, k, 0) {
        Some(i) => fs.update(i, (k, v)),
        None => fs.push((k, v)),
    }
}

/// `fs` with `v` added under `rule`: a second value makes the field a list,
/// later ones are appended to it.
pub open spec fn add_child(fs: Seq<(Seq<char>, ValueModel)>, rule: Seq<char>, v: ValueModel) -> Seq<
    (Seq<char>, ValueModel),
> {
    match find_key(fs, rule, 0) {
        Some(i) => fs.update(
            i,
            (
                rule,
                match fs[i].1 {
                    ValueModel::List(xs) => ValueModel::List(xs.push(v)),
                    old => ValueModel::List(seq![old, v]),
                },
            ),
        ),
        None => fs.push((rule, v)),
    }
}

/// The value of a matched rule.
pub open spec fn close(text: Seq<char>, fs: Seq<(Seq<char>, ValueModel)>) -> ValueModel {
    if fs.len() == 0 {
        ValueModel::Text(text)
    } else {
        ValueModel::Record(put(fs, "_"@, ValueModel::Text(text)))
    }
}

/// A rule being matched: its name, its start and the values of the rules
/// matched inside it so far.
pub struct Frame {
    pub rule: Seq<char>,
    pub start: int,
    pub fields: Seq<(Seq<char>, ValueModel)>,
}

/// The open rules and the finished top-level values.
pub struct TreeState {
    pub open: Seq<Frame>,
    pub done: Seq<ValueModel>,
}

/// One token; none where the engine's stream cannot be read (an `End` with no
/// open rule, an `End` of another rule than the innermost open one, or a
/// position off the page's character boundaries).
pub open spec fn step(s: Seq<char>, st: TreeState, t: TokenModel) -> Option<TreeState> {
    match t {
        TokenModel::Start { rule, pos } => Some(
            TreeState { open: st.open.push(Frame { rule, start: pos, fields: seq![] }), done: st.done },
        ),
        TokenModel::End { rule, pos } => if st.open.len() == 0 {
            None
        } else {
            let top = st.open.last();
            if top.rule != rule {
                None
            } else {
                match byte_slice(s, top.start, pos) {
                    None => None,
                    Some(text) => {
                        let v = close(text, top.fields);
                        let rest = st.open.drop_last();
                        if rest.len() == 0 {
                            Some(TreeState { open: rest, done: st.done.push(v) })
                        } else {
                            let parent = rest.last();
                            Some(
                                TreeState {
                                    open: rest.update(
                                        rest.len() - 1,
                                        Frame {
                                            rule: parent.rule,
                                            start: parent.start,
                                            fields: add_child(parent.fields, rule, v),
                                        },
                                    ),
                                    done: st.done,
                                },
                            )
                        }
                    },
                }
            }
        },
    }
}

/// The first `n` tokens, from no open rule.
pub open spec fn run(s: Seq<char>, ts: Seq<TokenModel>, n: int) -> Option<TreeState>
    decreases n,
{
    if n <= 0 {
        Some(TreeState { open: seq![], done: seq![] })
    } else {
        match run(s, ts, n - 1) {
            None => None,
            Some(st) => step(s, st, ts[n - 1]),
        }
    }
}

/// The top-level values of a token stream over the page `s`; rules still open
/// at the end give nothing.
pub open spec fn spec_values(s: Seq<char>, ts: Seq<TokenModel>) -> Option<Seq<ValueModel>> {
    match run(s, ts, ts.len() as int) {
        Some(st) => Some(st.done),
        None => None,
    }
}

// ---------------------------------------------------------------------------
// Implementation

proof fn lemma_list_model(xs: Seq<Value>, n: int)
    requires
        0 <= n <= xs.len(),
    ensures
        list_model(xs, n).len() == n,
        forall|k: int| 0 <= k < n ==> #[trigger] list_model(xs, n)[k] == model(xs[k]),
    decreases n,
{
    if n > 0 {
        lemma_list_model(xs, n - 1);
    }
}

proof fn lemma_fields_model(fs: Seq<(String, Value)>, n: int)
    requires
        0 <= n <= fs.len(),
    ensures
        fields_model(fs, n).len() == n,
        forall|k: int|
            0 <= k < n ==> #[trigger] fields_model(fs, n)[k] == (fs[k].0@, model(fs[k].1)),
    decreases n,
{
    if n > 0 {
        lemma_fields_model(fs, n - 1);
    }
}

proof fn lemma_values_model(xs: Seq<Value>)
    ensures
        values_model(xs) == Seq::new(xs.len(), |k: int| model(xs[k])),
{
    lemma_list_model(xs, xs.len() as int);
    assert(values_model(xs) =~= Seq::new(xs.len(), |k: int| model(xs[k])));
}

proof fn lemma_record_model(fs: Seq<(String, Value)>)
    ensures
        record_model(fs) == Seq::new(fs.len(), |k: int| (fs[k].0@, model(fs[k].1))),
{
    lemma_fields_model(fs, fs.len() as int);
    assert(record_model(fs) =~= Seq::new(fs.len(), |k: int| (fs[k].0@, model(fs[k].1))));
}

/// An open rule: its name, its start and the values matched inside it.
type OpenRule = (String, usize, Vec<(String, Value)>);

pub open spec fn frames_model(open: Seq<(String, usize, Vec<(String, Value)>)>) -> Seq<Frame> {
    Seq::new(
        open.len(),
        |i: int| Frame { rule: open[i].0@, start: open[i].1 as int, fields: record_model(open[i].2@) },
    )
}

/// `index_of_byte(v, b, 0, 0)`.
fn byte_index(v: &Vec<char>, b: usize) -> (r: Option<usize>)
    ensures
        r matches Some(k) ==> index_of_byte(v@, b as int, 0, 0) == Some(k as int) && k <= v@.len(),
        r is None ==> index_of_byte(v@, b as int, 0, 0) is None,
{
    let mut k: usize = 0;
    let mut at: u128 = 0;
    loop
        invariant
            k <= v@.len(),
            at <= b,
            index_of_byte(v@, b as int, k as int, at as int) == index_of_byte(v@, b as int, 0, 0),
        decreases v@.len() - k,
    {
        if at == b as u128 {
            return Some(k);
        }
        if k >= v.len() {
            return None;
        }
        let next = at + char_width(v[k]) as u128;
        if next > b as u128 {
            proof {
                reveal_with_fuel(index_of_byte, 2);
            }
            assert(index_of_byte(v@, b as int, k + 1, next as int) is None);
            return None;
        }
        at = next;
        k = k + 1;
    }
}

proof fn lemma_find_key_bounds(fs: Seq<(Seq<char>, ValueModel)>, k: Seq<char>, i: int)
    requires
        0 <= i,
    ensures
        find_key(fs, k, i) matches Some(j) ==> i <= j < fs.len() && fs[j].0 == k,
    decreases fs.len() - i,
{
    if 0 <= i < fs.len() && fs[i].0 != k {
        lemma_find_key_bounds(fs, k, i + 1);
    }
}

fn find_key_exec(fs: &Vec<(String, Value)>, key: &String) -> (r: Option<usize>)
    ensures
        r matches Some(i) ==> find_key(record_model(fs@), key@, 0) == Some(i as int) && i
            < fs@.len(),
        r is None ==> find_key(record_model(fs@), key@, 0) is None,
{
    proof {
        lemma_record_model(fs@);
        lemma_find_key_bounds(record_model(fs@), key@, 0);
    }
    let ghost m = record_model(fs@);
    let mut i: usize = 0;
    while i < fs.len()
        invariant
            i <= fs@.len(),
            m == Seq::new(fs@.len(), |k: int| (fs@[k].0@, model(fs@[k].1))),
            m == record_model(fs@),
            m.len() == fs@.len(),
            find_key(m, key@, i as int) == find_key(m, key@, 0),
        decreases fs@.len() - i,
    {
        assert(m[i as int].0 == fs@[i as int].0@);
        if fs[i].0 == *key {
            return Some(i);
        }
        i = i + 1;
    }
    None
}

fn put_exec(fs: &mut Vec<(String, Value)>, key: String, v: Value)
    ensures
        record_model(final(fs)@) == put(record_model(old(fs)@), key@, model(v)),
{
    proof {
        lemma_record_model(old(fs)@);
    }
    let ghost m = record_model(fs@);
    match find_key_exec(fs, &key) {
        Some(i) => {
            assert(find_key(m, key@, 0) == Some(i as int));
            fs.set(i, (key, v));
            proof {
                lemma_record_model(fs@);
                assert(record_model(fs@) =~= m.update(i as int, (key@, model(v))));
            }
        },
        None => {
            fs.push((key, v));
            proof {
                lemma_record_model(fs@);
                assert(record_model(fs@) =~= m.push((key@, model(v))));
            }
        },
    }
}

fn add_child_exec(fs: &mut Vec<(String, Value)>, rule: String, v: Value)
    ensures
        record_model(final(fs)@) == add_child(record_model(old(fs)@), rule@, model(v)),
{
    proof {
        lemma_record_model(old(fs)@);
    }
    let ghost m = record_model(fs@);
    match find_key_exec(fs, &rule) {
        Some(i) => {
            let (_, old_value) = fs.remove(i);
            let ghost old_model = model(old_value);
            assert(old_model == m[i as int].1);
            let new_value = match old_value {
                Value::List(mut xs) => {
                    proof {
                        lemma_values_model(xs@);
                    }
                    let ghost before = values_model(xs@);
                    let ghost vm = model(v);
                    xs.push(v);
                    proof {
                        lemma_values_model(xs@);
                        assert(values_model(xs@) =~= before.push(vm));
                    }
                    Value::List(xs)
                },
                other => {
                    let ghost om = model(other);
                    let ghost vm = model(v);
                    let mut xs: Vec<Value> = Vec::new();
                    xs.push(other);
                    xs.push(v);
                    proof {
                        lemma_values_model(xs@);
                        assert(values_model(xs@) =~= seq![om, vm]);
                    }
                    Value::List(xs)
                },
            };
            let ghost nm = model(new_value);
            fs.insert(i, (rule, new_value));
            proof {
                lemma_record_model(fs@);
                assert(record_model(fs@) =~= m.update(i as int, (rule@, nm)));
            }
        },
        None => {
            fs.push((rule, v));
            proof {
                lemma_record_model(fs@);
                assert(record_model(fs@) =~= m.push((rule@, model(v))));
            }
        },
    }
}

proof fn lemma_run_none(s: Seq<char>, ts: Seq<TokenModel>, n: int, m: int)
    requires
        n <= m,
        run(s, ts, n) is None,
    ensures
        run(s, ts, m) is None,
    decreases m - n,
{
    if n < m {
        lemma_run_none(s, ts, n, m - 1);
    }
}

/// The tokens of `ts` read in order over the page `v`; none where the stream
/// cannot be read.
fn fold_tokens(v: &Vec<char>, ts: &Vec<Token>) -> (r: Option<Vec<Value>>)
    ensures
        match spec_values(v@, tokens_model(ts@)) {
            Some(vs) => r matches Some(x) && values_model(x@) == vs,
            None => r is None,
        },
{
    let ghost tm = tokens_model(ts@);
    let mut open: Vec<OpenRule> = Vec::new();
    let mut done: Vec<Value> = Vec::new();
    let mut n: usize = 0;
    proof {
        lemma_values_model(done@);
        assert(frames_model(open@) =~= seq![]);
        assert(values_model(done@) =~= seq![]);
    }
    while n < ts.len()
        invariant
            n <= ts@.len(),
            tm == tokens_model(ts@),
            run(v@, tm, n as int) == Some(
                TreeState { open: frames_model(open@), done: values_model(done@) },
            ),
        decreases ts@.len() - n,
    {
        let ghost st = TreeState { open: frames_model(open@), done: values_model(done@) };
        assert(tm[n as int] == token_model(ts@[n as int]));
        match &ts[n] {
            Token::Start { rule, pos } => {
                let fresh: Vec<(String, Value)> = Vec::new();
                proof {
                    lemma_record_model(fresh@);
                }
                assert(record_model(fresh@) =~= seq![]);
                open.push((rule.clone(), *pos, fresh));
                assert(frames_model(open@) =~= st.open.push(
                    Frame { rule: rule@, start: *pos as int, fields: seq![] },
                ));
            },
            Token::End { rule, pos } => {
                if open.len() == 0 {
                    {
                    proof {
                        lemma_run_none(v@, tm, n + 1, tm.len() as int);
                    }
                    return None;
                }
                }
                let ghost top = st.open.last();
                let (top_rule, start, fields) = match open.pop() {
                    Some(t) => t,
                    None => return None,
                };
                assert(st.open.drop_last() =~= frames_model(open@));
                assert(top.rule == top_rule@);
                assert(top.start == start as int);
                assert(top.fields == record_model(fields@));
                if !(top_rule == *rule) {
                    {
                    proof {
                        lemma_run_none(v@, tm, n + 1, tm.len() as int);
                    }
                    return None;
                }
                }
                let a = match byte_index(v, start) {
                    Some(a) => a,
                    None => {
                        proof {
                            lemma_run_none(v@, tm, n + 1, tm.len() as int);
                        }
                        return None;
                    },
                };
                let b = match byte_index(v, *pos) {
                    Some(b) => b,
                    None => {
                        proof {
                            lemma_run_none(v@, tm, n + 1, tm.len() as int);
                        }
                        return None;
                    },
                };
                if a > b {
                    {
                    proof {
                        lemma_run_none(v@, tm, n + 1, tm.len() as int);
                    }
                    return None;
                }
                }
                let text = collect_string(v, a, b);
                proof {
                    lemma_record_model(fields@);
                }
                let value = if fields.len() == 0 {
                    Value::Text(text)
                } else {
                    let mut fs = fields;
                    put_exec(&mut fs, String::from_str("_"), Value::Text(text));
                    Value::Record(fs)
                };
                assert(model(value) == close(v@.subrange(a as int, b as int), top.fields));
                if open.len() == 0 {
                    let ghost before = values_model(done@);
                    proof {
                        lemma_values_model(done@);
                    }
                    let ghost vm = model(value);
                    done.push(value);
                    proof {
                        lemma_values_model(done@);
                        assert(values_model(done@) =~= before.push(vm));
                    }
                } else {
                    let ghost rest = frames_model(open@);
                    let (p_rule, p_start, mut p_fields) = match open.pop() {
                        Some(t) => t,
                        None => return None,
                    };
                    assert(rest.drop_last() =~= frames_model(open@));
                    add_child_exec(&mut p_fields, rule.clone(), value);
                    open.push((p_rule, p_start, p_fields));
                    assert(frames_model(open@) =~= rest.update(
                        rest.len() - 1,
                        Frame {
                            rule: rest.last().rule,
                            start: rest.last().start,
                            fields: add_child(rest.last().fields, rule@, model(value)),
                        },
                    ));
                }
            },
        }
        n = n + 1;
    }
    assert(tm.len() == ts@.len());
    Some(done)
}

/// Whether the token stream `ts` can be read over the page `s`: every `End`
/// closes the innermost open rule, and every position falls on a character
/// boundary of `s`.
pub fn tokens_are_nested(s: &str, ts: &Vec<Token>) -> (r: bool)
    ensures
        r == spec_values(s@, tokens_model(ts@)) is Some,
{
    let v = to_chars(s);
    fold_tokens(&v, ts).is_some()
}

/// The top-level values of the token stream `ts` of a grammar engine over the
/// page `s` (see `spec_values`).
pub fn token_values(s: &str, ts: &Vec<Token>) -> (r: Vec<Value>)
    requires
        spec_values(s@, tokens_model(ts@)) is Some,
    ensures
        spec_values(s@, tokens_model(ts@)) == Some(values_model(r@)),
{
    let v = to_chars(s);
    match fold_tokens(&v, ts) {
        Some(r) => r,
        None => Vec::new(),
    }
}

// ---------------------------------------------------------------------------
// Laws

/// `fs` with each of `vs` added under `rule`, in order, as the values of the
/// matches of `rule` inside one parent are added.
pub open spec fn add_each(
    fs: Seq<(Seq<char>, ValueModel)>,
    rule: Seq<char>,
    vs: Seq<ValueModel>,
) -> Seq<(Seq<char>, ValueModel)>
    decreases vs.len(),
{
    if vs.len() == 0 {
        fs
    } else {
        add_child(add_each(fs, rule, vs.drop_last()), rule, vs.last())
    }
}

proof fn lemma_find_key_after(
    fs: Seq<(Seq<char>, ValueModel)>,
    r: Seq<(Seq<char>, ValueModel)>,
    k: Seq<char>,
    j: int,
)
    requires
        0 <= j <= fs.len(),
        find_key(fs, k, j) is None,
        r.len() == fs.len() + 1,
        r.subrange(0, fs.len() as int) == fs,
        r[fs.len() as int].0 == k,
    ensures
        find_key(r, k, j) == Some(fs.len() as int),
    decreases fs.len() - j,
{
    if j < fs.len() {
        assert(r[j] == r.subrange(0, fs.len() as int)[j]);
        lemma_find_key_after(fs, r, k, j + 1);
    }
}

/// A rule matched several times inside one parent gives one field holding
/// the flat list of its values, in order, after the fields that were there;
/// matched once, the field holds its value. (The value of a matched rule is a
/// text or a record, never a list.)
pub proof fn law_repeated_rule_gives_flat_list(
    fs: Seq<(Seq<char>, ValueModel)>,
    rule: Seq<char>,
    vs: Seq<ValueModel>,
)
    requires
        find_key(fs, rule, 0) is None,
        forall|k: int| 0 <= k < vs.len() ==> !(#[trigger] vs[k] is List),
    ensures
        vs.len() >= 1 ==> ({
            let r = add_each(fs, rule, vs);
            &&& r.len() == fs.len() + 1
            &&& r.subrange(0, fs.len() as int) == fs
            &&& r[fs.len() as int].0 == rule
            &&& r[fs.len() as int].1 == if vs.len() == 1 {
                vs[0]
            } else {
                ValueModel::List(vs)
            }
        }),
    decreases vs.len(),
{
    if vs.len() == 1 {
        let r = fs.push((rule, vs[0]));
        assert(vs.drop_last() =~= seq![]);
        assert(r.subrange(0, fs.len() as int) =~= fs);
    } else if vs.len() >= 2 {
        let ws = vs.drop_last();
        law_repeated_rule_gives_flat_list(fs, rule, ws);
        let q = add_each(fs, rule, ws);
        lemma_find_key_after(fs, q, rule, 0);
        let r = add_each(fs, rule, vs);
        assert(r.subrange(0, fs.len() as int) =~= q.subrange(0, fs.len() as int));
        if ws.len() == 1 {
            assert(!(ws[0] is List));
            assert(seq![ws[0], vs.last()] =~= vs);
        } else {
            assert(ws.push(vs.last()) =~= vs);
        }
    }
}

} // verus!
