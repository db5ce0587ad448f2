//! Preparing a beast for an Obsidian note: action names carry their symbol,
//! and the line breaks that the page layout put into running text are joined.
use vstd::prelude::*;

use crate::chars::{
    append_range, collect_string, find_from, find_from_exec, lemma_find_from_bounds,
    lemma_skip_ws_bounds, lemma_skip_ws_sub, push_char, skip_ws_exec, to_chars, trim_start,
};
use crate::structure::{spec_symbol, Action, ActionModel, Beast, BeastModel, Feature, FeatureModel};

verus! {

/// A line of `str::lines` ends at `\n`; a `\r` right before that `\n` is
/// dropped too.
pub open spec fn strip_cr(x: Seq<char>) -> Seq<char> {
    if x.len() > 0 && x.last() == '\r' {
        x.drop_last()
    } else {
        x
    }
}

/// `str::lines` of `t[i..]`.
pub open spec fn lines_from(t: Seq<char>, i: int) -> Seq<Seq<char>>
    decreases t.len() - i when 0 <= i <= t.len()
{
    if i >= t.len() {
        seq![]
    } else {
        let e = find_from(t, '\n', i);
        proof {
            lemma_find_from_bounds(t, '\n', i);
        }
        if e >= t.len() {
            seq![t.subrange(i, t.len() as int)]
        } else {
            seq![strip_cr(t.subrange(i, e))] + lines_from(t, e + 1)
        }
    }
}

/// `str::lines`.
pub open spec fn lines(t: Seq<char>) -> Seq<Seq<char>> {
    lines_from(t, 0)
}

/// A line keeps the line break before it when it is empty or, once leading
/// whitespace is dropped, starts with the bullet `◆`.
pub open spec fn keeps_break(l: Seq<char>) -> bool {
    l.len() == 0 || (trim_start(l).len() > 0 && trim_start(l)[0] == '\u{25c6}')
}

/// The lines after the first, each preceded by `\n` where it keeps its break.
pub open spec fn join_tail(ls: Seq<Seq<char>>) -> Seq<char>
    decreases ls.len(),
{
    if ls.len() == 0 {
        seq![]
    } else {
        (if keeps_break(ls[0]) {
            seq!['\n']
        } else {
            seq![]
        }) + ls[0] + join_tail(ls.drop_first())
    }
}

/// The lines of `t` joined: a line break stays only before an empty line or
/// a bullet line.
pub open spec fn join_lines(t: Seq<char>) -> Seq<char> {
    let ls = lines(t);
    if ls.len() == 0 {
        seq![]
    } else {
        ls[0] + join_tail(ls.drop_first())
    }
}

pub open spec fn obsidian_action(a: ActionModel) -> ActionModel {
    ActionModel { kind: a.kind, name: spec_symbol(a.kind) + seq![' '] + a.name, desc: join_lines(a.desc) }
}

pub open spec fn obsidian_feature(f: FeatureModel) -> FeatureModel {
    FeatureModel { name: f.name, desc: join_lines(f.desc) }
}

pub open spec fn join_each(ls: Seq<Seq<char>>) -> Seq<Seq<char>> {
    Seq::new(ls.len(), |i: int| join_lines(ls[i]))
}

pub open spec fn join_opt(t: Option<Seq<char>>) -> Option<Seq<char>> {
    match t {
        Some(t) => Some(join_lines(t)),
        None => None,
    }
}

/// A beast as an Obsidian note shows it: each action's name starts with the
/// action's symbol and a space, and the descriptions of actions and features,
/// the languages, the opportunity and the complication have their lines
/// joined; all else is kept.
pub open spec fn spec_update_for_obsidian(b: BeastModel) -> BeastModel {
    BeastModel {
        actions: Seq::new(b.actions.len(), |i: int| obsidian_action(b.actions[i])),
        features: Seq::new(b.features.len(), |i: int| obsidian_feature(b.features[i])),
        languages: match b.languages {
            Some(ls) => Some(join_each(ls)),
            None => None,
        },
        opportunity: join_opt(b.opportunity),
        complication: join_opt(b.complication),
        ..b
    }
}

/// The note text around the YAML of a beast.
pub open spec fn spec_frontmatter(yaml: Seq<char>) -> Seq<char> {
    "---\nstatblock: true\n"@ + yaml + "\n---\n"@
}

/// The line of `v` that starts at `pos`: its bounds and where the next line
/// starts.
fn next_line(v: &Vec<char>, pos: usize) -> (r: (usize, usize))
    requires
        pos < v@.len(),
    ensures
        pos <= r.0 <= v@.len(),
        pos < r.1 <= v@.len(),
        lines_from(v@, pos as int) == seq![v@.subrange(pos as int, r.0 as int)] + lines_from(
            v@,
            r.1 as int,
        ),
{
    proof {
        lemma_find_from_bounds(v@, '\n', pos as int);
    }
    let e = find_from_exec(v, '\n', pos);
    if e == v.len() {
        proof {
            assert(lines_from(v@, v@.len() as int) =~= seq![]);
            assert(seq![v@.subrange(pos as int, e as int)] + seq![] =~= seq![
                v@.subrange(pos as int, e as int),
            ]);
        }
        (e, e)
    } else {
        let end = if e > pos && v[e - 1] == '\r' {
            e - 1
        } else {
            e
        };
        assert(strip_cr(v@.subrange(pos as int, e as int)) =~= v@.subrange(
            pos as int,
            end as int,
        ));
        (end, e + 1)
    }
}

/// Whether the line `v[a..b]` keeps the line break before it.
fn keeps_break_exec(v: &Vec<char>, a: usize, b: usize) -> (r: bool)
    requires
        a <= b <= v@.len(),
    ensures
        r == keeps_break(v@.subrange(a as int, b as int)),
{
    let ghost l = v@.subrange(a as int, b as int);
    if a == b {
        return true;
    }
    let k = skip_ws_exec(v, a, b);
    proof {
        lemma_skip_ws_sub(v@, a as int, b as int, 0, b - a);
        lemma_skip_ws_bounds(v@, a as int, b as int);
        assert(trim_start(l) =~= v@.subrange(k as int, b as int));
    }
    k < b && v[k] == '\u{25c6}'
}

/// Joins the lines of `text` (see `join_lines`).
pub fn join_text(text: &String) -> (r: String)
    ensures
        r@ == join_lines(text@),
{
    let v = to_chars(text.as_str());
    let n = v.len();
    if n == 0 {
        return String::new();
    }
    let (end0, next0) = next_line(&v, 0);
    let mut r = collect_string(&v, 0, end0);
    let mut pos = next0;
    assert(lines(v@).drop_first() =~= lines_from(v@, next0 as int));
    while pos < n
        invariant
            n == v@.len(),
            0 < pos <= n,
            v@ == text@,
            join_lines(text@) == r@ + join_tail(lines_from(v@, pos as int)),
        decreases n - pos,
    {
        let (end, next) = next_line(&v, pos);
        let ghost line = v@.subrange(pos as int, end as int);
        let ghost rest = lines_from(v@, next as int);
        assert((seq![line] + rest).drop_first() =~= rest);
        let ghost before = r@;
        if keeps_break_exec(&v, pos, end) {
            push_char(&mut r, '\n');
        }
        append_range(&mut r, &v, pos, end);
        assert(before + join_tail(seq![line] + rest) =~= r@ + join_tail(rest));
        pos = next;
    }
    assert(lines_from(v@, pos as int) =~= seq![]);
    r
}

fn join_opt_exec(t: Option<String>) -> (r: Option<String>)
    ensures
        r.deep_view() == join_opt(t.deep_view()),
{
    match t {
        Some(t) => Some(join_text(&t)),
        None => None,
    }
}

impl Beast {
    /// Prepares the beast for an Obsidian note (see
    /// `spec_update_for_obsidian`).
    pub fn update_for_obsidian(self) -> (r: Beast)
        ensures
            r.deep_view() == spec_update_for_obsidian(self.deep_view()),
    {
        let ghost old_self = self.deep_view();
        let Beast {
            name,
            tier,
            role,
            size,
            kind,
            attributes,
            defenses,
            health,
            focus,
            investiture,
            deflect,
            movement,
            senses,
            immunities,
            physical_skills,
            cognitive_skills,
            spiritual_skills,
            surge_skills,
            languages,
            features,
            actions,
            opportunity,
            complication,
        } = self;
        let mut new_actions: Vec<Action> = Vec::new();
        let mut i: usize = 0;
        while i < actions.len()
            invariant
                i <= actions@.len(),
                new_actions@.len() == i,
                forall|k: int|
                    0 <= k < i ==> #[trigger] new_actions@[k].deep_view() == obsidian_action(
                        actions@[k].deep_view(),
                    ),
            decreases actions@.len() - i,
        {
            let a = &actions[i];
            let mut n = String::from_str(a.kind.symbol());
            n.append(" ");
            n.append(a.name.as_str());
            proof {
                reveal_strlit(" ");
                assert(" "@ =~= seq![' ']);
            }
            let d = join_text(&a.desc);
            new_actions.push(Action { kind: a.kind, name: n, desc: d });
            i = i + 1;
        }
        let mut new_features: Vec<Feature> = Vec::new();
        let mut i: usize = 0;
        while i < features.len()
            invariant
                i <= features@.len(),
                new_features@.len() == i,
                forall|k: int|
                    0 <= k < i ==> #[trigger] new_features@[k].deep_view() == obsidian_feature(
                        features@[k].deep_view(),
                    ),
            decreases features@.len() - i,
        {
            let f = &features[i];
            new_features.push(Feature { name: f.name.clone(), desc: join_text(&f.desc) });
            i = i + 1;
        }
        let new_languages = match languages {
            None => None,
            Some(ls) => {
                let mut out: Vec<String> = Vec::new();
                let mut i: usize = 0;
                while i < ls.len()
                    invariant
                        i <= ls@.len(),
                        out@.len() == i,
                        forall|k: int|
                            0 <= k < i ==> #[trigger] out@[k]@ == join_lines(ls@[k]@),
                    decreases ls@.len() - i,
                {
                    out.push(join_text(&ls[i]));
                    i = i + 1;
                }
                assert(out.deep_view() =~= join_each(ls.deep_view()));
                Some(out)
            },
        };
        let r = Beast {
            name,
            tier,
            role,
            size,
            kind,
            attributes,
            defenses,
            health,
            focus,
            investiture,
            deflect,
            movement,
            senses,
            immunities,
            physical_skills,
            cognitive_skills,
            spiritual_skills,
            surge_skills,
            languages: new_languages,
            features: new_features,
            actions: new_actions,
            opportunity: join_opt_exec(opportunity),
            complication: join_opt_exec(complication),
        };
        assert(r.deep_view().actions =~= spec_update_for_obsidian(old_self).actions);
        assert(r.deep_view().features =~= spec_update_for_obsidian(old_self).features);
        r
    }
}

/// The text of an Obsidian note whose front matter holds the YAML text of a
/// beast as a stat block.
pub fn frontmatter(yaml: &str) -> (r: String)
    ensures
        r@ == spec_frontmatter(yaml@),
{
    let mut r = String::from_str("---\nstatblock: true\n");
    r.append(yaml);
    r.append("\n---\n");
    r
}

// ---------------------------------------------------------------------------
// Laws

/// `x` without its line feeds.
pub open spec fn without_line_feeds(x: Seq<char>) -> Seq<char>
    decreases x.len(),
{
    if x.len() == 0 {
        seq![]
    } else {
        (if x[0] == '\n' {
            seq![]
        } else {
            seq![x[0]]
        }) + without_line_feeds(x.drop_first())
    }
}

/// The lines, one after the other.
pub open spec fn concat_lines(ls: Seq<Seq<char>>) -> Seq<char>
    decreases ls.len(),
{
    if ls.len() == 0 {
        seq![]
    } else {
        ls[0] + concat_lines(ls.drop_first())
    }
}

proof fn lemma_without_line_feeds_add(a: Seq<char>, b: Seq<char>)
    ensures
        without_line_feeds(a + b) == without_line_feeds(a) + without_line_feeds(b),
    decreases a.len(),
{
    if a.len() > 0 {
        assert((a + b).drop_first() =~= a.drop_first() + b);
        lemma_without_line_feeds_add(a.drop_first(), b);
        assert(without_line_feeds(a + b) =~= without_line_feeds(a) + without_line_feeds(b));
    } else {
        assert(a + b =~= b);
    }
}

proof fn lemma_without_line_feeds_none(x: Seq<char>)
    requires
        !x.contains('\n'),
    ensures
        without_line_feeds(x) == x,
    decreases x.len(),
{
    if x.len() > 0 {
        assert(x[0] != '\n');
        assert(!x.drop_first().contains('\n')) by {
            if x.drop_first().contains('\n') {
                let k = choose|k: int| 0 <= k < x.drop_first().len() && x.drop_first()[k] == '\n';
                assert(x[k + 1] == '\n');
            }
        }
        lemma_without_line_feeds_none(x.drop_first());
        assert(seq![x[0]] + x.drop_first() =~= x);
    }
}

proof fn lemma_no_feed_before_find(t: Seq<char>, i: int, k: int)
    requires
        0 <= i <= k < find_from(t, '\n', i),
        find_from(t, '\n', i) <= t.len(),
    ensures
        t[k] != '\n',
    decreases k - i,
{
    if i < k {
        assert(t[i] != '\n');
        lemma_no_feed_before_find(t, i + 1, k);
    }
}

proof fn lemma_lines_have_no_feeds(t: Seq<char>, i: int)
    requires
        0 <= i <= t.len(),
    ensures
        forall|k: int| 0 <= k < lines_from(t, i).len() ==> !(#[trigger] lines_from(t, i)[k]).contains('\n'),
    decreases t.len() - i,
{
    if i < t.len() {
        lemma_find_from_bounds(t, '\n', i);
        let e = find_from(t, '\n', i);
        let piece = t.subrange(i, e);
        assert(!piece.contains('\n')) by {
            if piece.contains('\n') {
                let k = choose|k: int| 0 <= k < piece.len() && piece[k] == '\n';
                lemma_no_feed_before_find(t, i, i + k);
            }
        }
        if e < t.len() {
            lemma_lines_have_no_feeds(t, e + 1);
            let l = strip_cr(piece);
            assert(!l.contains('\n')) by {
                if l.contains('\n') {
                    let k = choose|k: int| 0 <= k < l.len() && l[k] == '\n';
                    assert(piece[k] == '\n');
                }
            }
            let all = seq![l] + lines_from(t, e + 1);
            assert forall|k: int| 0 <= k < all.len() implies !(#[trigger] all[k]).contains('\n') by {
                if k > 0 {
                    assert(all[k] == lines_from(t, e + 1)[k - 1]);
                }
            }
        }
    }
}

proof fn lemma_join_tail_text(ls: Seq<Seq<char>>)
    requires
        forall|k: int| 0 <= k < ls.len() ==> !(#[trigger] ls[k]).contains('\n'),
    ensures
        without_line_feeds(join_tail(ls)) == concat_lines(ls),
    decreases ls.len(),
{
    if ls.len() > 0 {
        let sep = if keeps_break(ls[0]) {
            seq!['\n']
        } else {
            seq![]
        };
        assert forall|k: int| 0 <= k < ls.drop_first().len() implies !(
        #[trigger] ls.drop_first()[k]).contains('\n') by {
            assert(ls.drop_first()[k] == ls[k + 1]);
        }
        lemma_join_tail_text(ls.drop_first());
        lemma_without_line_feeds_add(sep + ls[0], join_tail(ls.drop_first()));
        lemma_without_line_feeds_add(sep, ls[0]);
        lemma_without_line_feeds_none(ls[0]);
        reveal_with_fuel(without_line_feeds, 2);
        assert(without_line_feeds(sep) =~= seq![]);
        assert(seq![] + ls[0] =~= ls[0]);
    }
}

/// Joining lines only drops line breaks: the text of every line stays, in
/// order.
pub proof fn law_join_keeps_text(t: Seq<char>)
    ensures
        without_line_feeds(join_lines(t)) == concat_lines(lines(t)),
{
    lemma_lines_have_no_feeds(t, 0);
    let ls = lines(t);
    if ls.len() > 0 {
        assert forall|k: int| 0 <= k < ls.drop_first().len() implies !(
        #[trigger] ls.drop_first()[k]).contains('\n') by {
            assert(ls.drop_first()[k] == ls[k + 1]);
        }
        assert(!ls[0].contains('\n'));
        lemma_join_tail_text(ls.drop_first());
        lemma_without_line_feeds_add(ls[0], join_tail(ls.drop_first()));
        lemma_without_line_feeds_none(ls[0]);
    }
}

/// Text on a single line is kept as it is.
pub proof fn law_single_line_unchanged(t: Seq<char>)
    requires
        !t.contains('\n'),
    ensures
        join_lines(t) == t,
{
    if t.len() > 0 {
        lemma_find_from_bounds(t, '\n', 0);
        assert(find_from(t, '\n', 0) == t.len());
        assert(t.subrange(0, t.len() as int) =~= t);
        assert(lines(t) =~= seq![t]);
        assert(lines(t).drop_first() =~= seq![]);
        assert(t + seq![] =~= t);
    }
}

/// The Obsidian form of a beast joins the lines of every text that runs
/// over lines (each action's and feature's description, each language, the
/// opportunity and the complication), puts each action's symbol and a space
/// before its name, and keeps everything else.
pub proof fn law_obsidian_joins_every_text(b: BeastModel)
    ensures
        ({
            let o = spec_update_for_obsidian(b);
            &&& o.opportunity == match b.opportunity {
                Some(t) => Some(join_lines(t)),
                None => None::<Seq<char>>,
            }
            &&& o.complication == match b.complication {
                Some(t) => Some(join_lines(t)),
                None => None::<Seq<char>>,
            }
            &&& o.languages == match b.languages {
                Some(ls) => Some(Seq::new(ls.len(), |k: int| join_lines(ls[k]))),
                None => None::<Seq<Seq<char>>>,
            }
            &&& o.features.len() == b.features.len()
            &&& forall|k: int| 0 <= k < b.features.len() ==> (#[trigger] o.features[k]).desc == join_lines(
                b.features[k].desc,
            ) && o.features[k].name == b.features[k].name
            &&& o.actions.len() == b.actions.len()
            &&& forall|k: int| 0 <= k < b.actions.len() ==> {
                &&& (#[trigger] o.actions[k]).desc == join_lines(b.actions[k].desc)
                &&& o.actions[k].name == spec_symbol(b.actions[k].kind) + seq![' '] + b.actions[k].name
                &&& o.actions[k].kind == b.actions[k].kind
            }
            &&& o.name == b.name && o.tier == b.tier && o.role == b.role && o.size == b.size
            &&& o.kind == b.kind && o.attributes == b.attributes && o.defenses == b.defenses
            &&& o.health == b.health && o.focus == b.focus && o.investiture == b.investiture
            &&& o.deflect == b.deflect && o.movement == b.movement && o.senses == b.senses
            &&& o.immunities == b.immunities && o.physical_skills == b.physical_skills
            &&& o.cognitive_skills == b.cognitive_skills && o.spiritual_skills == b.spiritual_skills
            &&& o.surge_skills == b.surge_skills
        }),
{
}

} // verus!
