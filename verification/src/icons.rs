//! The table of icons that the page text shows for drawn shapes.
use std::collections::{BTreeMap, BTreeSet};

use vstd::prelude::*;

verus! {

#[verifier::external_type_specification]
#[verifier::external_body]
pub struct ExYamlError(serde_yaml_ng::Error);

/// The icon table that the YAML text `yaml` holds, read as a map from icon
/// names to sets of shapes: the icons in ascending order of their names,
/// each with its shapes in ascending order; `None` where the text is no
/// such table.
pub uninterp spec fn yaml_icon_table(yaml: Seq<char>) -> Option<Seq<(Seq<char>, Seq<Seq<char>>)>>;

/// Reads the icon table with `serde_yaml_ng::from_str` into a
/// `BTreeMap<String, BTreeSet<String>>` and lists its entries in order.
/// Claimed: the result is the table named by `yaml_icon_table`, or an error
/// exactly where that is `None`.
#[verifier::external_body]
fn read_icon_table(yaml: &str) -> (r: Result<Vec<(String, Vec<String>)>, serde_yaml_ng::Error>)
    ensures
        match yaml_icon_table(yaml@) {
            Some(t) => r matches Ok(v) && groups_model(v@) == t,
            None => r is Err,
        },
{
    let table: BTreeMap<String, BTreeSet<String>> = serde_yaml_ng::from_str(yaml)?;
    Ok(table.into_iter().map(|(icon, shapes)| (icon, shapes.into_iter().collect())).collect())
}

/// The message of a YAML reading error (its `Display` text). Nothing is
/// claimed of it.
#[verifier::external_body]
fn yaml_error_message(e: &serde_yaml_ng::Error) -> String {
    e.to_string()
}

/// The icon table could not be read; holds the YAML reader's message.
pub struct IconTableError(pub String);

/// The pairs (shape, icon) of a table that lists, for each icon, the shapes
/// drawn for it: one pair per listed shape, icons in order, each icon's
/// shapes in order.
pub open spec fn spec_icon_pairs(groups: Seq<(Seq<char>, Seq<Seq<char>>)>) -> Seq<(Seq<char>, Seq<char>)>
    decreases groups.len(),
{
    if groups.len() == 0 {
        seq![]
    } else {
        let (icon, shapes) = groups[0];
        Seq::new(shapes.len(), |k: int| (shapes[k], icon)) + spec_icon_pairs(groups.drop_first())
    }
}

pub open spec fn groups_model(groups: Seq<(String, Vec<String>)>) -> Seq<(Seq<char>, Seq<Seq<char>>)> {
    Seq::new(groups.len(), |i: int| (groups[i].0@, groups[i].1.deep_view()))
}

pub open spec fn pairs_model(pairs: Seq<(String, String)>) -> Seq<(Seq<char>, Seq<char>)> {
    Seq::new(pairs.len(), |i: int| (pairs[i].0@, pairs[i].1@))
}

proof fn lemma_icon_pairs_split(groups: Seq<(Seq<char>, Seq<Seq<char>>)>, i: int)
    requires
        0 <= i < groups.len(),
    ensures
        spec_icon_pairs(groups.subrange(i, groups.len() as int)) == Seq::new(
            groups[i].1.len(),
            |k: int| (groups[i].1[k], groups[i].0),
        ) + spec_icon_pairs(groups.subrange(i + 1, groups.len() as int)),
{
    assert(groups.subrange(i, groups.len() as int).drop_first() =~= groups.subrange(
        i + 1,
        groups.len() as int,
    ));
}

/// Turns the icon table (icon, shapes) into lookup pairs (shape, icon).
pub fn icon_pairs(groups: &Vec<(String, Vec<String>)>) -> (r: Vec<(String, String)>)
    ensures
        pairs_model(r@) == spec_icon_pairs(groups_model(groups@)),
{
    let ghost g = groups_model(groups@);
    let mut out: Vec<(String, String)> = Vec::new();
    let mut i: usize = 0;
    assert(g.subrange(0, g.len() as int) =~= g);
    assert(pairs_model(out@) =~= seq![]);
    while i < groups.len()
        invariant
            i <= groups@.len(),
            g == groups_model(groups@),
            spec_icon_pairs(g) == pairs_model(out@) + spec_icon_pairs(
                g.subrange(i as int, g.len() as int),
            ),
        decreases groups@.len() - i,
    {
        proof {
            lemma_icon_pairs_split(g, i as int);
        }
        let icon = &groups[i].0;
        let shapes = &groups[i].1;
        let ghost before = pairs_model(out@);
        let mut k: usize = 0;
        while k < shapes.len()
            invariant
                k <= shapes@.len(),
                g == groups_model(groups@),
                i < groups@.len(),
                icon == &groups@[i as int].0,
                shapes == &groups@[i as int].1,
                pairs_model(out@) == before + Seq::new(
                    k as nat,
                    |x: int| (shapes@[x]@, icon@),
                ),
            decreases shapes@.len() - k,
        {
            let shape_copy: String = shapes[k].clone();
            let icon_copy: String = icon.clone();
            assert(shape_copy@ == shapes@[k as int]@);
            assert(icon_copy@ == icon@);
            let ghost old_out = out@;
            out.push((shape_copy, icon_copy));
            assert(out@ == old_out.push((shape_copy, icon_copy)));
            assert(pairs_model(out@) =~= pairs_model(old_out).push((shapes@[k as int]@, icon@)));
            assert(pairs_model(out@) =~= before + Seq::new(
                (k + 1) as nat,
                |x: int| (shapes@[x]@, icon@),
            ));
            k = k + 1;
        }
        assert(Seq::new(shapes@.len(), |x: int| (shapes@[x]@, icon@)) =~= Seq::new(
            g[i as int].1.len(),
            |x: int| (g[i as int].1[x], g[i as int].0),
        ));
        assert(pairs_model(out@) + spec_icon_pairs(g.subrange(i + 1, g.len() as int)) =~= before
            + spec_icon_pairs(g.subrange(i as int, g.len() as int)));
        i = i + 1;
    }
    assert(g.subrange(i as int, g.len() as int) =~= seq![]);
    assert(pairs_model(out@) + seq![] =~= pairs_model(out@));
    out
}

/// Reads the icon table, a YAML map from each icon to the shapes drawn for
/// it, into lookup pairs (shape, icon), in the order of `icon_pairs`.
pub fn load_icon_map(yaml: &str) -> (r: Result<Vec<(String, String)>, IconTableError>)
    ensures
        match yaml_icon_table(yaml@) {
            Some(t) => r matches Ok(v) && pairs_model(v@) == spec_icon_pairs(t),
            None => r is Err,
        },
{
    match read_icon_table(yaml) {
        Ok(groups) => Ok(icon_pairs(&groups)),
        Err(e) => Err(IconTableError(yaml_error_message(&e))),
    }
}

/// The lookup pairs hold exactly the listed shapes: a shape maps to an icon
/// if and only if the table lists the shape for that icon.
pub proof fn law_icon_pairs_are_the_listed_shapes(
    groups: Seq<(Seq<char>, Seq<Seq<char>>)>,
    shape: Seq<char>,
    icon: Seq<char>,
)
    ensures
        spec_icon_pairs(groups).contains((shape, icon)) <==> exists|i: int|
            0 <= i < groups.len() && (#[trigger] groups[i]).0 == icon && groups[i].1.contains(shape),
    decreases groups.len(),
{
    if groups.len() > 0 {
        let rest = groups.drop_first();
        law_icon_pairs_are_the_listed_shapes(rest, shape, icon);
        let (g_icon, shapes) = groups[0];
        let first = Seq::new(shapes.len(), |k: int| (shapes[k], g_icon));
        let all = spec_icon_pairs(groups);
        assert(all == first + spec_icon_pairs(rest));
        if all.contains((shape, icon)) {
            let j = choose|j: int| 0 <= j < all.len() && all[j] == (shape, icon);
            if j < first.len() {
                assert(shapes[j] == shape);
                assert(groups[0].1.contains(shape));
            } else {
                assert(spec_icon_pairs(rest)[j - first.len()] == (shape, icon));
                let i = choose|i: int|
                    0 <= i < rest.len() && (#[trigger] rest[i]).0 == icon && rest[i].1.contains(shape);
                assert(groups[i + 1] == rest[i]);
            }
        }
        if exists|i: int|
            0 <= i < groups.len() && (#[trigger] groups[i]).0 == icon && groups[i].1.contains(shape) {
            let i = choose|i: int|
                0 <= i < groups.len() && (#[trigger] groups[i]).0 == icon && groups[i].1.contains(shape);
            if i == 0 {
                let k = choose|k: int| 0 <= k < shapes.len() && shapes[k] == shape;
                assert(all[k] == (shape, icon));
            } else {
                assert(rest[i - 1] == groups[i]);
                let q = spec_icon_pairs(rest);
                let k = choose|k: int| 0 <= k < q.len() && q[k] == (shape, icon);
                assert(all[first.len() + k] == (shape, icon));
            }
        }
    }
}

} // verus!
