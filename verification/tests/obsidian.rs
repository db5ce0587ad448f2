use extract_beasts::obsidian::join_text;
use extract_beasts::{
    frontmatter, Action, ActionKind, Attributes, Beast, Defenses, DescValue, Feature, Movement,
    Ranged, Role,
};

fn s(x: &str) -> String {
    x.to_string()
}

fn beast() -> Beast {
    Beast {
        name: s("Chull"),
        tier: 1,
        role: Role::Minion,
        size: None,
        kind: s("Animal"),
        attributes: Attributes {
            strength: s("1"),
            speed: s("1"),
            intellect: s("0"),
            willpower: s("1"),
            awareness: s("1"),
            presence: s("0"),
        },
        defenses: Defenses { physical: s("12"), cognitive: s("10"), spiritual: s("11") },
        health: Ranged { value: 10, min: 8, max: 12 },
        focus: 1,
        investiture: 0,
        deflect: Some(DescValue { value: 2, desc: s("shell") }),
        movement: Movement { value: 10, extra: vec![], desc: None },
        senses: DescValue { value: 5, desc: s("smell") },
        immunities: vec![s("fear")],
        physical_skills: vec![],
        cognitive_skills: vec![],
        spiritual_skills: vec![],
        surge_skills: vec![],
        languages: Some(vec![s("none\nat all")]),
        features: vec![Feature { name: s("Sturdy"), desc: s("Shell\nof stone.\n\u{25c6} Hard") }],
        actions: vec![Action {
            kind: ActionKind::Two,
            name: s("Crush"),
            desc: s("Attack +2,\nreach 5 ft.\n\nGraze: 1"),
        }],
        opportunity: Some(s("It\nstumbles.")),
        complication: None,
    }
}

#[test]
fn join_text_joins_lines() {
    assert_eq!(join_text(&s("a\nb")), "ab");
    assert_eq!(join_text(&s("a\n\nb")), "a\nb");
    assert_eq!(join_text(&s("a\n \u{25c6} b")), "a\n \u{25c6} b");
    assert_eq!(join_text(&s("a\r\nb")), "ab");
    assert_eq!(join_text(&s("a\n")), "a");
    assert_eq!(join_text(&s("")), "");
    assert_eq!(join_text(&s("no break")), "no break");
    assert_eq!(join_text(&s("a\r")), "a\r");
}

#[test]
fn update_for_obsidian_prefixes_and_joins() {
    let b = beast().update_for_obsidian();
    assert_eq!(b.actions[0].name, "\u{25b6}\u{25b6} Crush");
    assert_eq!(b.actions[0].desc, "Attack +2,reach 5 ft.\nGraze: 1");
    assert_eq!(b.features[0].desc, "Shellof stone.\n\u{25c6} Hard");
    assert_eq!(b.features[0].name, "Sturdy");
    assert_eq!(b.languages, Some(vec![s("noneat all")]));
    assert_eq!(b.opportunity, Some(s("Itstumbles.")));
    assert_eq!(b.complication, None);
    assert_eq!(b.deflect, beast().deflect);
    assert_eq!(b.immunities, beast().immunities);
    assert_eq!(b.name, "Chull");
}

#[test]
fn frontmatter_frames_yaml() {
    assert_eq!(frontmatter("name: Chull"), "---\nstatblock: true\nname: Chull\n---\n");
}
