use extract_beasts::{
    parse_action, parse_feature, parse_page, try_parse_page, Action, ActionKind, Attributes, Beast, Defenses,
    DescValue, Feature, Movement, Ranged, Role, Size, Skill,
};

fn s(x: &str) -> String {
    x.to_string()
}

fn skill(name: &str, value: &str) -> Skill {
    Skill { name: s(name), value: s(value), desc: None }
}

#[test]
fn test_feature() {
    let (rest, feature) = parse_feature("Hello. Test.\n\n").unwrap();
    assert_eq!(rest, "\n\n");
    assert_eq!(feature, Feature { name: "Hello".to_string(), desc: "Test.".to_string() });
}

#[test]
fn test_action() {
    let (rest, feature) = parse_action("\u{25b6}\u{25b6} Hello. Test.\n\n").unwrap();
    assert_eq!(rest, "\n\n");
    assert_eq!(
        feature,
        Action { name: "Hello".to_string(), desc: "Test.".to_string(), kind: ActionKind::Two }
    );
}

const GREAT_FIGHTER: &str = r#" Random Text
Great Fighter
Tier 2 Rival – Medium Humanoid
   Physical   Cognitive   Spiritual
 str def spd int def wil awa def pre
 1 14* 3 0 11 1 3 16 3

Health: 18 (19–36) Focus: 2 Investiture: 3

Movement: 42 ft.
Senses: 21 ft. (sight)
Physical Skills: Walking +4, Heavy Stabbing +3, 
Light Stabbing +4*
Cognitive Skills: Standing +3, Remembering +2, Repairing +2
Spiritual Skills: Seeing +5, Commanding +5, Recognizing +4
Languages: every

features

Tennis player. Gains an advantage on hitting projectiles.

actions

▶ Strike: Racket. Attack +4, reach 5 ft., one target.
Graze: 3 (1d6) blunt damage. Hit: 7 (1d6 + 4) blunt damage.

opportunities and complications

The following options are available when an enemy gains 
an Opportunity or Complication during a scene with the 
Great Fighter:

Opportunity. An enemy can spend #OPPORTUNITY# to prevent the Great
Fighter from being a great fighter, 
until the end of the Great Fighter’s next turn.
Complication. The GM can spend #COMPLICATION# from an enemy’s test to 
have the Great Fighter use their Strike as ↩, 
without spending Focus to do so.

ASdhluadlbasd
    "#;

fn great_fighter() -> Beast {
    Beast {
        name: s("Great Fighter"),
        tier: 2,
        role: Role::Rival,
        size: Some(Size::Medium),
        kind: s("Humanoid"),
        attributes: Attributes {
            strength: s("1"),
            speed: s("3"),
            intellect: s("0"),
            willpower: s("1"),
            awareness: s("3"),
            presence: s("3"),
        },
        defenses: Defenses { physical: s("14*"), cognitive: s("11"), spiritual: s("16") },
        health: Ranged { value: 18, min: 19, max: 36 },
        focus: 2,
        investiture: 3,
        deflect: None,
        movement: Movement { value: 42, extra: vec![], desc: None },
        senses: DescValue { value: 21, desc: s("sight") },
        immunities: vec![],
        physical_skills: vec![
            skill("Walking", "+4"),
            skill("Heavy Stabbing", "+3"),
            skill("Light Stabbing", "+4*"),
        ],
        cognitive_skills: vec![
            skill("Standing", "+3"),
            skill("Remembering", "+2"),
            skill("Repairing", "+2"),
        ],
        spiritual_skills: vec![
            skill("Seeing", "+5"),
            skill("Commanding", "+5"),
            skill("Recognizing", "+4"),
        ],
        surge_skills: vec![],
        languages: Some(vec![s("every")]),
        features: vec![Feature {
            name: s("Tennis player"),
            desc: s("Gains an advantage on hitting projectiles."),
        }],
        actions: vec![Action {
            kind: ActionKind::One,
            name: s("Strike: Racket"),
            desc: s("Attack +4, reach 5 ft., one target.\nGraze: 3 (1d6) blunt damage. Hit: 7 (1d6 + 4) blunt damage."),
        }],
        opportunity: Some(s("An enemy can spend #OPPORTUNITY# to prevent the Great\nFighter from being a great fighter, \nuntil the end of the Great Fighter’s next turn.")),
        complication: Some(s("The GM can spend #COMPLICATION# from an enemy’s test to \nhave the Great Fighter use their Strike as ↩, \nwithout spending Focus to do so.")),
    }
}

#[test]
fn test_parse() {
    assert_eq!(parse_page(GREAT_FIGHTER), vec![great_fighter()]);
}

const TWO_BEASTS: &str = "Chull\nTier 1 Minion - Large Animal\nstr def spd int def wil awa def pre\n3 12 1 0 10 1 2 11 0\nHealth: 10 (8-12)\nFocus: 1\nInvestiture: 0\nDeflect: 2 (shell)\nMovement: 10 ft., swim 20 feet (slow on land)\nSenses: 5 ft. (smell)\nImmunities: fear, poison\nSurge Skills: Gravitation +1 (only falling)\nLanguages: Alethi, Thaylen\nfeatures\n\nSturdy. Hard to move.\n\nactions\n\n\u{25b6}\u{25b6} Crush. Attack +2.\n\nSpren Swarm\nTier 2 Boss – Spren\n1 2 3 4 5 6 7 8 9\nHealth: 5 (1-9) Focus: 3 Investiture: 4\nMovement: 30 ft.\nSenses: 10 ft. (all)\n\n";

#[test]
fn two_beasts_on_a_page() {
    let beasts = parse_page(TWO_BEASTS);
    assert_eq!(beasts.len(), 2);
    let chull = &beasts[0];
    assert_eq!(chull.name, "Chull");
    assert_eq!(chull.tier, 1);
    assert_eq!(chull.role, Role::Minion);
    assert_eq!(chull.size, Some(Size::Large));
    assert_eq!(chull.kind, "Animal");
    assert_eq!(chull.defenses.physical, "12");
    assert_eq!(chull.attributes.presence, "0");
    assert_eq!(chull.health, Ranged { value: 10, min: 8, max: 12 });
    assert_eq!(chull.deflect, Some(DescValue { value: 2, desc: s("shell") }));
    assert_eq!(
        chull.movement,
        Movement {
            value: 10,
            extra: vec![DescValue { value: 20, desc: s("swim") }],
            desc: Some(s("slow on land")),
        }
    );
    assert_eq!(chull.senses, DescValue { value: 5, desc: s("smell") });
    assert_eq!(chull.immunities, vec![s("fear"), s("poison")]);
    assert_eq!(
        chull.surge_skills,
        vec![Skill { name: s("Gravitation"), value: s("+1"), desc: Some(s("only falling")) }]
    );
    assert_eq!(chull.languages, Some(vec![s("Alethi, Thaylen")]));
    assert_eq!(chull.features, vec![Feature { name: s("Sturdy"), desc: s("Hard to move.") }]);
    assert_eq!(
        chull.actions,
        vec![Action { kind: ActionKind::Two, name: s("Crush"), desc: s("Attack +2.") }]
    );
    assert_eq!(chull.opportunity, None);
    let swarm = &beasts[1];
    assert_eq!(swarm.name, "Spren Swarm");
    assert_eq!(swarm.role, Role::Boss);
    assert_eq!(swarm.size, None);
    assert_eq!(swarm.kind, "Spren");
    assert_eq!(swarm.focus, 3);
    assert_eq!(swarm.investiture, 4);
    assert_eq!(swarm.attributes.strength, "1");
    assert_eq!(swarm.defenses.spiritual, "8");
    assert_eq!(swarm.languages, None);
}

#[test]
fn page_without_stat_block() {
    assert_eq!(parse_page("Just some rules text.\nNo monsters here.\n"), vec![]);
    assert_eq!(parse_page(""), vec![]);
}

#[test]
fn label_without_value_is_malformed() {
    let page = "Chull\nTier 1 Minion - Large Animal\n3 12 1 0 10 1 2 11 0\nHealth: 10 (8-12)\nFocus 1\n";
    assert!(try_parse_page(page).is_none());
    let page = "Chull\nTier 1 Minion - Large Animal\n3 12 1 0 10 1 2 11 0\nHealth: 10 (8-12)\nFocus: many\n";
    assert!(try_parse_page(page).is_none());
}

#[test]
fn feature_and_action_edges() {
    let (rest, f) = parse_feature("No dot here").unwrap();
    assert_eq!(rest, "");
    assert_eq!(f, Feature { name: s("No dot here"), desc: s("") });
    assert!(parse_action("Strike. Hit.").is_none());
    let (rest, a) = parse_action("free Dodge.  Move away.\n\nNext").unwrap();
    assert_eq!(rest, "\n\nNext");
    assert_eq!(a, Action { kind: ActionKind::Free, name: s("Dodge"), desc: s("Move away.") });
    let (_, a) = parse_action("\u{21a9} Parry. Block \u{25c6} twice\n\nmore text").unwrap();
    assert_eq!(a.desc, "Block \u{25c6} twicemore text");
}

#[test]
fn features_and_actions_are_trimmed() {
    let (rest, f) = parse_feature("  Hello .  Test.  \n\nmore").unwrap();
    assert_eq!(f.name, "Hello");
    assert_eq!(f.desc, "Test.");
    assert_eq!(rest, "\n\nmore");
    let (_, a) = parse_action("\u{25b6} \u{a0}Strike :\tx. Hit \n\n").unwrap();
    assert_eq!(a.name, a.name.trim());
    assert_eq!(a.desc, a.desc.trim());
    assert_eq!(a.desc, "Hit");
}

#[test]
fn unreadable_page_has_no_beasts() {
    let page = "X\nTier 1 Boss \u{2013} Small Beast\n1 2 3 4 5 6 7 8 9\nHealth: 5 (4-6)\nFocus 3";
    assert!(try_parse_page(page).is_none());
    assert_eq!(try_parse_page(TWO_BEASTS).unwrap(), parse_page(TWO_BEASTS));
}

const KELVIN_SKILLS: &str = "Chull\nTier 1 Minion - Large Animal\n3 12 1 0 10 1 2 11 0\nHealth: 10 (8-12)\nFocus: 1\nInvestiture: 0\nMovement: 10 ft.\nSenses: 5 ft. (smell)\nPhysical S\u{212a}ills: Walking +4\n\n";

#[test]
fn kelvin_sign_matches_the_k_of_a_label() {
    // The label matches, the cut after its length in bytes leaves `ls`, and
    // the `:` that must follow is missing.
    assert!(try_parse_page(KELVIN_SKILLS).is_none());
    let plain = KELVIN_SKILLS.replace('\u{212a}', "K");
    let beasts = parse_page(&plain);
    assert_eq!(beasts[0].physical_skills, vec![skill("Walking", "+4")]);
}

const HEAD: &str = "Chull\nTier 1 Minion - Large Animal\n3 12 1 0 10 1 2 11 0\nHealth: 10 (8-12)\nFocus: 1\nInvestiture: 0\nMovement: 10 ft.\nSenses: 5 ft. (smell)\n";

#[test]
fn features_running_to_the_end_count_as_absent() {
    let page = format!("{HEAD}features\n\nSturdy. Hard to move.\n");
    let beasts = parse_page(&page);
    assert_eq!(beasts.len(), 1);
    assert_eq!(beasts[0].name, "Chull");
    assert!(beasts[0].features.is_empty());
    assert!(beasts[0].actions.is_empty());
}

#[test]
fn actions_may_run_to_the_end() {
    let page = format!("{HEAD}actions\n\n\u{25b6}\u{25b6} Crush. Attack +2.\n");
    let beasts = parse_page(&page);
    assert_eq!(beasts.len(), 1);
    assert_eq!(
        beasts[0].actions,
        vec![Action { kind: ActionKind::Two, name: s("Crush"), desc: s("Attack +2.") }]
    );
}
