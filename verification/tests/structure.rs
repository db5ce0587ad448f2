use extract_beasts::{ActionKind, Role, Size};

#[test]
fn role_from_str() {
    assert_eq!(Role::from_str("Rival").ok(), Some(Role::Rival));
    assert_eq!(Role::from_str("MINION").ok(), Some(Role::Minion));
    assert_eq!(Role::from_str("boss").ok(), Some(Role::Boss));
    assert!(Role::from_str("Bosses").is_err());
    assert!(Role::from_str("").is_err());
}

#[test]
fn size_from_str() {
    assert_eq!(Size::from_str("Medium").ok(), Some(Size::Medium));
    assert_eq!(Size::from_str("gargantuan").ok(), Some(Size::Gargantuan));
    assert!(Size::from_str("Tiny").is_err());
}

#[test]
fn action_kind_from_str() {
    assert_eq!(ActionKind::from_str("one").ok(), Some(ActionKind::One));
    assert_eq!(ActionKind::from_str(" T w O ").ok(), Some(ActionKind::Two));
    assert_eq!(ActionKind::from_str("\u{25b6}\u{25b6}\u{25b6}").ok(), Some(ActionKind::Three));
    assert_eq!(ActionKind::from_str("\u{25b7}").ok(), Some(ActionKind::Free));
    assert_eq!(ActionKind::from_str("\u{21a9}").ok(), Some(ActionKind::Reaction));
    assert_eq!(ActionKind::from_str("Reaction").ok(), Some(ActionKind::Reaction));
    assert_eq!(ActionKind::from_str("\u{25b6} \u{25b6}").ok(), Some(ActionKind::Two));
    assert!(ActionKind::from_str("four").is_err());
    assert!(ActionKind::from_str("\u{25b6}\u{25b7}").is_err());
}

#[test]
fn names_round_trip() {
    for r in [Role::Minion, Role::Rival, Role::Boss] {
        assert_eq!(Role::from_str(r.name()).ok(), Some(r));
    }
    for z in [Size::Small, Size::Medium, Size::Large, Size::Huge, Size::Gargantuan] {
        assert_eq!(Size::from_str(z.name()).ok(), Some(z));
    }
    for k in [
        ActionKind::One,
        ActionKind::Two,
        ActionKind::Three,
        ActionKind::Free,
        ActionKind::Reaction,
    ] {
        assert_eq!(ActionKind::from_str(k.symbol()).ok(), Some(k));
    }
    assert_eq!(ActionKind::Two.symbol(), "\u{25b6}\u{25b6}");
    assert_eq!(Role::Boss.name(), "Boss");
}
