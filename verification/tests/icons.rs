use extract_beasts::icon_pairs;
use extract_beasts::icons::load_icon_map;

#[test]
fn icon_table_becomes_lookup_pairs() {
    let groups = vec![
        ("\u{25b6}".to_string(), vec!["path-a".to_string(), "path-b".to_string()]),
        ("\u{21a9}".to_string(), vec![]),
        ("\u{25b7}".to_string(), vec!["path-c".to_string()]),
    ];
    let pairs = icon_pairs(&groups);
    assert_eq!(
        pairs,
        vec![
            ("path-a".to_string(), "\u{25b6}".to_string()),
            ("path-b".to_string(), "\u{25b6}".to_string()),
            ("path-c".to_string(), "\u{25b7}".to_string()),
        ]
    );
}

#[test]
fn icon_table_from_yaml() {
    let pairs = load_icon_map("b:\n  - z\na:\n  - y\n  - x\n").ok().unwrap();
    assert_eq!(
        pairs,
        vec![
            ("x".to_string(), "a".to_string()),
            ("y".to_string(), "a".to_string()),
            ("z".to_string(), "b".to_string()),
        ]
    );
    assert!(load_icon_map("{}").ok().unwrap().is_empty());
}

#[test]
fn icon_table_errors() {
    let e = load_icon_map("- 1\n- 2\n").err().unwrap();
    assert!(!e.0.is_empty());
    assert!(load_icon_map("a: 3").is_err());
}
