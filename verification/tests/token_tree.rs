use extract_beasts::{token_values, tokens_are_nested, Token, Value};

fn start(rule: &str, pos: usize) -> Token {
    Token::Start { rule: rule.to_string(), pos }
}

fn end(rule: &str, pos: usize) -> Token {
    Token::End { rule: rule.to_string(), pos }
}

fn text(v: &Value) -> &str {
    match v {
        Value::Text(t) => t,
        _ => panic!("not a text"),
    }
}

#[test]
fn single_rule_gives_its_text() {
    let page = "Chull, tier 1";
    let ts = vec![start("name", 0), end("name", 5)];
    assert!(tokens_are_nested(page, &ts));
    let vs = token_values(page, &ts);
    assert_eq!(vs.len(), 1);
    assert_eq!(text(&vs[0]), "Chull");
}

#[test]
fn nested_rules_give_a_record() {
    let page = "Chull 1 2";
    let ts = vec![
        start("beast", 0),
        start("name", 0),
        end("name", 5),
        start("n", 6),
        end("n", 7),
        start("n", 8),
        end("n", 9),
        end("beast", 9),
    ];
    assert!(tokens_are_nested(page, &ts));
    let vs = token_values(page, &ts);
    assert_eq!(vs.len(), 1);
    match &vs[0] {
        Value::Record(fs) => {
            assert_eq!(fs.len(), 3);
            assert_eq!(fs[0].0, "name");
            assert_eq!(text(&fs[0].1), "Chull");
            assert_eq!(fs[1].0, "n");
            match &fs[1].1 {
                Value::List(xs) => {
                    assert_eq!(xs.len(), 2);
                    assert_eq!(text(&xs[0]), "1");
                    assert_eq!(text(&xs[1]), "2");
                },
                _ => panic!("expected a list"),
            }
            assert_eq!(fs[2].0, "_");
            assert_eq!(text(&fs[2].1), "Chull 1 2");
        },
        _ => panic!("expected a record"),
    }
}

#[test]
fn multibyte_positions() {
    let page = "\u{25b6} Strike";
    let ts = vec![start("kind", 0), end("kind", 3), start("name", 4), end("name", 10)];
    let vs = token_values(page, &ts);
    assert_eq!(vs.len(), 2);
    assert_eq!(text(&vs[0]), "\u{25b6}");
    assert_eq!(text(&vs[1]), "Strike");
}

#[test]
fn malformed_streams() {
    let page = "\u{25b6} Strike";
    assert!(!tokens_are_nested(page, &vec![end("a", 1)]));
    assert!(!tokens_are_nested(page, &vec![start("a", 0), end("b", 1)]));
    assert!(!tokens_are_nested(page, &vec![start("a", 0), end("a", 1)]));
    assert!(!tokens_are_nested(page, &vec![start("a", 4), end("a", 3)]));
    assert!(!tokens_are_nested(page, &vec![start("a", 0), end("a", 40)]));
    assert!(tokens_are_nested(page, &vec![start("a", 0)]));
    assert_eq!(token_values(page, &vec![start("a", 0)]).len(), 0);
}
