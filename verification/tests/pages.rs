use extract_beasts::pages::{resolve, STONEWALKERS, STORMLIGHT_WORLDGUIDE};
use extract_beasts::form::get_pages;
use extract_beasts::parse_pages;
use extract_beasts::website;
use extract_beasts::website::validate_pages;

#[test]
fn resolve_predefined_ranges() {
    assert_eq!(resolve("stormlight-worldguide"), "191-269");
    assert_eq!(resolve("stonewalkers"), "136-170");
    assert_eq!(STORMLIGHT_WORLDGUIDE, "191-269");
    assert_eq!(STONEWALKERS, "136-170");
    assert_eq!(resolve("12-13"), "12-13");
    assert_eq!(resolve("Stonewalkers"), "Stonewalkers");
}

#[test]
fn resolve_is_idempotent() {
    for s in ["stormlight-worldguide", "stonewalkers", "1,2", ""] {
        assert_eq!(resolve(resolve(s)), resolve(s));
    }
}

#[test]
fn pages_list_and_ranges() {
    assert_eq!(parse_pages("12-13,15,22-23").ok().unwrap(), vec![12, 13, 15, 22, 23]);
    assert_eq!(parse_pages(" 3 ").ok().unwrap(), vec![3]);
    assert_eq!(parse_pages("1 - 3 , 7").ok().unwrap(), vec![1, 2, 3, 7]);
    assert_eq!(parse_pages("+4").ok().unwrap(), vec![4]);
    assert_eq!(parse_pages("007").ok().unwrap(), vec![7]);
}

#[test]
fn pages_backwards_range() {
    assert_eq!(parse_pages("5-3").ok().unwrap(), vec![3, 4, 5]);
    assert_eq!(parse_pages("5-3").ok().unwrap(), parse_pages("3-5").ok().unwrap());
}

#[test]
fn pages_predefined() {
    let pages = parse_pages("stonewalkers").ok().unwrap();
    assert_eq!(pages.len(), 35);
    assert_eq!(pages[0], 136);
    assert_eq!(pages[34], 170);
    let pages = parse_pages("stormlight-worldguide").ok().unwrap();
    assert_eq!(pages.len(), 79);
}

#[test]
fn pages_concatenate() {
    let a = parse_pages("4-6").ok().unwrap();
    let b = parse_pages("2,9-8").ok().unwrap();
    let mut ab = a.clone();
    ab.extend(b);
    assert_eq!(parse_pages("4-6,2,9-8").ok().unwrap(), ab);
    let mut ab = parse_pages("1,3").ok().unwrap();
    ab.extend(parse_pages("5-4").ok().unwrap());
    assert_eq!(parse_pages("1,3,5-4").ok().unwrap(), ab);
    assert_eq!(parse_pages("1,x,5-4").err().unwrap().0, parse_pages("1,x").err().unwrap().0);
}

#[test]
fn pages_errors() {
    let e = parse_pages("1,x-3").err().unwrap();
    assert_eq!(e.0, "x");
    assert_eq!(e.message(), "Expected unsigned integer, found: x");
    assert_eq!(parse_pages("").err().unwrap().0, "");
    assert_eq!(parse_pages("1,").err().unwrap().0, "");
    assert_eq!(parse_pages("1-2-3").err().unwrap().0, "2-3");
    assert_eq!(parse_pages("-1").err().unwrap().0, "");
    assert_eq!(parse_pages("4294967296").err().unwrap().0, "4294967296");
    assert_eq!(parse_pages("3- y ").err().unwrap().0, "y");
    assert_eq!(parse_pages("+").err().unwrap().0, "+");
    assert_eq!(parse_pages("stonewalker").err().unwrap().0, "stonewalker");
}

#[test]
fn pages_largest() {
    assert_eq!(parse_pages("4294967295").ok().unwrap(), vec![4294967295]);
    assert_eq!(parse_pages("4294967294-4294967295").ok().unwrap(), vec![4294967294, 4294967295]);
}

#[test]
fn website_pages_are_capped() {
    let pages = website::parse_pages("1-1000").ok().unwrap();
    assert_eq!(pages.len(), 500);
    assert_eq!(pages[0], 1);
    assert_eq!(pages[499], 500);
    assert_eq!(website::parse_pages("12-13,15").ok().unwrap(), vec![12, 13, 15]);
    let pages = website::parse_pages("0-4294967295").ok().unwrap();
    assert_eq!(pages.len(), 500);
    assert_eq!(pages[499], 499);
    assert_eq!(
        website::parse_pages("1-1000,x").err().unwrap(),
        "Expected unsigned integer, found: x"
    );
}

#[test]
fn website_validate_pages() {
    assert_eq!(validate_pages("stonewalkers"), None);
    assert_eq!(validate_pages("0-4294967295"), None);
    assert_eq!(
        validate_pages("1, 2 -q").unwrap(),
        "Expected unsigned integer, found: q"
    );
}

#[test]
fn form_page_field() {
    let (pages, validity) = get_pages("3-1");
    assert_eq!(pages.unwrap(), vec![1, 2, 3]);
    assert_eq!(validity, "");
    let (pages, validity) = get_pages("a");
    assert!(pages.is_none());
    assert_eq!(
        validity,
        "Pages should match `1,2-4,...`: Expected unsigned integer, found: a"
    );
}
