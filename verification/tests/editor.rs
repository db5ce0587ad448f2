use extract_beasts::editor::{
    update_editor_layout, update_mapper_visibility, update_preview, update_preview_page_selection,
};
use extract_beasts::parse_pages;

#[test]
fn editor_layout() {
    assert!(update_editor_layout("side-by-side", false));
    assert!(update_editor_layout("side-by-side", true));
    assert!(!update_editor_layout("vertical", true));
    assert!(!update_editor_layout("vertical", false));
    assert!(update_editor_layout("other", true));
    assert!(!update_editor_layout("other", false));
}

#[test]
fn editor_panels() {
    assert!(!update_mapper_visibility("none"));
    assert!(update_mapper_visibility("yaml"));
    assert!(update_mapper_visibility(""));
    assert!(update_preview("manual"));
    assert!(!update_preview("builtin"));
}

#[test]
fn preview_page_labels() {
    assert_eq!(
        update_preview_page_selection("98-101,7"),
        vec!["98", "99", "100", "101", "7"]
    );
    let labels = update_preview_page_selection("0-4294967295");
    assert_eq!(labels.len(), 100);
    assert_eq!(labels[0], "0");
    assert_eq!(labels[99], "99");
    assert!(update_preview_page_selection("1,x").is_empty());
    assert_eq!(update_preview_page_selection("4294967295"), vec!["4294967295"]);
}

#[test]
fn preview_labels_parse_back() {
    for label in update_preview_page_selection("0-12,65535-65537,4294967295") {
        let page = parse_pages(&label).ok().unwrap();
        assert_eq!(page.len(), 1);
        assert_eq!(page[0].to_string(), label);
    }
}
