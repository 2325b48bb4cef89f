use rustic::icons::{load_icon, IconRef};
use rustic::text::norm_str;

#[test]
fn no_configured_icon_falls_back_to_default() {
    assert!(matches!(load_icon(&None, false), IconRef::Default));
    assert!(matches!(load_icon(&None, true), IconRef::Default));
}

#[test]
fn missing_file_falls_back_to_default() {
    let name = Some("gone.png".to_string());
    assert!(matches!(load_icon(&name, false), IconRef::Default));
}

#[test]
fn present_file_resolves_to_it() {
    let name = Some("star.png".to_string());
    match load_icon(&name, true) {
        IconRef::File(f) => assert_eq!(f, "star.png"),
        IconRef::Default => panic!("expected the configured file"),
    }
}

#[test]
fn norm_str_widens_tabs() {
    assert_eq!(norm_str("a\tb"), "a    b");
    assert_eq!(norm_str("\t\t"), "        ");
    assert_eq!(norm_str("no tabs"), "no tabs");
    assert_eq!(norm_str(""), "");
}
