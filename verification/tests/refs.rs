use dmc_parser::refs::{normalize_label, parse_link_ref_def, push_folded_lowercase, RefMap};

#[test]
fn normalize_collapses_and_folds() {
    assert_eq!(normalize_label("  Foo   BAR\tbaz  "), "foo bar baz");
    assert_eq!(normalize_label("ẞ"), "ss");
    assert_eq!(normalize_label("Straße"), "strasse");
    assert_eq!(normalize_label("   "), "");
}

#[test]
fn first_definition_wins() {
    let mut m = RefMap::new();
    assert!(m.is_empty());
    m.insert("Foo", "/first".to_string(), None);
    m.insert("  foo ", "/second".to_string(), Some("t".to_string()));
    assert!(!m.is_empty());
    assert_eq!(m.get("FOO"), Some(&("/first".to_string(), None)));
    assert_eq!(m.get("bar"), None);
}

#[test]
fn empty_label_is_ignored() {
    let mut m = RefMap::new();
    m.insert("   ", "/x".to_string(), None);
    assert!(m.is_empty());
}

#[test]
fn link_ref_def_forms() {
    assert_eq!(
        parse_link_ref_def("[foo]: /url \"title\""),
        Some(("foo".to_string(), "/url".to_string(), Some("title".to_string())))
    );
    assert_eq!(
        parse_link_ref_def("[a b]: <my url> 'x'"),
        Some(("a b".to_string(), "my url".to_string(), Some("x".to_string())))
    );
    assert_eq!(
        parse_link_ref_def("[x]:\n/u\n(paren)"),
        Some(("x".to_string(), "/u".to_string(), Some("paren".to_string())))
    );
    assert_eq!(parse_link_ref_def("[x\\]y]: /u"), Some(("x\\]y".to_string(), "/u".to_string(), None)));
    assert_eq!(parse_link_ref_def("[x]: /u   "), Some(("x".to_string(), "/u".to_string(), None)));
}

#[test]
fn link_ref_def_failures() {
    assert_eq!(parse_link_ref_def("foo]: /u"), None);
    assert_eq!(parse_link_ref_def("[foo /u"), None);
    assert_eq!(parse_link_ref_def("[foo] /u"), None);
    assert_eq!(parse_link_ref_def("[foo]:"), None);
    assert_eq!(parse_link_ref_def("[foo]: <open"), None);
    assert_eq!(parse_link_ref_def("[foo]: /u junk"), None);
    assert_eq!(parse_link_ref_def("[foo]: /u \"unclosed"), None);
    assert_eq!(parse_link_ref_def("[foo]: /u \""), None);
}

#[test]
fn lowercase_sharp_s_folds_to_ss() {
    let mut out: Vec<char> = vec!['>'];
    push_folded_lowercase(&mut out, &"straße".chars().collect());
    assert_eq!(out.iter().collect::<String>(), ">strasse");
}

#[test]
fn escaped_punctuation_makes_a_different_label() {
    assert_ne!(normalize_label("foo\\!"), normalize_label("foo!"));
    assert_eq!(normalize_label("foo\\!"), "foo\\!");
}

#[test]
fn labels_match_across_whitespace_runs() {
    assert_eq!(normalize_label("foo \t\n bar"), normalize_label("foo bar"));
    assert_eq!(normalize_label("\u{3000} foo"), normalize_label("foo"));
    let mut m = RefMap::new();
    m.insert("Foo   Bar", "/u".to_string(), None);
    assert_eq!(m.get("foo bar"), Some(&("/u".to_string(), None)));
}

#[test]
fn a_default_table_is_empty() {
    let m = RefMap::default();
    assert!(m.is_empty());
    assert_eq!(m.get("x"), None);
}

#[test]
fn normalizing_twice_changes_nothing() {
    for s in ["  Foo   BAR\tbaz  ", "Straße", "ÀÉ  x"] {
        let once = normalize_label(s);
        assert_eq!(normalize_label(&once), once);
    }
}
