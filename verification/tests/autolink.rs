use dmc_parser::ast::{Link, Node, Span, Text};
use dmc_parser::autolink::{split_email_autolinks, split_email_autolinks_with_tail_underscore};
use dmc_parser::emphasis::{DelimRecord, EmphasisChar};

fn sp() -> Span {
    Span { file: "e.md".to_string(), line: 2, column: 3, length: 9 }
}

fn text(s: &str) -> Node {
    Node::Text(Text { value: s.to_string(), span: sp() })
}

fn mail(email: &str) -> Node {
    Node::Link(Link { href: format!("mailto:{email}"), title: None, children: vec![text(email)], span: sp() })
}

#[test]
fn address_in_text_becomes_a_mailto_link() {
    assert_eq!(
        split_email_autolinks("contact foo@bar.com now", &sp()),
        Some(vec![text("contact "), mail("foo@bar.com"), text(" now")])
    );
}

#[test]
fn trailing_dots_are_sentence_punctuation() {
    assert_eq!(split_email_autolinks("a@b.c.", &sp()), Some(vec![mail("a@b.c"), text(".")]));
}

#[test]
fn invalid_domains_are_not_links() {
    assert_eq!(split_email_autolinks("foo@bar", &sp()), None);
    assert_eq!(split_email_autolinks("x@y.z-", &sp()), None);
    assert_eq!(split_email_autolinks("x@y.z_", &sp()), None);
    assert_eq!(split_email_autolinks("x@y..z", &sp()), None);
    assert_eq!(split_email_autolinks("x@.y.z", &sp()), None);
    assert_eq!(split_email_autolinks("@y.z", &sp()), None);
    assert_eq!(split_email_autolinks("no address", &sp()), None);
}

#[test]
fn text_around_links_is_unescaped() {
    assert_eq!(
        split_email_autolinks("a\\*b c@d.ef", &sp()),
        Some(vec![text("a*b "), mail("c@d.ef")])
    );
}

#[test]
fn a_domain_can_be_the_next_local_part() {
    assert_eq!(split_email_autolinks("a@b.c@d.e", &sp()), Some(vec![mail("a@b.c"), mail("b.c@d.e")]));
}

fn underscore_record(out_idx: usize) -> DelimRecord {
    DelimRecord { c: EmphasisChar::Underscore, run: 1, can_open: true, can_close: true, out_idx, span: sp() }
}

#[test]
fn underscore_cut_from_an_address_is_rejoined() {
    let mut out = vec![text("mail foo"), text("_")];
    let mut delims = vec![underscore_record(1)];
    let pieces = split_email_autolinks_with_tail_underscore("bar@baz.com", &sp(), &mut out, &mut delims);
    assert_eq!(pieces, Some(vec![mail("foo_bar@baz.com")]));
    assert_eq!(out, vec![text("mail ")]);
    assert_eq!(delims[0].run, 0);
    assert!(!delims[0].can_open && !delims[0].can_close);
}

#[test]
fn text_that_was_all_local_part_is_dropped() {
    let mut out = vec![text("foo"), text("__")];
    let mut delims = vec![underscore_record(1)];
    let pieces = split_email_autolinks_with_tail_underscore("bar@baz.com", &sp(), &mut out, &mut delims);
    assert_eq!(pieces, Some(vec![mail("foo__bar@baz.com")]));
    assert!(out.is_empty());
}

#[test]
fn without_an_address_nothing_changes() {
    let mut out = vec![text("foo"), text("_")];
    let mut delims = vec![underscore_record(1)];
    assert_eq!(split_email_autolinks_with_tail_underscore("bar", &sp(), &mut out, &mut delims), None);
    assert_eq!(out, vec![text("foo"), text("_")]);
    assert_eq!(delims[0].run, 1);
    let mut no_record: Vec<DelimRecord> = Vec::new();
    assert_eq!(split_email_autolinks_with_tail_underscore("bar@baz.com", &sp(), &mut out, &mut no_record), None);
    assert_eq!(out.len(), 2);
}
