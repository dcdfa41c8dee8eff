use dmc_parser::ast::{
    BreakNode, Heading, Html, Inline, JsxSelfClosing, ListItem, Node, Paragraph, Span, TaskListItem, Text,
};
use dmc_parser::tree::{
    append_inline_continuation, append_to_item, ensure_loose_item, finalize_inline_breaks, flatten_nested_bold,
    is_block_node, is_whitespace_text, normalize_legacy_gfm_emphasis, promote_item_to_setext_heading,
    strip_jsx_layout_whitespace, unwrap_jsx_only_paragraphs,
};

fn sp() -> Span {
    Span { file: "t.md".into(), line: 4, column: 1, length: 2 }
}

fn text(s: &str) -> Node {
    Node::Text(Text { value: s.to_string(), span: sp() })
}

fn bold(c: Vec<Node>) -> Node {
    Node::Bold(Inline { children: c, span: sp() })
}

fn italic(c: Vec<Node>) -> Node {
    Node::Italic(Inline { children: c, span: sp() })
}

fn para(c: Vec<Node>) -> Node {
    Node::Paragraph(Paragraph { children: c, span: sp() })
}

fn item(c: Vec<Node>) -> Node {
    Node::ListItem(ListItem { children: c, span: sp() })
}

fn soft() -> Node {
    Node::SoftBreak(BreakNode { span: sp() })
}

fn hard() -> Node {
    Node::HardBreak(BreakNode { span: sp() })
}

fn jsx() -> Node {
    Node::JsxSelfClosing(JsxSelfClosing { name: "X".into(), attrs: vec![], span: sp() })
}

fn heading(level: u8, c: Vec<Node>) -> Node {
    Node::Heading(Heading { level, children: c, span: sp(), id: None })
}

#[test]
fn nested_bold_is_spliced() {
    let mut v = vec![text("a"), bold(vec![text("b"), text("c")]), italic(vec![text("d")])];
    flatten_nested_bold(&mut v);
    assert_eq!(v, vec![text("a"), text("b"), text("c"), italic(vec![text("d")])]);
}

#[test]
fn legacy_emphasis_flattens_strong_in_strong() {
    let mut v = vec![bold(vec![bold(vec![text("x")]), text("y")]), italic(vec![bold(vec![bold(vec![text("z")])])])];
    normalize_legacy_gfm_emphasis(&mut v);
    assert_eq!(v, vec![bold(vec![text("x"), text("y")]), italic(vec![bold(vec![text("z")])])]);
}

#[test]
fn block_kinds() {
    assert!(is_block_node(&para(vec![])));
    assert!(is_block_node(&Node::Html(Html { value: "<div>".into(), span: sp() })));
    assert!(!is_block_node(&text("a")));
    assert!(!is_block_node(&jsx()));
}

#[test]
fn items_take_appended_children() {
    let mut it = item(vec![text("a")]);
    append_to_item(&mut it, text("b"));
    assert_eq!(it, item(vec![text("a"), text("b")]));
    let mut task = Node::TaskListItem(TaskListItem { checked: true, children: vec![], span: sp() });
    append_to_item(&mut task, text("t"));
    assert_eq!(task, Node::TaskListItem(TaskListItem { checked: true, children: vec![text("t")], span: sp() }));
    let mut p = para(vec![]);
    append_to_item(&mut p, text("x"));
    assert_eq!(p, para(vec![]));
}

#[test]
fn loose_items_wrap_their_leading_inline_run() {
    let list = Node::List(dmc_parser::ast::List { ordered: false, start: None, children: vec![], span: sp() });
    let mut it = item(vec![text("a"), soft(), list]);
    ensure_loose_item(&mut it, &sp());
    let list2 = Node::List(dmc_parser::ast::List { ordered: false, start: None, children: vec![], span: sp() });
    assert_eq!(it, item(vec![para(vec![text("a"), soft()]), list2]));
    let mut already = item(vec![para(vec![text("a")]), text("b")]);
    ensure_loose_item(&mut already, &sp());
    assert_eq!(already, item(vec![para(vec![text("a")]), text("b")]));
    let mut empty = item(vec![]);
    ensure_loose_item(&mut empty, &sp());
    assert_eq!(empty, item(vec![]));

    let mut twice = item(vec![text("a"), text("b")]);
    ensure_loose_item(&mut twice, &sp());
    ensure_loose_item(&mut twice, &sp());
    assert_eq!(twice, item(vec![para(vec![text("a"), text("b")])]));
}

#[test]
fn continuation_lines_join_the_item_text() {
    let mut it = item(vec![text("a")]);
    let mut inline = vec![text("b")];
    assert!(append_inline_continuation(&mut it, &mut inline, &sp()));
    assert_eq!(it, item(vec![text("a"), soft(), text("b")]));
    assert!(inline.is_empty());

    let mut empty = item(vec![]);
    let mut inline = vec![text("b")];
    assert!(append_inline_continuation(&mut empty, &mut inline, &sp()));
    assert_eq!(empty, item(vec![text("b")]));

    let mut with_heading = item(vec![heading(1, vec![text("h")])]);
    let mut inline = vec![text("y")];
    assert!(append_inline_continuation(&mut with_heading, &mut inline, &sp()));
    assert_eq!(with_heading, item(vec![heading(1, vec![text("h")]), text("y")]));

    let mut after_heading = item(vec![heading(1, vec![text("h")]), text("x")]);
    let mut inline = vec![text("y")];
    assert!(append_inline_continuation(&mut after_heading, &mut inline, &sp()));
    assert_eq!(after_heading, item(vec![heading(1, vec![text("h")]), text("x"), soft(), text("y")]));

    let mut with_para = item(vec![para(vec![text("p")])]);
    let mut inline = vec![text("y")];
    assert!(!append_inline_continuation(&mut with_para, &mut inline, &sp()));
    assert_eq!(with_para, item(vec![para(vec![text("p")])]));
    assert_eq!(inline, vec![text("y")]);

    let mut not_item = para(vec![]);
    let mut inline = vec![text("y")];
    assert!(!append_inline_continuation(&mut not_item, &mut inline, &sp()));
}

#[test]
fn inline_items_become_setext_headings() {
    let mut it = item(vec![text("Foo  ")]);
    assert!(promote_item_to_setext_heading(&mut it, 2, &sp()));
    assert_eq!(it, item(vec![heading(2, vec![text("Foo")])]));

    let mut it = item(vec![text("a"), text(" \t")]);
    assert!(promote_item_to_setext_heading(&mut it, 1, &sp()));
    assert_eq!(it, item(vec![heading(1, vec![text("a")])]));

    let mut blank = item(vec![text("  ")]);
    assert!(!promote_item_to_setext_heading(&mut blank, 1, &sp()));
    assert_eq!(blank, item(vec![]));

    let mut block = item(vec![para(vec![])]);
    assert!(!promote_item_to_setext_heading(&mut block, 1, &sp()));
    assert_eq!(block, item(vec![para(vec![])]));
}

#[test]
fn hard_breaks_need_content_after_them() {
    let mut v = vec![text("a\\"), hard(), text("b")];
    finalize_inline_breaks(&mut v);
    assert_eq!(v, vec![text("a"), hard(), text("b")]);

    let mut v = vec![text("a  "), hard()];
    finalize_inline_breaks(&mut v);
    assert_eq!(v, vec![text("a")]);

    let mut v = vec![text("x"), hard(), hard()];
    finalize_inline_breaks(&mut v);
    assert_eq!(v, vec![text("x")]);

    let mut v = vec![text("a"), soft(), text(" \t")];
    finalize_inline_breaks(&mut v);
    assert_eq!(v, vec![text("a")]);

    // A soft break after a hard break is dropped after the hard breaks are.
    let mut v = vec![text("a"), hard(), soft()];
    finalize_inline_breaks(&mut v);
    assert_eq!(v, vec![text("a"), hard()]);
}

#[test]
fn whitespace_text_nodes() {
    assert!(is_whitespace_text(&text(" \t\n")));
    assert!(is_whitespace_text(&text("")));
    assert!(is_whitespace_text(&text("\u{00A0}")));
    assert!(is_whitespace_text(&soft()));
    assert!(is_whitespace_text(&hard()));
    assert!(!is_whitespace_text(&text("a")));
    assert!(!is_whitespace_text(&bold(vec![])));
}

#[test]
fn jsx_layout_whitespace_is_dropped() {
    let v = vec![text("\n  "), jsx(), text("\n"), para(vec![text(" ")]), para(vec![text("x")])];
    assert_eq!(strip_jsx_layout_whitespace(v), vec![jsx(), para(vec![text("x")])]);
    let kept = vec![text("a"), jsx()];
    assert_eq!(strip_jsx_layout_whitespace(kept), vec![text("a"), jsx()]);
}

#[test]
fn jsx_only_paragraphs_are_unwrapped() {
    assert_eq!(unwrap_jsx_only_paragraphs(vec![para(vec![text("a")])]), vec![text("a")]);
    assert_eq!(
        unwrap_jsx_only_paragraphs(vec![para(vec![jsx(), text(" "), jsx()]), text("b")]),
        vec![jsx(), jsx(), text("b")]
    );
    let html = Node::Html(Html { value: "<hr>".into(), span: sp() });
    let html2 = Node::Html(Html { value: "<hr>".into(), span: sp() });
    assert_eq!(
        unwrap_jsx_only_paragraphs(vec![para(vec![text(" ")]), html]),
        vec![para(vec![text(" ")]), html2]
    );
}
