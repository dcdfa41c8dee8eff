use dmc_parser::ast::{Link, Node, Span, Text};
use dmc_parser::ast::{BreakNode, FootnoteRef, Html, Inline};
use dmc_parser::inline_run::{code_span_value, contains_link, is_top_level_break, list_start};
use dmc_parser::parser::Parser;
use dmc_parser::emphasis::{DelimRecord, EmphasisChar};
use dmc_parser::token::{AutolinkKind, Token, TokenKind};
use dmc_parser::ParseOptions;

fn at() -> Span {
    Span { file: String::new(), line: 1, column: 1, length: 1 }
}

fn tok(kind: TokenKind, raw: &str) -> Token {
    Token::new(kind, raw.to_string(), at(), 0)
}

fn csv(s: &str) -> String {
    code_span_value(&s.chars().collect()).into_iter().collect()
}

#[test]
fn code_span_values_follow_commonmark() {
    assert_eq!(csv(" a "), "a");
    assert_eq!(csv("  a  "), " a ");
    assert_eq!(csv("   "), "   ");
    assert_eq!(csv("a\nb"), "a b");
    assert_eq!(csv("\na\n"), "a");
    assert_eq!(csv(" a"), " a");
    assert_eq!(csv(""), "");
}

#[test]
fn code_span_runs_to_its_closing_run() {
    let mut p = Parser::new(vec![
        tok(TokenKind::CodeInlineOpen(2), "``"),
        tok(TokenKind::Text, " a "),
        tok(TokenKind::CodeInlineClose(1), "`"),
        tok(TokenKind::Text, " b "),
        tok(TokenKind::CodeInlineClose(2), "``"),
        tok(TokenKind::Text, "after"),
    ]);
    match p.parse_code_span() {
        Node::InlineCode(c) => assert_eq!(c.value, "a ` b"),
        _ => panic!("expected code"),
    }
    assert_eq!(p.pos, 5);
    let mut q = Parser::new(vec![tok(TokenKind::CodeInlineOpen(1), "`"), tok(TokenKind::Text, "x"), tok(TokenKind::Eof, "")]);
    match q.parse_code_span() {
        Node::InlineCode(c) => assert_eq!(c.value, "x"),
        _ => panic!("expected code"),
    }
    assert_eq!(q.pos, 2);
}

fn link(href: &str, shown: &str) -> Node {
    Node::Link(Link {
        href: href.to_string(),
        title: None,
        children: vec![Node::Text(Text { value: shown.to_string(), span: at() })],
        span: at(),
    })
}

#[test]
fn autolinks_resolve_by_form() {
    let mut p = Parser::new(vec![
        tok(TokenKind::Autolink(AutolinkKind::AngleUrl), "<https://a.b>"),
        tok(TokenKind::Autolink(AutolinkKind::AngleEmail), "<me@x.y>"),
        tok(TokenKind::Autolink(AutolinkKind::BareWww), "www.x.y"),
        tok(TokenKind::Autolink(AutolinkKind::BareUrl), "https://c.d"),
    ]);
    assert_eq!(p.autolink_node(), link("https://a.b", "https://a.b"));
    assert_eq!(p.autolink_node(), link("mailto:me@x.y", "me@x.y"));
    assert_eq!(p.autolink_node(), Node::Text(Text { value: "www.x.y".to_string(), span: at() }));
    assert_eq!(p.autolink_node(), Node::Text(Text { value: "https://c.d".to_string(), span: at() }));
    let gfm = ParseOptions { cm_strict_html_blocks: false, gfm_autolinks: true, legacy_gfm_emphasis: false };
    let mut q = Parser::new_with_options(
        vec![
            tok(TokenKind::Autolink(AutolinkKind::BareWww), "www.x.y"),
            tok(TokenKind::Autolink(AutolinkKind::BareUrl), "https://c.d"),
        ],
        gfm,
    );
    assert_eq!(q.autolink_node(), link("http://www.x.y", "www.x.y"));
    assert_eq!(q.autolink_node(), link("https://c.d", "https://c.d"));
}

fn flags(prev: Option<&str>, c: EmphasisChar, next: Option<TokenKind>, next_raw: &str) -> (bool, bool) {
    let mut ts = Vec::new();
    if let Some(pr) = prev {
        ts.push(tok(TokenKind::Text, pr));
    }
    let pos = ts.len();
    ts.push(tok(TokenKind::Emphasis(c, 1), "*"));
    if let Some(k) = next {
        ts.push(tok(k, next_raw));
    }
    let mut p = Parser::new(ts);
    p.pos = pos;
    p.delim_flanking(c)
}

#[test]
fn delimiter_flanking() {
    let star = EmphasisChar::Asterisk;
    let under = EmphasisChar::Underscore;
    assert_eq!(flags(None, star, Some(TokenKind::Text), "foo"), (true, false));
    assert_eq!(flags(Some("foo"), star, None, ""), (false, true));
    assert_eq!(flags(Some("a"), star, Some(TokenKind::Text), "b"), (true, true));
    assert_eq!(flags(Some("a"), under, Some(TokenKind::Text), "b"), (false, false));
    assert_eq!(flags(Some("a"), under, Some(TokenKind::SoftBreak), "\n"), (false, true));
    assert_eq!(flags(Some(" "), star, Some(TokenKind::Whitespace(1)), " "), (false, false));
    assert_eq!(flags(Some("a"), star, Some(TokenKind::Text), "\"b"), (false, true));
    assert_eq!(flags(Some("\""), star, Some(TokenKind::Text), "b"), (true, false));
    assert_eq!(flags(Some("é"), under, Some(TokenKind::Text), "!"), (false, true));
}

#[test]
fn ordered_list_start_comes_from_the_leading_digits() {
    assert_eq!(list_start("1."), Some(1));
    assert_eq!(list_start("007)"), Some(7));
    assert_eq!(list_start("4294967295."), Some(4294967295));
    assert_eq!(list_start("4294967296."), None);
    assert_eq!(list_start("99999999999999999999999."), None);
    assert_eq!(list_start("."), None);
    assert_eq!(list_start(""), None);
}

#[test]
fn strikethrough_needs_a_closer_on_the_line() {
    let mut p = Parser::new(vec![
        tok(TokenKind::Strikethrough, "~~"),
        tok(TokenKind::Text, "a"),
        tok(TokenKind::Strikethrough, "~~"),
    ]);
    assert!(p.strike_has_closer());
    p = Parser::new(vec![
        tok(TokenKind::Strikethrough, "~~"),
        tok(TokenKind::SoftBreak, "\n"),
        tok(TokenKind::Strikethrough, "~~"),
    ]);
    assert!(!p.strike_has_closer());
    assert!(is_top_level_break(TokenKind::JsxCloseTagStart));
    assert!(!is_top_level_break(TokenKind::HardBreak));
}

#[test]
fn links_are_found_through_emphasis() {
    let text = || Node::Text(Text { value: "a".to_string(), span: at() });
    assert!(!contains_link(&vec![text()]));
    assert!(contains_link(&vec![text(), link("/u", "u")]));
    let nested = Node::Italic(Inline {
        children: vec![Node::Bold(Inline { children: vec![link("/u", "u")], span: at() })],
        span: at(),
    });
    assert!(contains_link(&vec![nested]));
    let plain = Node::Strikethrough(Inline { children: vec![text()], span: at() });
    assert!(!contains_link(&vec![plain]));
}

#[test]
fn an_end_tag_of_an_open_element_ends_the_run() {
    let toks = vec![tok(TokenKind::JsxCloseTagStart, "</"), tok(TokenKind::JsxTagName, "Card"), tok(TokenKind::JsxCloseTagEnd, ">")];
    let mut p = Parser::new(toks);
    assert!(!p.jsx_close_tag_closes_enclosing());
    p.jsx_open_stack.push("Tabs".to_string());
    assert!(!p.jsx_close_tag_closes_enclosing());
    p.jsx_open_stack.push("Card".to_string());
    assert!(p.jsx_close_tag_closes_enclosing());
    p.pos = 1;
    assert!(!p.jsx_close_tag_closes_enclosing());
}

fn text(v: &str) -> Node {
    Node::Text(Text { value: v.to_string(), span: at() })
}

#[test]
fn inline_html_runs_to_its_closer() {
    let mut p = Parser::new(vec![
        tok(TokenKind::HtmlCommentOpen, "<!--"),
        tok(TokenKind::Text, " x "),
        tok(TokenKind::HtmlBlockClose, "?>"),
        tok(TokenKind::HtmlCommentClose, "-->"),
        tok(TokenKind::Text, "after"),
    ]);
    assert_eq!(p.inline_html(), Node::Html(Html { value: "<!-- x ?>-->".to_string(), span: at() }));
    assert_eq!(p.pos, 4);
    let mut q = Parser::new(vec![tok(TokenKind::HtmlBlockOpen, "<?"), tok(TokenKind::Text, "y"), tok(TokenKind::Eof, "")]);
    assert_eq!(q.inline_html(), Node::Html(Html { value: "<?y".to_string(), span: at() }));
    assert_eq!(q.pos, 2);
}

#[test]
fn footnote_refs_and_entities() {
    let mut p = Parser::new(vec![
        tok(TokenKind::FootnoteRefOpen, "[^note-1]"),
        tok(TokenKind::EntityRef, "&amp;"),
        tok(TokenKind::EntityRef, "&nosuch;"),
    ]);
    assert_eq!(p.footnote_ref_node(), Node::FootnoteRef(FootnoteRef { id: "note-1".to_string(), span: at() }));
    assert_eq!(p.entity_ref_node(), text("&"));
    assert_eq!(p.entity_ref_node(), text("&nosuch;"));
    assert_eq!(p.pos, 3);
}

#[test]
fn hard_breaks_drop_what_made_them() {
    let hb = || Node::HardBreak(BreakNode { span: at() });
    let mut p = Parser::new(vec![tok(TokenKind::HardBreak, "\n"), tok(TokenKind::Text, "next")]);
    let mut out = vec![text("foo"), text("  "), text("\t")];
    p.push_hard_break(&mut out);
    assert_eq!(out, vec![text("foo"), hb()]);
    assert_eq!(p.pos, 1);

    let mut p = Parser::new(vec![tok(TokenKind::HardBreak, "\n"), tok(TokenKind::Text, "next")]);
    let mut out = vec![text("foo\\")];
    p.push_hard_break(&mut out);
    assert_eq!(out, vec![text("foo"), hb()]);

    let mut p = Parser::new(vec![tok(TokenKind::HardBreak, "\n"), tok(TokenKind::Text, "next")]);
    let mut out = vec![text("a"), text("\\")];
    p.push_hard_break(&mut out);
    assert_eq!(out, vec![text("a"), hb()]);

    let mut p = Parser::new(vec![tok(TokenKind::HardBreak, "\n"), tok(TokenKind::Eof, "")]);
    let mut out = vec![text("foo\\")];
    p.push_hard_break(&mut out);
    assert_eq!(out, vec![text("foo\\"), hb()]);
}

#[test]
fn delimiter_runs_go_out_as_placeholders() {
    let mut p = Parser::new(vec![
        tok(TokenKind::Text, "a"),
        tok(TokenKind::Emphasis(EmphasisChar::Asterisk, 2), "**"),
        tok(TokenKind::Text, "b"),
    ]);
    p.pos = 1;
    let mut out = vec![text("a")];
    let mut delims: Vec<DelimRecord> = Vec::new();
    p.push_emphasis_delim(&mut out, &mut delims);
    assert_eq!(out, vec![text("a"), text("**")]);
    assert_eq!(delims.len(), 1);
    let d = &delims[0];
    assert_eq!((d.c, d.run, d.can_open, d.can_close, d.out_idx), (EmphasisChar::Asterisk, 2, true, true, 1));
    assert_eq!(p.pos, 2);
}

#[test]
fn text_tokens_unescape_and_split_addresses() {
    let mut p = Parser::new(vec![tok(TokenKind::Text, "a\\*b")]);
    let mut out = Vec::new();
    let mut delims: Vec<DelimRecord> = Vec::new();
    p.push_text(&mut out, &mut delims);
    assert_eq!(out, vec![text("a*b")]);

    let gfm = ParseOptions { cm_strict_html_blocks: false, gfm_autolinks: true, legacy_gfm_emphasis: false };
    let mut q = Parser::new_with_options(vec![tok(TokenKind::Text, "mail me@x.org now")], gfm);
    let mut out = Vec::new();
    q.push_text(&mut out, &mut delims);
    assert_eq!(out.len(), 3);
    assert_eq!(out[0], text("mail "));
    assert!(matches!(&out[1], Node::Link(l) if l.href == "mailto:me@x.org"));
    assert_eq!(out[2], text(" now"));

    let mut r = Parser::new(vec![tok(TokenKind::Text, "me@x.org")]);
    let mut out = Vec::new();
    r.push_text(&mut out, &mut delims);
    assert_eq!(out, vec![text("me@x.org")]);

    let mut s = Parser::new_with_options(
        vec![
            tok(TokenKind::Text, "foo@bar"),
            tok(TokenKind::Emphasis(EmphasisChar::Underscore, 1), "_"),
            tok(TokenKind::Eof, ""),
        ],
        gfm,
    );
    let mut out = Vec::new();
    s.push_text(&mut out, &mut delims);
    assert_eq!(out, vec![text("foo@bar")]);
    assert_eq!(s.pos, 1);
}

#[test]
fn other_tokens_go_out_verbatim() {
    let mut p = Parser::new(vec![tok(TokenKind::LinkClose, "]"), tok(TokenKind::HeadingTrailingHashes, "")]);
    let mut out = Vec::new();
    p.push_literal(&mut out);
    p.push_literal(&mut out);
    assert_eq!(out, vec![text("]")]);
    assert_eq!(p.pos, 2);
}
