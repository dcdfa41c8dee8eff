use dmc_parser::ast::{Node, Span, Text};
use dmc_parser::link::inline_link_target_of;
use dmc_parser::parser::Parser;
use dmc_parser::token::{Token, TokenKind};

fn tok(kind: TokenKind, raw: &str, column: usize) -> Token {
    Token::new(kind, raw.to_string(), Span { file: String::new(), line: 1, column, length: 1 }, 0)
}

fn head() -> Vec<Token> {
    vec![
        tok(TokenKind::LinkOpen, "[", 1),
        tok(TokenKind::Text, "a", 2),
        tok(TokenKind::LinkClose, "]", 3),
        tok(TokenKind::LinkTargetOpen, "(", 4),
    ]
}

#[test]
fn destination_runs_to_its_closing_paren() {
    let mut ts = head();
    ts.extend(vec![
        tok(TokenKind::Text, "/u", 5),
        tok(TokenKind::LinkTargetOpen, "(", 7),
        tok(TokenKind::Text, "x", 8),
        tok(TokenKind::LinkTargetClose, ")", 9),
        tok(TokenKind::LinkTargetClose, ")", 10),
        tok(TokenKind::Text, "after", 11),
    ]);
    let mut p = Parser::new(ts);
    p.pos = 4;
    assert_eq!(p.scan_link_destination(0), (8, true, true));
    assert_eq!(p.pos, 9);
    assert!(p.diagnostics.is_empty());
}

#[test]
fn angle_destinations_keep_their_parens() {
    let mut ts = head();
    ts.extend(vec![
        tok(TokenKind::Text, "<a", 5),
        tok(TokenKind::LinkTargetClose, ")", 7),
        tok(TokenKind::Text, "b>", 8),
        tok(TokenKind::LinkTargetClose, ")", 10),
    ]);
    let mut p = Parser::new(ts);
    p.pos = 4;
    assert_eq!(p.scan_link_destination(0), (7, true, true));
}

#[test]
fn unclosed_destination_is_reported() {
    let mut ts = head();
    ts.extend(vec![tok(TokenKind::Text, "/u", 5), tok(TokenKind::BlankLine, "\n\n", 7), tok(TokenKind::Eof, "", 1)]);
    let mut p = Parser::new(ts);
    p.pos = 4;
    assert_eq!(p.scan_link_destination(0), (5, false, false));
    assert_eq!(p.pos, 5);
    assert_eq!(p.diagnostics.len(), 1);
    assert_eq!(p.diagnostics[0].code(), "P001");
    assert_eq!(p.diagnostics[0].span.column, 1);
    assert_eq!(
        p.diagnostics[0].message(),
        "inline link destination did not close before the end of the line; treating it as literal text"
    );
    assert_eq!(
        p.diagnostics[0].help(),
        "add a closing `)` to finish `[text](...)`, or escape the `[` if this should stay literal"
    );
}

#[test]
fn destination_text_gives_href_and_title() {
    assert_eq!(inline_link_target_of("/u \"t\"", true), Some(("/u".to_string(), Some("t".to_string()))));
    assert_eq!(inline_link_target_of("/a\\*b&amp;c", true), Some(("/a*b&c".to_string(), None)));
    assert_eq!(inline_link_target_of("/u", false), None);
    assert_eq!(inline_link_target_of("/u junk", true), None);
}

#[test]
fn labels_resolve_by_raw_text_then_plain_text() {
    let mut p = Parser::new(vec![tok(TokenKind::LinkRefDef, "[foo]: /f \"T\"", 1), tok(TokenKind::Eof, "", 1)]);
    p.collect_refs();
    let t = |v: &str| Node::Text(Text { value: v.to_string(), span: Span { file: String::new(), line: 1, column: 1, length: 1 } });
    assert_eq!(p.resolve_label("FOO", &vec![]), Some(("/f".to_string(), Some("T".to_string()))));
    assert_eq!(p.resolve_label("*foo*", &vec![t("foo")]), Some(("/f".to_string(), Some("T".to_string()))));
    assert_eq!(p.resolve_label("bar", &vec![t("bar")]), None);
}
