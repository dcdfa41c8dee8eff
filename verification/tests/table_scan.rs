use dmc_parser::ast::Span;
use dmc_parser::parser::Parser;
use dmc_parser::table::TableAlign;
use dmc_parser::token::{Token, TokenKind};

fn tok(kind: TokenKind, raw: &str, line: usize) -> Token {
    Token::new(kind, raw.to_string(), Span { file: String::new(), line, column: 1, length: 1 }, 0)
}

#[test]
fn a_table_is_read_row_by_row() {
    let mut p = Parser::new(vec![
        tok(TokenKind::Text, "| a | b |", 1),
        tok(TokenKind::SoftBreak, "\n", 1),
        tok(TokenKind::Text, "|---|:--:|", 2),
        tok(TokenKind::SoftBreak, "\n", 2),
        tok(TokenKind::Text, "| 1 | 2 | 3 |", 3),
        tok(TokenKind::SoftBreak, "\n", 3),
        tok(TokenKind::Text, "x", 4),
        tok(TokenKind::BlankLine, "\n\n", 4),
        tok(TokenKind::Text, "after", 6),
    ]);
    let t = p.try_parse_table().expect("a table");
    assert_eq!(t.aligns, vec![TableAlign::Unset, TableAlign::Center]);
    assert_eq!(t.header, vec![" a ", " b "]);
    assert_eq!(t.rows.len(), 2);
    assert_eq!(t.rows[0].0, vec![" 1 ", " 2 "]);
    assert_eq!(t.rows[0].1.line, 3);
    assert_eq!(t.rows[1].0, vec!["x", ""]);
    assert_eq!(t.span.line, 1);
    assert_eq!(p.pos, 7);
}

#[test]
fn a_table_stops_at_another_block() {
    let mut p = Parser::new(vec![
        tok(TokenKind::Text, "a|b", 1),
        tok(TokenKind::SoftBreak, "\n", 1),
        tok(TokenKind::Text, "-|-", 2),
        tok(TokenKind::SoftBreak, "\n", 2),
        tok(TokenKind::Text, "> quote", 3),
    ]);
    let t = p.try_parse_table().expect("a table");
    assert!(t.rows.is_empty());
    assert_eq!(p.pos, 4);
}

#[test]
fn lines_that_are_no_table_leave_the_cursor() {
    let mut p = Parser::new(vec![tok(TokenKind::Text, "no pipes", 1), tok(TokenKind::SoftBreak, "\n", 1)]);
    assert!(p.try_parse_table().is_none());
    assert_eq!(p.pos, 0);
    let mut q = Parser::new(vec![
        tok(TokenKind::Text, "| a | b |", 1),
        tok(TokenKind::SoftBreak, "\n", 1),
        tok(TokenKind::Text, "| c | d |", 2),
    ]);
    assert!(q.try_parse_table().is_none());
    assert_eq!(q.pos, 0);
    let mut r = Parser::new(vec![
        tok(TokenKind::Text, "| a | b |", 1),
        tok(TokenKind::SoftBreak, "\n", 1),
        tok(TokenKind::Text, "|---|", 2),
    ]);
    assert!(r.try_parse_table().is_none());
    assert_eq!(r.pos, 0);
    assert_eq!(r.collect_line_text(), ("| a | b |".to_string(), 1));
}
