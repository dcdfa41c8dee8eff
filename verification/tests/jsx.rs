use dmc_parser::ast::{JsxAttr, JsxAttrValue, JsxExpression, Node, Span};
use dmc_parser::parser::Parser;
use dmc_parser::token::{QuoteKind, Token, TokenKind};

fn sp(column: usize) -> Span {
    Span { file: String::new(), line: 1, column, length: 1 }
}

fn tok(kind: TokenKind, raw: &str, column: usize) -> Token {
    Token::new(kind, raw.to_string(), sp(column), 0)
}

#[test]
fn expressions_keep_their_text() {
    let mut p = Parser::new(vec![
        tok(TokenKind::ExpressionStart, "{", 1),
        tok(TokenKind::Text, "a + ", 2),
        tok(TokenKind::Text, "b", 6),
        tok(TokenKind::ExpressionEnd, "}", 7),
        tok(TokenKind::Text, "x", 8),
    ]);
    assert_eq!(p.parse_jsx_expression(), Node::JsxExpression(JsxExpression { value: "a + b".to_string(), span: sp(1) }));
    assert_eq!(p.pos, 4);
}

#[test]
fn attributes_of_every_form() {
    let mut p = Parser::new(vec![
        tok(TokenKind::Whitespace(1), " ", 1),
        tok(TokenKind::JsxAttributeName, "title", 2),
        tok(TokenKind::JsxAttrEq, "=", 7),
        tok(TokenKind::JsxAttrStringOpen(QuoteKind::Double), "\"", 8),
        tok(TokenKind::JsxAttrString, "Hi", 9),
        tok(TokenKind::JsxAttrStringClose(QuoteKind::Double), "\"", 11),
        tok(TokenKind::Whitespace(1), " ", 12),
        tok(TokenKind::JsxAttributeName, "n", 13),
        tok(TokenKind::JsxAttrEq, "=", 14),
        tok(TokenKind::ExpressionStart, "{", 15),
        tok(TokenKind::Text, "1+2", 16),
        tok(TokenKind::ExpressionEnd, "}", 19),
        tok(TokenKind::Whitespace(1), " ", 20),
        tok(TokenKind::JsxAttributeName, "open", 21),
        tok(TokenKind::Whitespace(1), " ", 25),
        tok(TokenKind::ExpressionStart, "{", 26),
        tok(TokenKind::JsxAttributeSpread, "...rest", 27),
        tok(TokenKind::ExpressionEnd, "}", 34),
        tok(TokenKind::JsxSelfClosingEnd, "/>", 35),
    ]);
    let attrs = p.parse_jsx_attrs();
    assert_eq!(
        attrs,
        vec![
            JsxAttr { name: "title".to_string(), value: JsxAttrValue::String("Hi".to_string()), span: sp(2) },
            JsxAttr { name: "n".to_string(), value: JsxAttrValue::Expression("1+2".to_string()), span: sp(13) },
            JsxAttr { name: "open".to_string(), value: JsxAttrValue::Boolean, span: sp(21) },
            JsxAttr { name: String::new(), value: JsxAttrValue::Spread("...rest".to_string()), span: sp(26) },
        ]
    );
    assert_eq!(p.pos, 18);
}

#[test]
fn no_attributes_leave_the_cursor_past_whitespace() {
    let mut p = Parser::new(vec![tok(TokenKind::Whitespace(1), " ", 1), tok(TokenKind::JsxOpenTagEnd, ">", 2)]);
    assert!(p.parse_jsx_attrs().is_empty());
    assert_eq!(p.pos, 1);
}
