use dmc_parser::html::{unquote_html_block, HtmlBlockMode};
use dmc_parser::ast::{Blockquote, BreakNode, ListItem, Node, Paragraph, Span, Text};
use dmc_parser::heading::trim_heading_children;
use dmc_parser::block::close_blockquote_level;
use dmc_parser::parser::Parser;
use dmc_parser::route::BlockStart;
use dmc_parser::token::{FenceChar, OrderedSep, QuoteKind, Token, TokenKind};
use dmc_parser::ParseOptions;

fn at(line: usize, column: usize) -> Span {
    Span { file: String::new(), line, column, length: 1 }
}

fn tok(kind: TokenKind, raw: &str) -> Token {
    Token::new(kind, raw.to_string(), at(1, 1), 0)
}

fn tok_at(kind: TokenKind, raw: &str, line: usize, column: usize) -> Token {
    Token::new(kind, raw.to_string(), at(line, column), 0)
}

fn code_of(n: &Node) -> (Option<String>, Option<String>, String) {
    match n {
        Node::CodeBlock(c) => (c.lang.clone(), c.meta.clone(), c.value.clone()),
        _ => panic!("expected a code block"),
    }
}

#[test]
fn new_parser_starts_at_the_first_token() {
    let p = Parser::new(vec![tok(TokenKind::Text, "a"), tok(TokenKind::Eof, "")]);
    assert_eq!(p.pos, 0);
    assert!(p.refs.is_empty());
    assert!(!p.options.gfm_autolinks);
    assert!(p.source.is_none());
    assert!(!p.is_eof());
    let opts = ParseOptions { cm_strict_html_blocks: true, gfm_autolinks: true, legacy_gfm_emphasis: false };
    let q = Parser::new_with_options(vec![], opts).with_source("x".to_string());
    assert!(q.options.gfm_autolinks);
    assert_eq!(q.source.as_deref(), Some("x"));
    assert!(q.is_eof());
}

#[test]
fn advance_stops_at_the_end() {
    let mut p = Parser::new(vec![tok(TokenKind::Text, "a"), tok(TokenKind::Eof, "")]);
    assert_eq!(p.peek_kind(), Some(TokenKind::Text));
    assert!(p.advance());
    assert!(p.is_eof());
    assert!(p.advance());
    assert_eq!(p.peek_kind(), None);
    assert!(!p.advance());
    assert_eq!(p.pos, 2);
    assert_eq!(p.current_span().line, 0);
    assert_eq!(p.span_at(0).line, 1);
}

#[test]
fn collect_refs_harvests_definitions() {
    let mut p = Parser::new(vec![
        tok(TokenKind::LinkRefDef, "[Foo]: /u\\*&amp; \"T&lt;\""),
        tok(TokenKind::SoftBreak, "\n"),
        tok(TokenKind::LinkRefDef, "[foo]: /second"),
        tok(TokenKind::Eof, ""),
    ]);
    p.collect_refs();
    assert_eq!(p.refs.get("FOO"), Some(&("/u*&".to_string(), Some("T<".to_string()))));
    assert_eq!(p.pos, 0);
}

#[test]
fn collect_refs_skips_a_definition_inside_a_paragraph() {
    let mut p = Parser::new(vec![
        tok(TokenKind::Text, "para"),
        tok(TokenKind::SoftBreak, "\n"),
        tok(TokenKind::LinkRefDef, "[bar]: /b"),
        tok(TokenKind::BlankLine, "\n\n"),
        tok(TokenKind::LinkRefDef, "[baz]: /z"),
        tok(TokenKind::Eof, ""),
    ]);
    p.collect_refs();
    assert_eq!(p.refs.get("bar"), None);
    assert_eq!(p.refs.get("baz"), Some(&("/z".to_string(), None)));
}

#[test]
fn collect_refs_accepts_a_definition_after_a_heading_line() {
    let mut p = Parser::new(vec![
        tok(TokenKind::Heading(1), "#"),
        tok(TokenKind::Text, " Title"),
        tok(TokenKind::SoftBreak, "\n"),
        tok(TokenKind::LinkRefDef, "[h]: /h"),
        tok(TokenKind::Eof, ""),
    ]);
    p.collect_refs();
    assert_eq!(p.refs.get("h"), Some(&("/h".to_string(), None)));
}

#[test]
fn setext_underline_levels() {
    let p = Parser::new(vec![tok(TokenKind::SetextUnderline, "===")]);
    assert_eq!(p.setext_underline_level(), Some(1));
    let p = Parser::new(vec![tok(TokenKind::ThematicBreak, "---  \t")]);
    assert_eq!(p.setext_underline_level(), Some(2));
    let p = Parser::new(vec![tok(TokenKind::ThematicBreak, "***")]);
    assert_eq!(p.setext_underline_level(), None);
    let p = Parser::new(vec![tok(TokenKind::ThematicBreak, "- - -")]);
    assert_eq!(p.setext_underline_level(), None);
    let p = Parser::new(vec![tok(TokenKind::Text, "---")]);
    assert_eq!(p.setext_underline_level(), None);
    let mut p = Parser::new(vec![tok(TokenKind::ThematicBreak, "***"), tok(TokenKind::Text, "x")]);
    p.eat_setext_underline();
    assert_eq!(p.pos, 1);
    p.eat_setext_underline();
    assert_eq!(p.pos, 1);
}

#[test]
fn frontmatter_keeps_its_content_raw() {
    let mut p = Parser::new(vec![
        tok(TokenKind::FrontmatterStart, "---"),
        tok(TokenKind::FrontmatterContent, "title: x"),
        tok(TokenKind::FrontmatterEnd, "---"),
        tok(TokenKind::Eof, ""),
    ]);
    match p.parse_frontmatter() {
        Node::Frontmatter(f) => assert_eq!(f.raw, "title: x"),
        _ => panic!("expected front matter"),
    }
    assert_eq!(p.pos, 3);
    let mut p = Parser::new(vec![tok(TokenKind::FrontmatterStart, "---"), tok(TokenKind::FrontmatterEnd, "---")]);
    match p.parse_frontmatter() {
        Node::Frontmatter(f) => assert_eq!(f.raw, ""),
        _ => panic!("expected front matter"),
    }
    assert_eq!(p.pos, 2);
}

#[test]
fn esm_lines_and_rules_take_one_token() {
    let mut p = Parser::new(vec![
        tok(TokenKind::Import, "import A from 'a'"),
        tok(TokenKind::Export, "export const b = 1"),
        tok(TokenKind::ThematicBreak, "***"),
    ]);
    assert!(matches!(p.import_node(), Node::Import(i) if i.raw == "import A from 'a'"));
    assert!(matches!(p.export_node(), Node::Export(e) if e.raw == "export const b = 1"));
    assert!(matches!(p.thematic_break_node(), Node::HorizontalRule(_)));
    assert_eq!(p.pos, 3);
}

#[test]
fn indented_code_joins_lines_and_keeps_inner_blank_lines() {
    let mut p = Parser::new(vec![
        tok(TokenKind::Whitespace(4), "    "),
        tok(TokenKind::IndentedCodeLine, "a"),
        tok(TokenKind::SoftBreak, "\n"),
        tok(TokenKind::Whitespace(4), "    "),
        tok(TokenKind::IndentedCodeLine, "b"),
        tok(TokenKind::BlankLine, "\n\n"),
        tok(TokenKind::Whitespace(4), "    "),
        tok(TokenKind::IndentedCodeLine, "c"),
        tok(TokenKind::SoftBreak, "\n"),
        tok(TokenKind::Text, "x"),
    ]);
    let n = p.parse_indented_code();
    assert_eq!(code_of(&n), (None, None, "a\nb\n\nc\n".to_string()));
    assert_eq!(p.pos, 8);
}

#[test]
fn indented_code_leaves_trailing_blank_lines() {
    let mut p = Parser::new(vec![
        tok(TokenKind::Whitespace(4), "    "),
        tok(TokenKind::IndentedCodeLine, "only"),
        tok(TokenKind::BlankLine, "\n\n"),
        tok(TokenKind::Text, "para"),
    ]);
    let n = p.parse_indented_code();
    assert_eq!(code_of(&n).2, "only\n");
    assert_eq!(p.pos, 2);
}

#[test]
fn fenced_code_reads_info_and_content() {
    let mut p = Parser::new(vec![
        tok_at(TokenKind::CodeFenceOpen(FenceChar::Backtick, 3), "```", 1, 1),
        tok_at(TokenKind::CodeFenceInfo, " rust  extra  ", 1, 4),
        tok_at(TokenKind::CodeFenceContent, "fn main() {}", 2, 1),
        tok_at(TokenKind::CodeFenceClose(FenceChar::Backtick, 4), "````", 3, 1),
        tok_at(TokenKind::Eof, "", 4, 1),
    ]);
    let n = p.parse_code_block();
    assert_eq!(
        code_of(&n),
        (Some("rust".to_string()), Some("extra".to_string()), "fn main() {}\n".to_string())
    );
    assert_eq!(p.pos, 4);
}

#[test]
fn fenced_code_decodes_its_info_string() {
    let mut p = Parser::new(vec![
        tok_at(TokenKind::CodeFenceOpen(FenceChar::Tilde, 3), "~~~", 1, 1),
        tok_at(TokenKind::CodeFenceInfo, "c&amp;d", 1, 4),
        tok_at(TokenKind::CodeFenceClose(FenceChar::Tilde, 3), "~~~", 2, 1),
    ]);
    let n = p.parse_code_block();
    assert_eq!(code_of(&n), (Some("c&d".to_string()), None, String::new()));
    assert_eq!(p.pos, 3);
}

#[test]
fn fenced_code_info_on_the_next_line_is_content() {
    let mut p = Parser::new(vec![
        tok_at(TokenKind::CodeFenceOpen(FenceChar::Backtick, 3), "```", 1, 1),
        tok_at(TokenKind::Text, "body", 2, 1),
        tok_at(TokenKind::CodeFenceClose(FenceChar::Backtick, 3), "```", 3, 1),
    ]);
    let n = p.parse_code_block();
    assert_eq!(code_of(&n), (None, None, "body\n".to_string()));
}

#[test]
fn unterminated_fence_runs_to_the_end() {
    let mut p = Parser::new(vec![
        tok_at(TokenKind::CodeFenceOpen(FenceChar::Backtick, 3), "```", 1, 1),
        tok_at(TokenKind::CodeFenceContent, "a\n", 2, 1),
        tok_at(TokenKind::CodeFenceClose(FenceChar::Tilde, 3), "~~~", 3, 1),
        tok_at(TokenKind::CodeFenceClose(FenceChar::Backtick, 2), "``", 4, 1),
        tok_at(TokenKind::Eof, "", 5, 1),
    ]);
    let n = p.parse_code_block();
    assert_eq!(code_of(&n).2, "a\n~~~``\n");
    assert_eq!(p.pos, 4);
    assert!(p.is_eof());
}

#[test]
fn indented_fence_takes_its_indent_off_each_line() {
    let mut p = Parser::new(vec![
        tok_at(TokenKind::CodeFenceOpen(FenceChar::Backtick, 3), "```", 1, 3),
        tok_at(TokenKind::CodeFenceContent, "  a\n   b\nc", 2, 1),
        tok_at(TokenKind::CodeFenceClose(FenceChar::Backtick, 3), "```", 3, 3),
    ]);
    let n = p.parse_code_block();
    assert_eq!(code_of(&n).2, "a\n b\nc\n");
}

#[test]
fn quoted_fence_loses_its_quote_markers() {
    let mut p = Parser::new(vec![
        tok_at(TokenKind::CodeFenceOpen(FenceChar::Backtick, 3), "```", 1, 3),
        tok_at(TokenKind::CodeFenceContent, "> x\n>  y", 2, 1),
        tok_at(TokenKind::CodeFenceClose(FenceChar::Backtick, 3), "```", 3, 3),
        tok_at(TokenKind::Text, "after", 4, 1),
    ]);
    let n = p.parse_code_block_in_blockquote(1);
    assert_eq!(code_of(&n).2, "x\n y\n");
    assert_eq!(p.pos, 3);
}

#[test]
fn raw_html_block_is_kept_verbatim() {
    let mut p = Parser::new(vec![
        tok(TokenKind::HtmlBlockOpen, "<!--"),
        tok(TokenKind::Text, " hi "),
        tok(TokenKind::HtmlBlockClose, "-->"),
        tok(TokenKind::Text, "after"),
    ]);
    match p.parse_html_block() {
        Node::Html(h) => assert_eq!(h.value, "<!-- hi -->"),
        _ => panic!("expected html"),
    }
    assert_eq!(p.pos, 3);
    let mut q = Parser::new(vec![tok(TokenKind::HtmlBlockOpen, "<?"), tok(TokenKind::Text, "x"), tok(TokenKind::Eof, "")]);
    match q.parse_html_block() {
        Node::Html(h) => assert_eq!(h.value, "<?x"),
        _ => panic!("expected html"),
    }
    assert_eq!(q.pos, 2);
}

#[test]
fn unterminated_fence_is_reported_once() {
    let mut p = Parser::new(vec![
        tok_at(TokenKind::CodeFenceOpen(FenceChar::Backtick, 3), "```", 1, 1),
        tok_at(TokenKind::Eof, "", 2, 1),
    ]);
    let n = p.parse_code_block();
    assert_eq!(code_of(&n).2, "");
    assert_eq!(p.diagnostics.len(), 1);
    let d = &p.diagnostics[0];
    assert_eq!(d.code(), "P004");
    assert_eq!(
        d.message(),
        "fenced code block never found a matching closing fence; treating the rest of the file as code"
    );
    assert_eq!(d.help(), "add a closing fence with at least 3 ``` characters");
    assert_eq!(d.span.line, 1);
}

#[test]
fn closed_fence_reports_nothing() {
    let mut p = Parser::new(vec![
        tok_at(TokenKind::CodeFenceOpen(FenceChar::Tilde, 12), "~~~~~~~~~~~~", 1, 1),
        tok_at(TokenKind::CodeFenceClose(FenceChar::Tilde, 12), "~~~~~~~~~~~~", 2, 1),
    ]);
    p.parse_code_block();
    assert!(p.diagnostics.is_empty());
    let mut q = Parser::new(vec![tok_at(TokenKind::CodeFenceOpen(FenceChar::Tilde, 12), "~~~~~~~~~~~~", 1, 1)]);
    q.parse_code_block();
    assert_eq!(q.diagnostics[0].help(), "add a closing fence with at least 12 `~` characters");
}

fn tok_off(kind: TokenKind, raw: &str, offset: usize) -> Token {
    Token::new(kind, raw.to_string(), at(1, 1), offset)
}

#[test]
fn html_block_modes_follow_the_tag_name() {
    let p = Parser::new(vec![tok(TokenKind::JsxOpenTagStart, "<"), tok(TokenKind::JsxTagName, "DIV")]);
    assert!(matches!(p.jsx_html_block_mode(), Some(HtmlBlockMode::Type6)));
    let p = Parser::new(vec![tok(TokenKind::JsxCloseTagStart, "</"), tok(TokenKind::JsxTagName, "Script")]);
    assert!(matches!(p.jsx_html_block_mode(), Some(HtmlBlockMode::Type1(t)) if t == "script"));
    let p = Parser::new(vec![tok(TokenKind::JsxOpenTagStart, "<"), tok(TokenKind::JsxTagName, "Foo")]);
    assert!(p.jsx_html_block_mode().is_none());
    let p = Parser::new(vec![tok_at(TokenKind::JsxOpenTagStart, "<", 1, 5), tok(TokenKind::JsxTagName, "div")]);
    assert!(p.jsx_html_block_mode().is_none());
    let p = Parser::new(vec![tok(TokenKind::JsxOpenTagStart, "<")]);
    assert!(p.jsx_html_block_mode().is_none());
}

fn div_block() -> Vec<Token> {
    vec![
        tok_off(TokenKind::JsxOpenTagStart, "<", 0),
        tok_off(TokenKind::JsxTagName, "div", 1),
        tok_off(TokenKind::JsxOpenTagEnd, ">", 7),
        tok_off(TokenKind::SoftBreak, "\n", 8),
        tok_off(TokenKind::Text, "hi", 9),
        tok_off(TokenKind::BlankLine, "\n\n", 11),
        tok_off(TokenKind::Text, "next", 13),
    ]
}

#[test]
fn type6_html_block_runs_to_the_blank_line() {
    let mut p = Parser::new(div_block()).with_source("<div  a>\nhi\n\nnext".to_string());
    match p.parse_html_block_from_jsx(HtmlBlockMode::Type6) {
        Node::Html(h) => assert_eq!(h.value, "<div  a>\nhi"),
        _ => panic!("expected html"),
    }
    assert_eq!(p.pos, 5);
    let mut q = Parser::new(div_block());
    match q.parse_html_block_from_jsx(HtmlBlockMode::Type6) {
        Node::Html(h) => assert_eq!(h.value, "<div>\nhi"),
        _ => panic!("expected html"),
    }
}

#[test]
fn type1_html_block_runs_to_its_end_tag() {
    let src = "<script>x</pre></SCRIPT>after";
    let mut p = Parser::new(vec![
        tok_off(TokenKind::JsxOpenTagStart, "<", 0),
        tok_off(TokenKind::JsxTagName, "script", 1),
        tok_off(TokenKind::JsxOpenTagEnd, ">", 7),
        tok_off(TokenKind::Text, "x", 8),
        tok_off(TokenKind::JsxCloseTagStart, "</", 9),
        tok_off(TokenKind::JsxTagName, "pre", 11),
        tok_off(TokenKind::JsxCloseTagEnd, ">", 14),
        tok_off(TokenKind::JsxCloseTagStart, "</", 15),
        tok_off(TokenKind::JsxTagName, "SCRIPT", 17),
        tok_off(TokenKind::JsxCloseTagEnd, ">", 23),
        tok_off(TokenKind::Text, "after", 24),
    ])
    .with_source(src.to_string());
    match p.parse_html_block_from_jsx(HtmlBlockMode::Type1("script".to_string())) {
        Node::Html(h) => assert_eq!(h.value, "<script>x</pre></SCRIPT>after"),
        _ => panic!("expected html"),
    }
    assert_eq!(p.pos, 11);
}

#[test]
fn token_range_text_comes_from_the_source_when_attached() {
    let p = Parser::new(div_block()).with_source("<div  a>\nhi\n\nnext".to_string());
    assert_eq!(p.raw_source_for_token_range(0, 3), "<div  a>");
    assert_eq!(p.raw_source_for_token_range(3, 3), "");
    assert_eq!(p.raw_source_for_token_range(2, 9), "");
    let q = Parser::new(div_block());
    assert_eq!(q.raw_source_for_token_range(0, 3), "<div>");
    let r = Parser::new(div_block()).with_source("<d".to_string());
    assert_eq!(r.raw_source_for_token_range(0, 3), "");
}

fn route(tokens: Vec<Token>) -> (usize, BlockStart) {
    Parser::new(tokens).block_start()
}

#[test]
fn block_start_dispatches_on_the_first_token() {
    assert_eq!(route(vec![]), (0, BlockStart::End));
    assert_eq!(route(vec![tok(TokenKind::FrontmatterStart, "---")]), (0, BlockStart::Frontmatter));
    assert_eq!(route(vec![tok(TokenKind::Heading(2), "##")]), (0, BlockStart::Heading));
    assert_eq!(route(vec![tok(TokenKind::OrderedListMarker(OrderedSep::Paren), "1)")]), (0, BlockStart::List(true)));
    assert_eq!(route(vec![tok(TokenKind::BlockQuoteMarker, ">")]), (0, BlockStart::Blockquote));
    assert_eq!(route(vec![tok(TokenKind::BlankLine, "\n\n")]), (1, BlockStart::Skip));
    assert_eq!(route(vec![tok(TokenKind::LinkRefDef, "[a]: /b")]), (1, BlockStart::Skip));
    assert_eq!(route(vec![tok(TokenKind::LinkRefDef, "[a]:")]), (0, BlockStart::RefDefText));
    assert_eq!(route(vec![tok(TokenKind::Text, "hello")]), (0, BlockStart::TableOrParagraph));
    assert_eq!(route(vec![tok(TokenKind::MdxCommentOpen, "{/*")]), (0, BlockStart::MdComment));
    assert_eq!(route(vec![tok(TokenKind::HtmlCommentOpen, "<!--")]), (0, BlockStart::HtmlComment));
    assert_eq!(route(vec![tok_at(TokenKind::HtmlCommentOpen, "<!--", 1, 3)]), (0, BlockStart::TableOrParagraph));
    assert_eq!(
        route(vec![tok(TokenKind::JsxOpenTagStart, "<"), tok(TokenKind::JsxTagName, "Card")]),
        (0, BlockStart::Jsx)
    );
    assert_eq!(
        route(vec![tok(TokenKind::JsxOpenTagStart, "<"), tok(TokenKind::JsxTagName, "div")]),
        (0, BlockStart::HtmlFromJsx)
    );
    assert_eq!(
        route(vec![tok(TokenKind::JsxOpenTagStart, "<"), tok(TokenKind::JsxTagName, "span")]),
        (0, BlockStart::Paragraph)
    );
    assert_eq!(
        route(vec![tok(TokenKind::JsxCloseTagStart, "</"), tok(TokenKind::JsxTagName, "span")]),
        (0, BlockStart::HtmlCloseParagraph)
    );
    assert_eq!(
        route(vec![tok(TokenKind::JsxCloseTagStart, "</"), tok(TokenKind::JsxTagName, "Card")]),
        (1, BlockStart::Skip)
    );
}

#[test]
fn lowercase_tags_with_jsx_attributes_are_elements() {
    let tag = |attr: TokenKind, raw: &str| {
        vec![
            tok(TokenKind::JsxOpenTagStart, "<"),
            tok(TokenKind::JsxTagName, "span"),
            tok(attr, raw),
            tok(TokenKind::JsxOpenTagEnd, ">"),
            tok(TokenKind::Text, "inline"),
        ]
    };
    assert_eq!(route(tag(TokenKind::JsxAttributeName, "className")), (0, BlockStart::Jsx));
    assert_eq!(route(tag(TokenKind::JsxAttributeSpread, "{...p}")), (0, BlockStart::Jsx));
    assert_eq!(route(tag(TokenKind::JsxAttributeName, "class")), (0, BlockStart::Paragraph));
    let mut in_jsx = Parser::new(tag(TokenKind::JsxAttributeName, "class"));
    in_jsx.jsx_open_stack.push("Card".to_string());
    assert_eq!(in_jsx.block_start(), (0, BlockStart::Jsx));
    let strict = ParseOptions { cm_strict_html_blocks: true, gfm_autolinks: false, legacy_gfm_emphasis: false };
    let p = Parser::new_with_options(tag(TokenKind::JsxAttributeName, "className"), strict);
    assert_eq!(p.block_start(), (0, BlockStart::Paragraph));
}

#[test]
fn block_start_steps_over_a_short_indent() {
    assert_eq!(
        route(vec![tok(TokenKind::Whitespace(4), "    "), tok(TokenKind::IndentedCodeLine, "x")]),
        (0, BlockStart::IndentedCode)
    );
    assert_eq!(
        route(vec![tok(TokenKind::Whitespace(2), "  "), tok(TokenKind::UnorderedListMarker, "-")]),
        (1, BlockStart::List(false))
    );
    assert_eq!(
        route(vec![tok(TokenKind::Whitespace(3), "   "), tok(TokenKind::CodeFenceOpen(FenceChar::Tilde, 3), "~~~")]),
        (1, BlockStart::CodeFence)
    );
    assert_eq!(
        route(vec![tok(TokenKind::Whitespace(2), "  "), tok(TokenKind::BlockQuoteMarker, ">")]),
        (1, BlockStart::Blockquote)
    );
    assert_eq!(
        route(vec![tok(TokenKind::Whitespace(2), "  "), tok(TokenKind::HtmlCommentOpen, "<!--")]),
        (1, BlockStart::HtmlComment)
    );
    assert_eq!(route(vec![tok(TokenKind::Whitespace(1), " "), tok(TokenKind::Text, "x")]), (1, BlockStart::TableOrParagraph));
    assert_eq!(
        route(vec![tok(TokenKind::Whitespace(1), " "), tok(TokenKind::JsxOpenTagStart, "<"), tok(TokenKind::JsxTagName, "p")]),
        (0, BlockStart::HtmlFromJsx)
    );
    assert_eq!(
        route(vec![tok(TokenKind::Whitespace(1), " "), tok(TokenKind::JsxOpenTagStart, "<"), tok(TokenKind::JsxTagName, "X")]),
        (0, BlockStart::TableOrParagraph)
    );
    assert_eq!(
        route(vec![tok_at(TokenKind::Whitespace(2), "  ", 1, 3), tok(TokenKind::LinkRefDef, "[a]: /b")]),
        (2, BlockStart::Skip)
    );
    assert_eq!(
        route(vec![tok_at(TokenKind::Whitespace(2), "  ", 1, 3), tok(TokenKind::LinkRefDef, "[a]")]),
        (1, BlockStart::RefDefText)
    );
    assert_eq!(
        route(vec![tok_at(TokenKind::Whitespace(2), "  ", 1, 3), tok(TokenKind::SoftBreak, "\n")]),
        (2, BlockStart::Skip)
    );
}

#[test]
fn blank_and_deep_indented_lines() {
    assert_eq!(route(vec![tok(TokenKind::Whitespace(2), "  ")]), (2, BlockStart::Skip));
    assert_eq!(route(vec![tok(TokenKind::Whitespace(6), "      "), tok(TokenKind::Eof, "")]), (2, BlockStart::Skip));
    assert_eq!(
        route(vec![tok(TokenKind::Whitespace(5), "     "), tok(TokenKind::UnorderedListMarker, "-")]),
        (0, BlockStart::IndentedCodeFallback)
    );
    assert_eq!(
        route(vec![tok(TokenKind::Whitespace(5), "     "), tok(TokenKind::Text, "x")]),
        (0, BlockStart::IndentedCodeFallback)
    );
    let mut p = Parser::new(vec![tok(TokenKind::Whitespace(5), "     "), tok(TokenKind::Text, "x")]);
    p.jsx_open_stack.push("Card".to_string());
    assert_eq!(p.block_start(), (0, BlockStart::TableOrParagraph));
    assert_eq!(
        route(vec![tok_at(TokenKind::Whitespace(5), "     ", 1, 2), tok(TokenKind::Text, "x")]),
        (0, BlockStart::TableOrParagraph)
    );
}

#[test]
fn md_comment_is_skipped_through_its_close() {
    let mut p = Parser::new(vec![
        tok(TokenKind::MdxCommentOpen, "{/*"),
        tok(TokenKind::Text, " note "),
        tok(TokenKind::MdxCommentClose, "*/}"),
        tok(TokenKind::Text, "after"),
    ]);
    p.skip_md_comment();
    assert_eq!(p.pos, 3);
    let mut q = Parser::new(vec![tok(TokenKind::MdxCommentOpen, "{/*"), tok(TokenKind::Text, "x"), tok(TokenKind::Eof, "")]);
    q.skip_md_comment();
    assert_eq!(q.pos, 2);
}

#[test]
fn quote_markers_are_counted_and_consumed() {
    let line = vec![
        tok(TokenKind::BlockQuoteMarker, ">"),
        tok(TokenKind::Whitespace(1), " "),
        tok(TokenKind::BlockQuoteMarker, ">"),
        tok(TokenKind::Whitespace(1), " "),
        tok(TokenKind::Text, "deep"),
    ];
    let p = Parser::new(line.clone());
    assert_eq!(p.count_line_blockquote_markers(), 2);
    let mut q = Parser::new(line.clone());
    q.consume_blockquote_markers(1);
    assert_eq!(q.pos, 2);
    let mut r = Parser::new(line.clone());
    r.consume_blockquote_markers(2);
    assert_eq!(r.pos, 4);
    let mut s = Parser::new(line);
    s.consume_blockquote_markers(5);
    assert_eq!(s.pos, 4);
    let t = Parser::new(vec![tok(TokenKind::Text, "x"), tok(TokenKind::BlockQuoteMarker, ">")]);
    assert_eq!(t.count_line_blockquote_markers(), 0);
}

#[test]
fn leading_indent_counts_characters() {
    let p = Parser::new(vec![tok(TokenKind::Whitespace(4), "\t  ")]);
    assert_eq!(p.peek_leading_indent(), Some(6));
    assert_eq!(p.leading_whitespace_chars(), Some(3));
    let p = Parser::new(vec![tok_at(TokenKind::Whitespace(4), "\t  ", 1, 3)]);
    assert_eq!(p.peek_leading_indent(), Some(4));
    let p = Parser::new(vec![tok_at(TokenKind::Whitespace(4), " \t", 1, 1)]);
    assert_eq!(p.peek_leading_indent(), Some(4));
    let q = Parser::new(vec![tok(TokenKind::Text, "   ")]);
    assert_eq!(q.peek_leading_indent(), None);
}

fn text(v: &str) -> Node {
    Node::Text(Text { value: v.to_string(), span: at(1, 1) })
}

#[test]
fn closing_a_quote_level_nests_it_in_its_parent() {
    let mut children = vec![vec![text("a")], vec![text("b")]];
    let mut paragraphs = vec![vec![], vec![text("p")]];
    close_blockquote_level(&mut children, &mut paragraphs, &at(2, 1), &at(3, 1));
    let expected = vec![vec![
        text("a"),
        Node::Blockquote(Blockquote {
            children: vec![text("b"), Node::Paragraph(Paragraph { children: vec![text("p")], span: at(2, 1) })],
            span: at(3, 1),
        }),
    ]];
    assert_eq!(children, expected);
    assert_eq!(paragraphs.len(), 1);
    let mut children = vec![vec![], vec![text("b")]];
    let mut paragraphs = vec![vec![]];
    close_blockquote_level(&mut children, &mut paragraphs, &at(2, 1), &at(3, 1));
    assert_eq!(children, vec![vec![Node::Blockquote(Blockquote { children: vec![text("b")], span: at(3, 1) })]]);
    assert!(paragraphs.is_empty());
}

#[test]
fn other_blocks_end_a_lazy_line() {
    let p = Parser::new(vec![tok(TokenKind::Whitespace(2), "  "), tok(TokenKind::Heading(1), "#")]);
    assert!(p.line_starts_other_block());
    let p = Parser::new(vec![tok(TokenKind::LinkRefDef, "[a]: /b")]);
    assert!(p.line_starts_other_block());
    let p = Parser::new(vec![tok(TokenKind::Text, "lazy")]);
    assert!(!p.line_starts_other_block());
    let p = Parser::new(vec![tok(TokenKind::Whitespace(1), " ")]);
    assert!(!p.line_starts_other_block());
}

#[test]
fn text_list_markers_are_promoted() {
    let cases = [
        ("-", Some(TokenKind::UnorderedListMarker)),
        ("+", Some(TokenKind::UnorderedListMarker)),
        ("12.", Some(TokenKind::OrderedListMarker(OrderedSep::Period))),
        ("3)", Some(TokenKind::OrderedListMarker(OrderedSep::Paren))),
        ("a.", None),
        (".", None),
        ("1.2", None),
        ("--", None),
        ("1é", None),
    ];
    for (raw, want) in cases {
        let mut p = Parser::new(vec![tok(TokenKind::Text, raw), tok(TokenKind::Whitespace(1), " ")]);
        let changed = p.try_promote_text_list_marker();
        assert_eq!(changed, want.is_some(), "{}", raw);
        assert_eq!(p.tokens[0].kind, want.unwrap_or(TokenKind::Text), "{}", raw);
        assert_eq!(p.tokens[0].raw, raw);
    }
    let mut p = Parser::new(vec![tok(TokenKind::Text, "-"), tok(TokenKind::Text, "x")]);
    assert!(!p.try_promote_text_list_marker());
    let mut p = Parser::new(vec![tok(TokenKind::Text, "-"), tok(TokenKind::Whitespace(0), "")]);
    assert!(!p.try_promote_text_list_marker());
}

#[test]
fn heading_text_is_trimmed() {
    let hard = || Node::HardBreak(BreakNode { span: at(1, 9) });
    let mut kids = vec![text(" Title  "), hard(), hard()];
    trim_heading_children(&mut kids);
    assert_eq!(kids, vec![text("Title")]);
    let mut kids = vec![text("  "), text("a "), text(" \t")];
    trim_heading_children(&mut kids);
    assert_eq!(kids, vec![text("a")]);
    let mut kids = vec![text("\t"), hard()];
    trim_heading_children(&mut kids);
    assert!(kids.is_empty());
    let mut kids = vec![text("x"), hard(), text("y")];
    trim_heading_children(&mut kids);
    assert_eq!(kids, vec![text("x"), hard(), text("y")]);
}

#[test]
fn a_blank_line_between_items_makes_the_list_loose() {
    let item = || Node::ListItem(ListItem { children: vec![text("a")], span: at(1, 1) });
    let mut items = vec![item()];
    let mut saw = false;
    let mut p = Parser::new(vec![
        tok(TokenKind::BlankLine, "\n\n"),
        tok(TokenKind::Whitespace(2), "  "),
        tok(TokenKind::UnorderedListMarker, "-"),
    ]);
    assert!(p.try_continue_same_list_after_blankline(false, 2, &mut items, &at(9, 9), &mut saw));
    assert!(saw);
    assert_eq!(p.pos, 1);
    let loose = Node::ListItem(ListItem {
        children: vec![Node::Paragraph(Paragraph { children: vec![text("a")], span: at(9, 9) })],
        span: at(1, 1),
    });
    assert_eq!(items, vec![loose]);

    let mut items = vec![item()];
    let mut saw = false;
    let mut p = Parser::new(vec![tok(TokenKind::BlankLine, "\n\n"), tok(TokenKind::OrderedListMarker(OrderedSep::Period), "1.")]);
    assert!(!p.try_continue_same_list_after_blankline(false, 0, &mut items, &at(9, 9), &mut saw));
    assert!(!saw);
    assert_eq!(p.pos, 0);
    assert_eq!(items, vec![item()]);
    assert!(p.try_continue_same_list_after_blankline(true, 0, &mut items, &at(9, 9), &mut saw));
    assert_eq!(p.pos, 1);
}

#[test]
fn quoted_indented_code_continues_across_quoted_lines() {
    let mut p = Parser::new(vec![
        tok(TokenKind::Whitespace(6), "      "),
        tok(TokenKind::Text, "code"),
        tok(TokenKind::SoftBreak, "\n"),
        tok(TokenKind::BlockQuoteMarker, ">"),
        tok(TokenKind::Whitespace(1), " "),
        tok(TokenKind::Whitespace(4), "    "),
        tok(TokenKind::Text, "more"),
        tok(TokenKind::Eof, ""),
    ]);
    let n = p.parse_indented_code_in_bq();
    assert_eq!(code_of(&n), (None, None, "  code\nmore\n".to_string()));
    assert_eq!(p.pos, 7);

    let mut q = Parser::new(vec![
        tok(TokenKind::Whitespace(4), "    "),
        tok(TokenKind::Text, "x"),
        tok(TokenKind::SoftBreak, "\n"),
        tok(TokenKind::BlockQuoteMarker, ">"),
        tok(TokenKind::Text, "para"),
    ]);
    let n = q.parse_indented_code_in_bq();
    assert_eq!(code_of(&n).2, "x\n");
    assert_eq!(q.pos, 2);
}

#[test]
fn fallback_indented_code_reads_indented_lines() {
    let mut p = Parser::new(vec![
        tok_at(TokenKind::Whitespace(5), "     ", 1, 1),
        tok_at(TokenKind::Text, "a", 1, 6),
        tok_at(TokenKind::Text, " b", 1, 7),
        tok_at(TokenKind::BlankLine, "\n\n", 1, 9),
        tok_at(TokenKind::Whitespace(4), "    ", 3, 1),
        tok_at(TokenKind::Text, "c", 3, 5),
        tok_at(TokenKind::SoftBreak, "\n", 3, 6),
        tok_at(TokenKind::Whitespace(4), "    ", 4, 3),
        tok_at(TokenKind::Text, "d", 4, 7),
    ]);
    let n = p.parse_indented_code_fallback();
    assert_eq!(code_of(&n), (None, None, " a b\n\nc\n".to_string()));
    assert_eq!(p.pos, 6);
    let mut q = Parser::new(vec![tok_at(TokenKind::Whitespace(4), "    ", 1, 2), tok_at(TokenKind::Text, "x", 1, 6)]);
    let n = q.parse_indented_code_fallback();
    assert_eq!(code_of(&n).2, "");
    assert_eq!(q.pos, 0);
}

#[test]
fn indented_code_keeps_indent_beyond_four_columns() {
    let mut p = Parser::new(vec![tok(TokenKind::Whitespace(8), "        "), tok(TokenKind::IndentedCodeLine, "code")]);
    assert_eq!(code_of(&p.parse_indented_code()).2, "    code\n");
    let mut p = Parser::new(vec![tok(TokenKind::Whitespace(6), "\t  "), tok(TokenKind::IndentedCodeLine, "x")]);
    assert_eq!(code_of(&p.parse_indented_code()).2, "  x\n");
}

#[test]
fn indented_code_keeps_whitespace_only_lines() {
    let mut p = Parser::new(vec![
        tok(TokenKind::Whitespace(4), "    "),
        tok(TokenKind::IndentedCodeLine, "a"),
        tok(TokenKind::SoftBreak, "\n"),
        tok(TokenKind::Whitespace(6), "      "),
        tok(TokenKind::SoftBreak, "\n"),
        tok(TokenKind::Whitespace(4), "    "),
        tok(TokenKind::IndentedCodeLine, "b"),
    ]);
    assert_eq!(code_of(&p.parse_indented_code()).2, "a\n  \nb\n");
    assert_eq!(p.pos, 7);
}

#[test]
fn indented_code_continues_through_blank_lines_after_a_soft_break() {
    let mut p = Parser::new(vec![
        tok(TokenKind::Whitespace(4), "    "),
        tok(TokenKind::IndentedCodeLine, "a"),
        tok(TokenKind::SoftBreak, "\n"),
        tok(TokenKind::BlankLine, "\n\n"),
        tok(TokenKind::Whitespace(4), "    "),
        tok(TokenKind::IndentedCodeLine, "b"),
        tok(TokenKind::SoftBreak, "\n"),
        tok(TokenKind::BlankLine, "\n\n"),
        tok(TokenKind::Text, "para"),
    ]);
    assert_eq!(code_of(&p.parse_indented_code()).2, "a\n\n\nb\n");
    assert_eq!(p.pos, 6);
}

#[test]
fn orphan_close_tag_is_reported_once() {
    let mut p = Parser::new(vec![
        tok_off(TokenKind::JsxCloseTagStart, "</", 0),
        tok_off(TokenKind::JsxTagName, "div", 2),
        tok_off(TokenKind::JsxCloseTagEnd, ">", 5),
        tok_off(TokenKind::BlankLine, "\n\n", 6),
    ]);
    match p.parse_html_block_from_jsx(HtmlBlockMode::Type6) {
        Node::Html(h) => assert_eq!(h.value, "</div>"),
        _ => panic!("expected html"),
    }
    assert_eq!(p.diagnostics.len(), 1);
    let d = &p.diagnostics[0];
    assert_eq!(d.code(), "P010");
    assert_eq!(d.message(), "orphan close tag `</div>` has no matching opener in this block; preserving it as raw HTML");
    assert_eq!(
        d.help(),
        "add the matching opening tag earlier in the block, or escape the leading `<` if this should render as text"
    );
    let mut q = Parser::new(div_block());
    q.parse_html_block_from_jsx(HtmlBlockMode::Type6);
    assert!(q.diagnostics.is_empty());
}

#[test]
fn html_comment_block_runs_to_the_line_of_its_close() {
    let mut p = Parser::new(vec![
        tok(TokenKind::HtmlCommentOpen, "<!--"),
        tok(TokenKind::Text, " a"),
        tok(TokenKind::SoftBreak, "\n"),
        tok(TokenKind::Text, "b "),
        tok(TokenKind::HtmlCommentClose, "-->"),
        tok(TokenKind::Text, " tail"),
        tok(TokenKind::SoftBreak, "\n"),
        tok(TokenKind::Text, "next"),
    ]);
    match p.parse_html_comment_block() {
        Node::Html(h) => assert_eq!(h.value, "<!-- a\nb --> tail"),
        _ => panic!("expected html"),
    }
    assert_eq!(p.pos, 6);
    let mut q = Parser::new(vec![
        tok(TokenKind::HtmlCommentOpen, "<!--"),
        tok(TokenKind::Text, " open"),
        tok(TokenKind::BlankLine, "\n\n"),
        tok(TokenKind::Text, "next"),
    ]);
    match q.parse_html_comment_block() {
        Node::Html(h) => assert_eq!(h.value, "<!-- open"),
        _ => panic!("expected html"),
    }
    assert_eq!(q.pos, 2);
}

#[test]
fn quoted_html_block_lines_lose_their_markers() {
    let un = |s: &str| unquote_html_block(&s.chars().collect()).into_iter().collect::<String>();
    assert_eq!(un("<div>\n> a\n>b\n"), "<div>\na\nb\n");
    assert_eq!(un("a\n> > b"), "a\nb");
    assert_eq!(un(">x\ny"), ">x\ny");
    assert_eq!(un(""), "");
}

#[test]
fn a_plain_tag_alone_on_its_line_opens_a_type7_block() {
    let alone = vec![
        tok(TokenKind::JsxOpenTagStart, "<"),
        tok(TokenKind::JsxTagName, "custom-el"),
        tok(TokenKind::JsxAttributeName, "data-x"),
        tok(TokenKind::JsxAttrEq, "="),
        tok(TokenKind::JsxAttrStringOpen(QuoteKind::Double), "\""),
        tok(TokenKind::JsxAttrString, "v"),
        tok(TokenKind::JsxAttrStringClose(QuoteKind::Double), "\""),
        tok(TokenKind::JsxOpenTagEnd, ">"),
        tok(TokenKind::Whitespace(1), " "),
        tok(TokenKind::SoftBreak, "\n"),
    ];
    let p = Parser::new(alone.clone());
    assert!(matches!(p.jsx_html_block_mode(), Some(HtmlBlockMode::Type7)));
    assert_eq!(p.block_start(), (0, BlockStart::HtmlFromJsx));

    let mut escaped = alone.clone();
    escaped[5] = tok(TokenKind::JsxAttrString, "a\\\"b");
    assert!(Parser::new(escaped).jsx_html_block_mode().is_none());

    let mut followed = alone.clone();
    followed[8] = tok(TokenKind::Text, "text");
    assert!(Parser::new(followed).jsx_html_block_mode().is_none());

    let mut two_lines = alone.clone();
    two_lines[7] = tok_at(TokenKind::JsxOpenTagEnd, ">", 2, 1);
    assert!(Parser::new(two_lines).jsx_html_block_mode().is_none());

    let upper = vec![
        tok(TokenKind::JsxOpenTagStart, "<"),
        tok(TokenKind::JsxTagName, "Warning"),
        tok(TokenKind::JsxOpenTagEnd, ">"),
        tok(TokenKind::Eof, ""),
    ];
    assert!(Parser::new(upper.clone()).jsx_html_block_mode().is_none());
    let strict = ParseOptions { cm_strict_html_blocks: true, gfm_autolinks: false, legacy_gfm_emphasis: false };
    assert!(matches!(Parser::new_with_options(upper, strict).jsx_html_block_mode(), Some(HtmlBlockMode::Type7)));

    let close = vec![
        tok(TokenKind::JsxCloseTagStart, "</"),
        tok(TokenKind::JsxTagName, "custom-el"),
        tok(TokenKind::JsxCloseTagEnd, ">"),
    ];
    assert!(matches!(Parser::new(close).jsx_html_block_mode(), Some(HtmlBlockMode::Type7)));
}

#[test]
fn a_wide_indent_after_quote_markers_stays_for_code() {
    let mut p = Parser::new(vec![
        tok(TokenKind::BlockQuoteMarker, ">"),
        tok(TokenKind::Whitespace(5), "     "),
        tok(TokenKind::Text, "code"),
    ]);
    p.consume_blockquote_markers(1);
    assert_eq!(p.pos, 1);
    let mut q = Parser::new(vec![
        tok(TokenKind::BlockQuoteMarker, ">"),
        tok_at(TokenKind::Whitespace(1), "\t", 1, 2),
        tok(TokenKind::Text, "x"),
    ]);
    q.consume_blockquote_markers(1);
    assert_eq!(q.pos, 2);
}

#[test]
fn inline_plain_tags_are_raw_html_or_text() {
    let src = "<b class=\"x\">";
    let mut p = Parser::new(vec![
        tok_off(TokenKind::JsxOpenTagStart, "<", 0),
        tok_off(TokenKind::JsxTagName, "b", 1),
        tok_off(TokenKind::JsxAttributeName, "class", 3),
        tok_off(TokenKind::JsxAttrEq, "=", 8),
        tok_off(TokenKind::JsxAttrStringOpen(QuoteKind::Double), "\"", 9),
        tok_off(TokenKind::JsxAttrString, "x", 10),
        tok_off(TokenKind::JsxAttrStringClose(QuoteKind::Double), "\"", 11),
        tok_off(TokenKind::JsxOpenTagEnd, ">", 12),
        tok_off(TokenKind::Text, "bold", 13),
    ])
    .with_source(src.to_string());
    match p.parse_inline_raw_html_tag() {
        Some(Node::Html(h)) => assert_eq!(h.value, "<b class=\"x\">"),
        _ => panic!("expected raw html"),
    }
    assert_eq!(p.pos, 8);

    let mut q = Parser::new(vec![
        tok_off(TokenKind::JsxOpenTagStart, "<", 0),
        tok_off(TokenKind::JsxTagName, "b", 1),
        tok_off(TokenKind::ExpressionStart, "{", 3),
        tok_off(TokenKind::JsxOpenTagEnd, ">", 4),
    ]);
    match q.parse_inline_raw_html_tag() {
        Some(Node::Text(t)) => assert_eq!(t.value, "<b{>"),
        _ => panic!("expected text"),
    }

    let mut r = Parser::new(vec![tok_off(TokenKind::JsxOpenTagStart, "<", 0), tok_off(TokenKind::JsxTagName, "Card", 1)]);
    assert!(r.parse_inline_raw_html_tag().is_none());
    assert_eq!(r.pos, 0);
    let mut e = Parser::new(vec![
        tok_off(TokenKind::JsxOpenTagStart, "<", 0),
        tok_off(TokenKind::JsxTagName, "b", 1),
        tok_off(TokenKind::Eof, "", 2),
    ]);
    assert!(e.parse_inline_raw_html_tag().is_none());
    assert_eq!(e.pos, 0);
}
