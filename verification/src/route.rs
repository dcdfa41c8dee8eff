//! The top-down block dispatch: which production the tokens at the cursor
//! start, and how many tokens are stepped over first.

use vstd::prelude::*;
use crate::block::kind_in;
use crate::html::{eq_lit, html_mode, jsx_html_block_mode_at, plain_html_tag, plain_html_tag_at};
use crate::parser::Parser;
use crate::refs::{link_ref_def, parse_link_ref_def};
use crate::text::chars_of;
use crate::token::{Token, TokenKind};

verus! {

/// The production that a block starts with.
#[derive(Debug, Clone, Copy, PartialEq, Eq, Structural)]
pub enum BlockStart {
    /// Past the last token.
    End,
    /// Nothing is produced: the stepped-over tokens were a blank line, a
    /// break, a link reference definition or a stray end tag.
    Skip,
    IndentedCode,
    /// Indented code that the lexer did not mark line by line.
    IndentedCodeFallback,
    /// A list, ordered or not.
    List(bool),
    ThematicBreak,
    Heading,
    CodeFence,
    /// A raw HTML block read from a JSX-shaped tag.
    HtmlFromJsx,
    /// An HTML comment block.
    HtmlComment,
    Frontmatter,
    Import,
    Export,
    Jsx,
    JsxFragment,
    HtmlBlock,
    Expression,
    /// An MDX comment: skipped.
    MdComment,
    Blockquote,
    FootnoteDef,
    /// A paragraph that opens with a lower-case HTML tag.
    Paragraph,
    /// A paragraph that opens with a plain HTML end tag.
    HtmlCloseParagraph,
    /// A link reference definition that does not parse: a paragraph of its
    /// text.
    RefDefText,
    /// A table if the rows parse as one, else a paragraph.
    TableOrParagraph,
}

/// Before the open tag's end, from `i` on, an attribute written the JSX
/// way: `className`, an expression value or a spread.
pub open spec fn jsx_attr_signal(ts: Seq<Token>, i: int) -> bool
    decreases ts.len() - i,
{
    if i < 0 || i >= ts.len() {
        false
    } else {
        match ts[i].kind {
            TokenKind::JsxAttributeName => if ts[i].raw@ == "className"@ {
                true
            } else {
                jsx_attr_signal(ts, i + 1)
            },
            TokenKind::ExpressionStart | TokenKind::JsxAttributeSpread => true,
            TokenKind::JsxOpenTagEnd | TokenKind::JsxSelfClosingEnd | TokenKind::Eof => false,
            _ => jsx_attr_signal(ts, i + 1),
        }
    }
}

/// The lower-case open tag at `q` is an MDX element rather than raw HTML:
/// inside another JSX element, or carrying JSX attribute syntax. Never
/// under strict CommonMark HTML blocks.
pub open spec fn mdx_element(ts: Seq<Token>, q: int, strict: bool, in_jsx: bool) -> bool {
    !strict && kind_in(ts, q) == Some(TokenKind::JsxOpenTagStart) && plain_html_tag(ts, q) && (in_jsx
        || jsx_attr_signal(ts, q + 2))
}

/// The token at `q` is a link reference definition that parses.
pub open spec fn valid_ref_def(ts: Seq<Token>, q: int) -> bool {
    link_ref_def(ts[q].raw@) is Some
}

/// What the token at `q` starts, after `skip` tokens were stepped over.
pub open spec fn start_at(ts: Seq<Token>, q: int, skip: int, strict: bool) -> (int, BlockStart) {
    match kind_in(ts, q) {
        None => (skip, BlockStart::End),
        Some(k) => match k {
            TokenKind::FrontmatterStart => (skip, BlockStart::Frontmatter),
            TokenKind::Import => (skip, BlockStart::Import),
            TokenKind::Export => (skip, BlockStart::Export),
            TokenKind::Heading(_) => (skip, BlockStart::Heading),
            TokenKind::CodeFenceOpen(_, _) => (skip, BlockStart::CodeFence),
            TokenKind::JsxOpenTagStart => if html_mode(ts, q, strict) is Some {
                (skip, BlockStart::HtmlFromJsx)
            } else if plain_html_tag(ts, q) {
                (skip, BlockStart::Paragraph)
            } else {
                (skip, BlockStart::Jsx)
            },
            TokenKind::JsxCloseTagStart => if html_mode(ts, q, strict) is Some {
                (skip, BlockStart::HtmlFromJsx)
            } else if plain_html_tag(ts, q) {
                (skip, BlockStart::HtmlCloseParagraph)
            } else {
                (skip + 1, BlockStart::Skip)
            },
            TokenKind::JsxFragmentOpen => (skip, BlockStart::JsxFragment),
            TokenKind::HtmlBlockOpen => (skip, BlockStart::HtmlBlock),
            TokenKind::HtmlCommentOpen => if ts[q].span.column == 1 {
                (skip, BlockStart::HtmlComment)
            } else {
                (skip, BlockStart::TableOrParagraph)
            },
            TokenKind::ExpressionStart => (skip, BlockStart::Expression),
            TokenKind::MdxCommentOpen => (skip, BlockStart::MdComment),
            TokenKind::UnorderedListMarker => (skip, BlockStart::List(false)),
            TokenKind::OrderedListMarker(_) => (skip, BlockStart::List(true)),
            TokenKind::BlockQuoteMarker => (skip, BlockStart::Blockquote),
            TokenKind::ThematicBreak => (skip, BlockStart::ThematicBreak),
            TokenKind::HardBreak | TokenKind::SoftBreak | TokenKind::BlankLine => (skip + 1, BlockStart::Skip),
            TokenKind::LinkRefDef => if valid_ref_def(ts, q) {
                (skip + 1, BlockStart::Skip)
            } else {
                (skip, BlockStart::RefDefText)
            },
            TokenKind::FootnoteDefMarker => (skip, BlockStart::FootnoteDef),
            _ => (skip, BlockStart::TableOrParagraph),
        },
    }
}

/// A token kind that can open inline content after a deep indent.
pub open spec fn inline_after_indent(k: TokenKind) -> bool {
    match k {
        TokenKind::Text | TokenKind::Emphasis(_, _) | TokenKind::Strikethrough | TokenKind::CodeInlineOpen(_)
        | TokenKind::Whitespace(_) | TokenKind::Autolink(_) | TokenKind::EntityRef | TokenKind::LinkOpen
        | TokenKind::ImageMarker | TokenKind::JsxOpenTagStart | TokenKind::HtmlBlockOpen
        | TokenKind::HtmlCommentOpen | TokenKind::Heading(_) | TokenKind::ThematicBreak
        | TokenKind::CodeFenceOpen(_, _) | TokenKind::UnorderedListMarker | TokenKind::OrderedListMarker(_)
        | TokenKind::BlockQuoteMarker => true,
        _ => false,
    }
}

/// The block at `p`: how many tokens are stepped over (before the
/// production, or in all where nothing is produced), and what the block
/// is. `strict` is strict CommonMark HTML blocks; `in_jsx` says a JSX
/// element is open.
pub open spec fn block_route(ts: Seq<Token>, p: int, strict: bool, in_jsx: bool) -> (int, BlockStart) {
    let here = kind_in(ts, p);
    let next = kind_in(ts, p + 1);
    let ws = here matches Some(TokenKind::Whitespace(_));
    let tag_at = if ws { p + 1 } else { p };
    if ws && next == Some(TokenKind::IndentedCodeLine) {
        (0, BlockStart::IndentedCode)
    } else if ws && ts[p].span.column == 1 && (next is None || next == Some(TokenKind::SoftBreak) || next == Some(
        TokenKind::HardBreak,
    ) || next == Some(TokenKind::BlankLine) || next == Some(TokenKind::Eof)) {
        (2, BlockStart::Skip)
    } else if here matches Some(TokenKind::Whitespace(w)) && w >= 4 && ts[p].span.column == 1 && (next matches Some(
        k,
    ) && inline_after_indent(k)) && !in_jsx {
        (0, BlockStart::IndentedCodeFallback)
    } else if mdx_element(ts, tag_at, strict, in_jsx) {
        (if ws { 1int } else { 0int }, BlockStart::Jsx)
    } else if here matches Some(TokenKind::Whitespace(w)) && w <= 3 && next is Some {
        match next->0 {
            TokenKind::UnorderedListMarker => (1, BlockStart::List(false)),
            TokenKind::OrderedListMarker(_) => (1, BlockStart::List(true)),
            TokenKind::ThematicBreak => (1, BlockStart::ThematicBreak),
            TokenKind::Heading(_) => (1, BlockStart::Heading),
            TokenKind::CodeFenceOpen(_, _) => (1, BlockStart::CodeFence),
            TokenKind::BlockQuoteMarker => (1, BlockStart::Blockquote),
            TokenKind::HtmlCommentOpen => (1, BlockStart::HtmlComment),
            TokenKind::JsxOpenTagStart | TokenKind::JsxCloseTagStart => if html_mode(ts, p + 1, strict) is Some {
                (0, BlockStart::HtmlFromJsx)
            } else {
                start_at(ts, p, 0, strict)
            },
            TokenKind::LinkRefDef => if valid_ref_def(ts, p + 1) {
                (2, BlockStart::Skip)
            } else {
                start_at(ts, p + 1, 1, strict)
            },
            TokenKind::BlankLine | TokenKind::SoftBreak | TokenKind::HardBreak => (2, BlockStart::Skip),
            TokenKind::Text | TokenKind::ImageMarker | TokenKind::LinkOpen | TokenKind::Emphasis(_, _) => start_at(
                ts,
                p + 1,
                1,
                strict,
            ),
            _ => start_at(ts, p, 0, strict),
        }
    } else {
        start_at(ts, p, 0, strict)
    }
}

/// The dispatch never stalls: where a block produces nothing, at least one
/// token is stepped over, and the dispatch reports the end of input exactly
/// past the last token.
pub proof fn law_route_progress(ts: Seq<Token>, p: int, strict: bool, in_jsx: bool)
    requires
        0 <= p,
    ensures
        block_route(ts, p, strict, in_jsx).1 == BlockStart::Skip ==> block_route(ts, p, strict, in_jsx).0 >= 1,
        (block_route(ts, p, strict, in_jsx).1 == BlockStart::End) <==> p >= ts.len(),
        block_route(ts, p, strict, in_jsx).0 >= 0,
{
}

/// Whether the lower-case open tag at `q` is an MDX element.
fn mdx_element_at(p: &Parser, q: usize) -> (r: bool)
    ensures
        r == mdx_element(p.tokens@, q as int, p.options.cm_strict_html_blocks, p.jsx_open_stack@.len() > 0),
{
    if p.options.cm_strict_html_blocks {
        return false;
    }
    if q >= p.tokens.len() || p.tokens[q].kind != TokenKind::JsxOpenTagStart || !plain_html_tag_at(p, q) {
        return false;
    }
    if p.jsx_open_stack.len() > 0 {
        return true;
    }
    let mut i: usize = q + 2;
    while i < p.tokens.len()
        invariant
            q + 2 <= i,
            !p.options.cm_strict_html_blocks,
            kind_in(p.tokens@, q as int) == Some(TokenKind::JsxOpenTagStart),
            plain_html_tag(p.tokens@, q as int),
            p.jsx_open_stack@.len() == 0,
            jsx_attr_signal(p.tokens@, q + 2) == jsx_attr_signal(p.tokens@, i as int),
        decreases p.tokens.len() - i,
    {
        match p.tokens[i].kind {
            TokenKind::JsxAttributeName => {
                if eq_lit(&chars_of(p.tokens[i].raw.as_str()), "className") {
                    return true;
                }
            },
            TokenKind::ExpressionStart | TokenKind::JsxAttributeSpread => {
                return true;
            },
            TokenKind::JsxOpenTagEnd | TokenKind::JsxSelfClosingEnd | TokenKind::Eof => {
                return false;
            },
            _ => {},
        }
        i += 1;
    }
    false
}

impl Parser {
    fn start_at(&self, q: usize, skip: usize) -> (r: (usize, BlockStart))
        requires
            skip <= 1,
        ensures
            r.0 as int == start_at(self.tokens@, q as int, skip as int, self.options.cm_strict_html_blocks).0,
            r.1 == start_at(self.tokens@, q as int, skip as int, self.options.cm_strict_html_blocks).1,
    {
        if q >= self.tokens.len() {
            return (skip, BlockStart::End);
        }
        match self.tokens[q].kind {
            TokenKind::FrontmatterStart => (skip, BlockStart::Frontmatter),
            TokenKind::Import => (skip, BlockStart::Import),
            TokenKind::Export => (skip, BlockStart::Export),
            TokenKind::Heading(_) => (skip, BlockStart::Heading),
            TokenKind::CodeFenceOpen(_, _) => (skip, BlockStart::CodeFence),
            TokenKind::JsxOpenTagStart => if jsx_html_block_mode_at(self, q) {
                (skip, BlockStart::HtmlFromJsx)
            } else if plain_html_tag_at(self, q) {
                (skip, BlockStart::Paragraph)
            } else {
                (skip, BlockStart::Jsx)
            },
            TokenKind::JsxCloseTagStart => if jsx_html_block_mode_at(self, q) {
                (skip, BlockStart::HtmlFromJsx)
            } else if plain_html_tag_at(self, q) {
                (skip, BlockStart::HtmlCloseParagraph)
            } else {
                (skip + 1, BlockStart::Skip)
            },
            TokenKind::JsxFragmentOpen => (skip, BlockStart::JsxFragment),
            TokenKind::HtmlBlockOpen => (skip, BlockStart::HtmlBlock),
            TokenKind::HtmlCommentOpen => if self.tokens[q].span.column == 1 {
                (skip, BlockStart::HtmlComment)
            } else {
                (skip, BlockStart::TableOrParagraph)
            },
            TokenKind::ExpressionStart => (skip, BlockStart::Expression),
            TokenKind::MdxCommentOpen => (skip, BlockStart::MdComment),
            TokenKind::UnorderedListMarker => (skip, BlockStart::List(false)),
            TokenKind::OrderedListMarker(_) => (skip, BlockStart::List(true)),
            TokenKind::BlockQuoteMarker => (skip, BlockStart::Blockquote),
            TokenKind::ThematicBreak => (skip, BlockStart::ThematicBreak),
            TokenKind::HardBreak | TokenKind::SoftBreak | TokenKind::BlankLine => (skip + 1, BlockStart::Skip),
            TokenKind::LinkRefDef => if parse_link_ref_def(self.tokens[q].raw.as_str()).is_some() {
                (skip + 1, BlockStart::Skip)
            } else {
                (skip, BlockStart::RefDefText)
            },
            TokenKind::FootnoteDefMarker => (skip, BlockStart::FootnoteDef),
            _ => (skip, BlockStart::TableOrParagraph),
        }
    }

    /// The top-down block dispatch under the cursor: how many tokens to
    /// step over (before the production, or in all where nothing is
    /// produced), and which production follows. The cursor stays.
    pub fn block_start(&self) -> (r: (usize, BlockStart))
        ensures
            r.0 as int == block_route(
                self.tokens@,
                self.pos as int,
                self.options.cm_strict_html_blocks,
                self.jsx_open_stack@.len() > 0,
            ).0,
            r.1 == block_route(
                self.tokens@,
                self.pos as int,
                self.options.cm_strict_html_blocks,
                self.jsx_open_stack@.len() > 0,
            ).1,
    {
        let here = self.peek_kind();
        let next = self.kind_after(1);
        let ws = match here {
            Some(TokenKind::Whitespace(_)) => true,
            _ => false,
        };
        if ws && next == Some(TokenKind::IndentedCodeLine) {
            return (0, BlockStart::IndentedCode);
        }
        if ws && self.tokens[self.pos].span.column == 1 && (next.is_none() || next == Some(TokenKind::SoftBreak)
            || next == Some(TokenKind::HardBreak) || next == Some(TokenKind::BlankLine) || next == Some(
            TokenKind::Eof,
        )) {
            return (2, BlockStart::Skip);
        }
        if let Some(TokenKind::Whitespace(w)) = here {
            if w >= 4 && self.tokens[self.pos].span.column == 1 && self.jsx_open_stack.len() == 0 {
                let inline = match next {
                    Some(TokenKind::Text) | Some(TokenKind::Emphasis(_, _)) | Some(TokenKind::Strikethrough) | Some(
                        TokenKind::CodeInlineOpen(_),
                    ) | Some(TokenKind::Whitespace(_)) | Some(TokenKind::Autolink(_)) | Some(TokenKind::EntityRef)
                    | Some(TokenKind::LinkOpen) | Some(TokenKind::ImageMarker) | Some(TokenKind::JsxOpenTagStart)
                    | Some(TokenKind::HtmlBlockOpen) | Some(TokenKind::HtmlCommentOpen) | Some(
                        TokenKind::Heading(_),
                    ) | Some(TokenKind::ThematicBreak) | Some(TokenKind::CodeFenceOpen(_, _)) | Some(
                        TokenKind::UnorderedListMarker,
                    ) | Some(TokenKind::OrderedListMarker(_)) | Some(TokenKind::BlockQuoteMarker) => true,
                    _ => false,
                };
                if inline {
                    return (0, BlockStart::IndentedCodeFallback);
                }
            }
        }
        let tag_at = if ws {
            self.pos + 1
        } else {
            self.pos
        };
        if mdx_element_at(self, tag_at) {
            return (if ws { 1 } else { 0 }, BlockStart::Jsx);
        }
        if let Some(TokenKind::Whitespace(w)) = here {
            if w <= 3 {
                if let Some(k) = next {
                    match k {
                        TokenKind::UnorderedListMarker => {
                            return (1, BlockStart::List(false));
                        },
                        TokenKind::OrderedListMarker(_) => {
                            return (1, BlockStart::List(true));
                        },
                        TokenKind::ThematicBreak => {
                            return (1, BlockStart::ThematicBreak);
                        },
                        TokenKind::Heading(_) => {
                            return (1, BlockStart::Heading);
                        },
                        TokenKind::CodeFenceOpen(_, _) => {
                            return (1, BlockStart::CodeFence);
                        },
                        TokenKind::BlockQuoteMarker => {
                            return (1, BlockStart::Blockquote);
                        },
                        TokenKind::HtmlCommentOpen => {
                            return (1, BlockStart::HtmlComment);
                        },
                        TokenKind::JsxOpenTagStart | TokenKind::JsxCloseTagStart => {
                            if jsx_html_block_mode_at(self, self.pos + 1) {
                                return (0, BlockStart::HtmlFromJsx);
                            }
                            return self.start_at(self.pos, 0);
                        },
                        TokenKind::LinkRefDef => {
                            if parse_link_ref_def(self.tokens[self.pos + 1].raw.as_str()).is_some() {
                                return (2, BlockStart::Skip);
                            }
                            return self.start_at(self.pos + 1, 1);
                        },
                        TokenKind::BlankLine | TokenKind::SoftBreak | TokenKind::HardBreak => {
                            return (2, BlockStart::Skip);
                        },
                        TokenKind::Text | TokenKind::ImageMarker | TokenKind::LinkOpen | TokenKind::Emphasis(_, _) => {
                            return self.start_at(self.pos + 1, 1);
                        },
                        _ => {
                            return self.start_at(self.pos, 0);
                        },
                    }
                }
            }
        }
        self.start_at(self.pos, 0)
    }
}

} // verus!
