//! The token stream the parser reads: one token per lexeme, with its kind,
//! its verbatim text and where it stands in the source.

use vstd::prelude::*;
use crate::ast::Span;
use crate::emphasis::EmphasisChar;

verus! {

/// The character a code fence is made of.
#[derive(Debug, Clone, Copy, PartialEq, Eq, Structural)]
pub enum FenceChar {
    Backtick,
    Tilde,
}

/// The separator after an ordered-list number: `1.` or `1)`.
#[derive(Debug, Clone, Copy, PartialEq, Eq, Structural)]
pub enum OrderedSep {
    Period,
    Paren,
}

/// The form of an autolink: `<scheme:...>`, `<user@host>`, or (GFM) a
/// bare URL or `www.` run.
#[derive(Debug, Clone, Copy, PartialEq, Eq, Structural)]
pub enum AutolinkKind {
    AngleUrl,
    AngleEmail,
    BareUrl,
    BareWww,
}

/// The quote that delimits an attribute string.
#[derive(Debug, Clone, Copy, PartialEq, Eq, Structural)]
pub enum QuoteKind {
    Double,
    Single,
}

/// What a lexeme is. A payload carries what the parser reads of it: the
/// width of leading whitespace, a heading's level, a fence's character and
/// length, a run's character and length, a code span's backtick count, a
/// task box's state, an attribute string's quote, an autolink's form.
#[derive(Debug, Clone, Copy, PartialEq, Eq, Structural)]
pub enum TokenKind {
    Text,
    Whitespace(usize),
    SoftBreak,
    HardBreak,
    BlankLine,
    Eof,
    Heading(u8),
    HeadingTrailingHashes,
    SetextUnderline,
    ThematicBreak,
    BlockQuoteMarker,
    UnorderedListMarker,
    OrderedListMarker(OrderedSep),
    TaskMarker(bool),
    IndentedCodeLine,
    CodeFenceOpen(FenceChar, usize),
    CodeFenceInfo,
    CodeFenceContent,
    CodeFenceClose(FenceChar, usize),
    CodeInlineOpen(usize),
    CodeInlineClose(usize),
    Emphasis(EmphasisChar, u8),
    Strikethrough,
    LinkOpen,
    LinkClose,
    LinkTargetOpen,
    LinkTargetClose,
    ImageMarker,
    Autolink(AutolinkKind),
    EntityRef,
    LinkRefDef,
    FootnoteDefMarker,
    FootnoteRefOpen,
    FrontmatterStart,
    FrontmatterContent,
    FrontmatterEnd,
    Import,
    Export,
    JsxOpenTagStart,
    JsxOpenTagEnd,
    JsxCloseTagStart,
    JsxCloseTagEnd,
    JsxSelfClosingEnd,
    JsxTagName,
    JsxAttributeName,
    JsxAttributeSpread,
    JsxAttrEq,
    JsxAttrString,
    JsxAttrStringOpen(QuoteKind),
    JsxAttrStringClose(QuoteKind),
    JsxFragmentOpen,
    JsxFragmentClose,
    ExpressionStart,
    ExpressionEnd,
    HtmlBlockOpen,
    HtmlBlockClose,
    HtmlCommentOpen,
    HtmlCommentClose,
    MdxCommentOpen,
    MdxCommentClose,
}

/// One lexeme: its kind, its text as it stands in the source, its span,
/// and the position (in characters) in the source where its text starts.
#[derive(Debug, Clone)]
pub struct Token {
    pub kind: TokenKind,
    pub raw: String,
    pub span: Span,
    pub offset: usize,
}

impl Token {
    pub fn new(kind: TokenKind, raw: String, span: Span, offset: usize) -> (t: Token)
        ensures
            t.kind == kind,
            t.raw == raw,
            t.span == span,
            t.offset == offset,
    {
        Token { kind, raw, span, offset }
    }
}

} // verus!
