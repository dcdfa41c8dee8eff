//! Raw HTML blocks that the lexer read as JSX tags (CommonMark 4.6,
//! types 1 and 6), and the verbatim source text of a run of tokens.

use vstd::prelude::*;
use crate::ast::{clone_span, nv, Html, Node, NodeV};
use crate::diagnostic::{Diagnostic, ParseIssue};
use crate::block::kind_in;
use crate::parser::Parser;
use crate::inline::{unescape_markdown, unescaped};
use crate::fence::{lemma_line_end, line_end};
use crate::text::{ascii_lowered, chars_eq, chars_of, contains_seq, is_alnum, is_alpha, is_digit, is_lower, push_all, slice_chars, string_of, vec_contains, vec_has_char};
use crate::token::{QuoteKind, Token, TokenKind};

verus! {

/// The texts of `ts[a..b]`, one after another.
pub open spec fn raws(ts: Seq<Token>, a: int, b: int) -> Seq<char>
    decreases b - a,
{
    if a >= b {
        Seq::empty()
    } else {
        raws(ts, a, b - 1) + ts[b - 1].raw@
    }
}

/// The source text that `ts[start..end]` covers: a slice of the source
/// where one is attached (empty where the offsets do not fit it), else
/// the tokens' texts joined.
pub open spec fn source_range(ts: Seq<Token>, source: Option<String>, start: int, end: int) -> Seq<char> {
    if start >= end || start < 0 || end > ts.len() {
        Seq::empty()
    } else {
        match source {
            Some(src) => {
                let lo = ts[start].offset as int;
                let hi = ts[end - 1].offset + ts[end - 1].raw@.len();
                if lo <= hi <= src@.len() {
                    src@.subrange(lo, hi)
                } else {
                    Seq::empty()
                }
            },
            None => raws(ts, start, end),
        }
    }
}

/// `s` with ASCII capitals made small.
pub open spec fn ascii_lowercased(s: Seq<char>) -> Seq<char> {
    Seq::new(s.len(), |i: int| ascii_lowered(s[i]))
}

/// Tags whose raw HTML block closes on the matching end tag.
pub open spec fn is_type1_tag(s: Seq<char>) -> bool {
    s == "script"@
        || s == "pre"@
        || s == "style"@
        || s == "textarea"@
}

/// Block-level tags whose raw HTML block closes on a blank line.
pub open spec fn is_type6_tag(s: Seq<char>) -> bool {
    s == "address"@
        || s == "article"@
        || s == "aside"@
        || s == "base"@
        || s == "basefont"@
        || s == "blockquote"@
        || s == "body"@
        || s == "caption"@
        || s == "center"@
        || s == "col"@
        || s == "colgroup"@
        || s == "dd"@
        || s == "details"@
        || s == "dialog"@
        || s == "dir"@
        || s == "div"@
        || s == "dl"@
        || s == "dt"@
        || s == "fieldset"@
        || s == "figcaption"@
        || s == "figure"@
        || s == "footer"@
        || s == "form"@
        || s == "frame"@
        || s == "frameset"@
        || s == "h1"@
        || s == "h2"@
        || s == "h3"@
        || s == "h4"@
        || s == "h5"@
        || s == "h6"@
        || s == "head"@
        || s == "header"@
        || s == "hr"@
        || s == "html"@
        || s == "iframe"@
        || s == "legend"@
        || s == "li"@
        || s == "link"@
        || s == "main"@
        || s == "menu"@
        || s == "menuitem"@
        || s == "nav"@
        || s == "noframes"@
        || s == "ol"@
        || s == "optgroup"@
        || s == "option"@
        || s == "p"@
        || s == "param"@
        || s == "search"@
        || s == "section"@
        || s == "summary"@
        || s == "table"@
        || s == "tbody"@
        || s == "td"@
        || s == "tfoot"@
        || s == "th"@
        || s == "thead"@
        || s == "title"@
        || s == "tr"@
        || s == "track"@
        || s == "ul"@
}

/// How a raw HTML block ends.
pub enum HtmlBlockMode {
    /// On the end tag with this (lower-case) name.
    Type1(String),
    /// On a blank line.
    Type6,
    /// On a blank line: any other tag alone on its line.
    Type7,
}

/// An ASCII lower-case letter, a digit or `-`.
pub open spec fn html_name_char(c: char) -> bool {
    is_lower(c) || is_digit(c) || c == '-'
}

/// The tag at `q` has a plain HTML name (lower case, digits, `-`).
pub open spec fn plain_html_tag(ts: Seq<Token>, q: int) -> bool {
    (kind_in(ts, q) == Some(TokenKind::JsxOpenTagStart) || kind_in(ts, q) == Some(TokenKind::JsxCloseTagStart))
        && kind_in(ts, q + 1) == Some(TokenKind::JsxTagName) && forall|k: int|
        0 <= k < ts[q + 1].raw@.len() ==> html_name_char(#[trigger] ts[q + 1].raw@[k])
}

/// A tag name that starts with an ASCII letter and goes on with ASCII
/// letters, digits and `-`.
pub open spec fn htmlish_tag(ts: Seq<Token>, q: int) -> bool {
    (kind_in(ts, q) == Some(TokenKind::JsxOpenTagStart) || kind_in(ts, q) == Some(TokenKind::JsxCloseTagStart))
        && kind_in(ts, q + 1) == Some(TokenKind::JsxTagName) && ts[q + 1].raw@.len() > 0 && is_alpha(
        ts[q + 1].raw@[0],
    ) && forall|k: int| 1 <= k < ts[q + 1].raw@.len() ==> html_alnum_dash(#[trigger] ts[q + 1].raw@[k])
}

/// An ASCII letter or digit, or `-`.
pub open spec fn html_alnum_dash(c: char) -> bool {
    is_alnum(c) || c == '-'
}

/// An attribute string holds a backslash-escaped quote of its own kind.
pub open spec fn escaped_quote(raw: Seq<char>, q: QuoteKind) -> bool {
    match q {
        QuoteKind::Double => contains_seq(raw, seq!['\\', '"']),
        QuoteKind::Single => contains_seq(raw, seq!['\\', '\'']),
    }
}

/// From `i` on, the rest of a tag is valid raw HTML: only attribute names,
/// `=` and quoted strings without escaped quotes up to the tag's end (for
/// an end tag, nothing but its `>`), all on one line.
pub open spec fn raw_tag_valid_from(ts: Seq<Token>, i: int, is_close: bool, valid: bool, quote: Option<QuoteKind>) -> bool
    decreases ts.len() - i,
{
    if i < 0 || i >= ts.len() {
        false
    } else {
        match ts[i].kind {
            TokenKind::JsxAttrStringOpen(k) => if !is_close {
                raw_tag_valid_from(ts, i + 1, is_close, valid, Some(k))
            } else {
                raw_tag_valid_from(ts, i + 1, is_close, false, quote)
            },
            TokenKind::JsxAttrString => if !is_close {
                raw_tag_valid_from(
                    ts,
                    i + 1,
                    is_close,
                    valid && !(quote matches Some(k) && escaped_quote(ts[i].raw@, k)),
                    quote,
                )
            } else {
                raw_tag_valid_from(ts, i + 1, is_close, false, quote)
            },
            TokenKind::JsxAttrStringClose(_) => if !is_close {
                raw_tag_valid_from(ts, i + 1, is_close, valid, None)
            } else {
                raw_tag_valid_from(ts, i + 1, is_close, false, quote)
            },
            TokenKind::JsxAttributeName | TokenKind::JsxAttrEq => if !is_close {
                raw_tag_valid_from(ts, i + 1, is_close, valid, quote)
            } else {
                raw_tag_valid_from(ts, i + 1, is_close, false, quote)
            },
            TokenKind::JsxOpenTagEnd | TokenKind::JsxSelfClosingEnd => if !is_close {
                valid && quote is None
            } else {
                raw_tag_valid_from(ts, i + 1, is_close, false, quote)
            },
            TokenKind::JsxCloseTagEnd => if is_close {
                valid
            } else {
                raw_tag_valid_from(ts, i + 1, is_close, false, quote)
            },
            TokenKind::Eof | TokenKind::BlankLine | TokenKind::SoftBreak | TokenKind::HardBreak => false,
            _ => raw_tag_valid_from(ts, i + 1, is_close, false, quote),
        }
    }
}

/// From `i` on (with `depth` tags open), the tag stays on line `line` and
/// has no newline in it: where it ends, or `None`. Past the last token the
/// scan ends where it stands.
pub open spec fn tag_line_end(ts: Seq<Token>, i: int, line: usize, depth: int) -> Option<int>
    decreases ts.len() - i,
{
    if i < 0 || i >= ts.len() {
        Some(i)
    } else if ts[i].raw@.contains('\n') || ts[i].span.line != line {
        None
    } else {
        match ts[i].kind {
            TokenKind::JsxOpenTagStart | TokenKind::JsxCloseTagStart => tag_line_end(ts, i + 1, line, depth + 1),
            TokenKind::JsxOpenTagEnd | TokenKind::JsxCloseTagEnd | TokenKind::JsxSelfClosingEnd => if depth - 1 == 0 {
                Some(i + 1)
            } else {
                tag_line_end(ts, i + 1, line, depth - 1)
            },
            _ => tag_line_end(ts, i + 1, line, depth),
        }
    }
}

/// From `i` on, only whitespace before the end of the line.
pub open spec fn rest_blank(ts: Seq<Token>, i: int) -> bool
    decreases ts.len() - i,
{
    if i < 0 || i >= ts.len() {
        true
    } else {
        match ts[i].kind {
            TokenKind::SoftBreak | TokenKind::HardBreak | TokenKind::BlankLine | TokenKind::Eof => true,
            TokenKind::Whitespace(_) => rest_blank(ts, i + 1),
            _ => false,
        }
    }
}

/// The tag at `p` fits on its line and nothing but whitespace follows it
/// there.
pub open spec fn tag_alone_on_line(ts: Seq<Token>, p: int) -> bool {
    match tag_line_end(ts, p, ts[p].span.line, 0) {
        None => false,
        Some(j) => rest_blank(ts, j),
    }
}

/// The tag at `p` is valid raw HTML.
pub open spec fn raw_tag_valid(ts: Seq<Token>, p: int) -> bool {
    raw_tag_valid_from(ts, p + 2, ts[p].kind == TokenKind::JsxCloseTagStart, true, None)
}

/// How a raw HTML block ends, as the contracts speak of it.
pub enum HtmlKind {
    Type1(Seq<char>),
    Type6,
    Type7,
}

/// The kind of the raw HTML block that a tag at `p` opens, if it opens
/// one (CommonMark 4.6): type 1 or 6 by the tag's name; type 7 for any
/// other plain lower-case tag that is valid raw HTML and stands alone on
/// its line (under `strict`, any HTML-shaped name). The tag must start in
/// one of the first four columns.
pub open spec fn html_mode(ts: Seq<Token>, p: int, strict: bool) -> Option<HtmlKind> {
    if 0 <= p && p + 1 < ts.len() && ts[p].span.column <= 4 && (ts[p].kind == TokenKind::JsxOpenTagStart
        || ts[p].kind == TokenKind::JsxCloseTagStart) && ts[p + 1].kind == TokenKind::JsxTagName {
        let lower = ascii_lowercased(ts[p + 1].raw@);
        if is_type1_tag(lower) {
            Some(HtmlKind::Type1(lower))
        } else if is_type6_tag(lower) {
            Some(HtmlKind::Type6)
        } else if plain_html_tag(ts, p) && raw_tag_valid(ts, p) && tag_alone_on_line(ts, p) {
            Some(HtmlKind::Type7)
        } else if strict && htmlish_tag(ts, p) && raw_tag_valid(ts, p) && tag_alone_on_line(ts, p) {
            Some(HtmlKind::Type7)
        } else {
            None
        }
    } else {
        None
    }
}

/// The first line break, blank line or `Eof` from `q` on, or the end of
/// the tokens.
pub open spec fn line_stop(ts: Seq<Token>, q: int) -> int
    decreases ts.len() - q,
{
    if q < 0 || q >= ts.len() {
        q
    } else {
        match ts[q].kind {
            TokenKind::SoftBreak | TokenKind::HardBreak | TokenKind::BlankLine | TokenKind::Eof => q,
            _ => line_stop(ts, q + 1),
        }
    }
}

proof fn lemma_line_stop(ts: Seq<Token>, q: int)
    requires
        0 <= q,
    ensures
        q <= line_stop(ts, q),
        q <= ts.len() ==> line_stop(ts, q) <= ts.len(),
    decreases ts.len() - q,
{
    if q < ts.len() {
        lemma_line_stop(ts, q + 1);
    }
}

/// `>` markers (each with one space after it) taken off the start of a
/// line.
pub open spec fn strip_gt(l: Seq<char>) -> Seq<char>
    decreases l.len(),
{
    if l.len() > 0 && l[0] == '>' {
        let r = l.drop_first();
        strip_gt(if r.len() > 0 && r[0] == ' ' { r.drop_first() } else { r })
    } else {
        l
    }
}

/// Every line of `s` from `p` on with its leading `>` markers taken off.
pub open spec fn unquote_lines(s: Seq<char>, p: int) -> Seq<char>
    decreases s.len() - p,
{
    if p < 0 || p >= s.len() {
        Seq::empty()
    } else {
        proof {
            lemma_line_end(s, p);
        }
        strip_gt(s.subrange(p, line_end(s, p))) + unquote_lines(s, line_end(s, p))
    }
}

/// The text of a raw HTML block inside a block quote: where a line starts
/// with `>`, the lines after the first lose their quote markers
/// (CommonMark 5.1).
pub open spec fn html_block_text(v: Seq<char>) -> Seq<char> {
    if contains_seq(v, seq!['\n', '>']) {
        v.subrange(0, line_end(v, 0)) + unquote_lines(v, line_end(v, 0))
    } else {
        v
    }
}

/// Where a type-1 block that is open at `q` ends: at the end of the line
/// of the end tag named `tag`, or at `Eof`.
pub open spec fn type1_end(ts: Seq<Token>, q: int, tag: Seq<char>) -> int
    decreases ts.len() - q,
{
    if q < 0 || q >= ts.len() || ts[q].kind == TokenKind::Eof {
        q
    } else if ts[q].kind == TokenKind::JsxCloseTagStart {
        let named = kind_in(ts, q + 1) == Some(TokenKind::JsxTagName);
        let name = if named { ascii_lowercased(ts[q + 1].raw@) } else { Seq::<char>::empty() };
        let q2 = if named { q + 2 } else { q + 1 };
        let q3 = if kind_in(ts, q2) == Some(TokenKind::JsxCloseTagEnd) { q2 + 1 } else { q2 };
        if name == tag {
            line_stop(ts, q3)
        } else {
            type1_end(ts, q3, tag)
        }
    } else {
        type1_end(ts, q + 1, tag)
    }
}

/// Where a type-6 block that is open at `q` ends: at the first blank
/// line or `Eof`.
pub open spec fn type6_end(ts: Seq<Token>, q: int) -> int
    decreases ts.len() - q,
{
    if q < 0 || q >= ts.len() || ts[q].kind == TokenKind::BlankLine || ts[q].kind == TokenKind::Eof {
        q
    } else {
        type6_end(ts, q + 1)
    }
}

proof fn lemma_type1_end(ts: Seq<Token>, q: int, tag: Seq<char>)
    requires
        0 <= q,
    ensures
        q <= type1_end(ts, q, tag),
        q < ts.len() ==> type1_end(ts, q, tag) <= ts.len(),
        q < ts.len() && ts[q].kind != TokenKind::Eof ==> type1_end(ts, q, tag) > q,
    decreases ts.len() - q,
{
    if q < ts.len() && ts[q].kind != TokenKind::Eof {
        if ts[q].kind == TokenKind::JsxCloseTagStart {
            let named = kind_in(ts, q + 1) == Some(TokenKind::JsxTagName);
            let q2 = if named { q + 2 } else { q + 1 };
            let q3 = if kind_in(ts, q2) == Some(TokenKind::JsxCloseTagEnd) { q2 + 1 } else { q2 };
            lemma_type1_end(ts, q3, tag);
            lemma_line_stop(ts, q3);
        } else {
            lemma_type1_end(ts, q + 1, tag);
        }
    }
}

proof fn lemma_type6_end(ts: Seq<Token>, q: int)
    requires
        0 <= q,
    ensures
        q <= type6_end(ts, q),
        q < ts.len() && ts[q].kind != TokenKind::Eof && ts[q].kind != TokenKind::BlankLine ==> type6_end(ts, q) > q,
    decreases ts.len() - q,
{
    if q < ts.len() && ts[q].kind != TokenKind::Eof && ts[q].kind != TokenKind::BlankLine {
        lemma_type6_end(ts, q + 1);
    }
}

/// Whether the tag at `q` has a plain HTML name.
pub(crate) fn plain_html_tag_at(p: &Parser, q: usize) -> (r: bool)
    ensures
        r == plain_html_tag(p.tokens@, q as int),
{
    if q >= p.tokens.len() || p.tokens.len() - q < 2 {
        return false;
    }
    if !(p.tokens[q].kind == TokenKind::JsxOpenTagStart || p.tokens[q].kind == TokenKind::JsxCloseTagStart) {
        return false;
    }
    if p.tokens[q + 1].kind != TokenKind::JsxTagName {
        return false;
    }
    let v = chars_of(p.tokens[q + 1].raw.as_str());
    let mut k: usize = 0;
    while k < v.len()
        invariant
            k <= v.len(),
            v@ == p.tokens@[q + 1].raw@,
            forall|j: int| 0 <= j < k ==> html_name_char(#[trigger] v@[j]),
        decreases v.len() - k,
    {
        let c = v[k];
        if !(('a' <= c && c <= 'z') || ('0' <= c && c <= '9') || c == '-') {
            assert(!html_name_char(v@[k as int]));
            return false;
        }
        k += 1;
    }
    true
}

/// Whether the tag at `q` has an HTML-shaped name.
fn htmlish_tag_at(p: &Parser, q: usize) -> (r: bool)
    ensures
        r == htmlish_tag(p.tokens@, q as int),
{
    if q >= p.tokens.len() || p.tokens.len() - q < 2 {
        return false;
    }
    if !(p.tokens[q].kind == TokenKind::JsxOpenTagStart || p.tokens[q].kind == TokenKind::JsxCloseTagStart) {
        return false;
    }
    if p.tokens[q + 1].kind != TokenKind::JsxTagName {
        return false;
    }
    let v = chars_of(p.tokens[q + 1].raw.as_str());
    if v.len() == 0 {
        return false;
    }
    let c0 = v[0];
    if !(('a' <= c0 && c0 <= 'z') || ('A' <= c0 && c0 <= 'Z')) {
        return false;
    }
    let mut k: usize = 1;
    while k < v.len()
        invariant
            1 <= k <= v.len(),
            v@ == p.tokens@[q + 1].raw@,
            forall|j: int| 1 <= j < k ==> html_alnum_dash(#[trigger] v@[j]),
        decreases v.len() - k,
    {
        let c = v[k];
        if !(('a' <= c && c <= 'z') || ('A' <= c && c <= 'Z') || ('0' <= c && c <= '9') || c == '-') {
            assert(!html_alnum_dash(v@[k as int]));
            return false;
        }
        k += 1;
    }
    true
}

/// Whether the tag at `q` (a start or end tag) is valid raw HTML.
fn raw_tag_valid_at(p: &Parser, q: usize) -> (r: bool)
    requires
        q + 1 < p.tokens.len(),
    ensures
        r == raw_tag_valid(p.tokens@, q as int),
{
    let ghost ts = p.tokens@;
    let is_close = p.tokens[q].kind == TokenKind::JsxCloseTagStart;
    let mut i: usize = q + 2;
    let mut valid = true;
    let mut quote: Option<QuoteKind> = None;
    let mut dq: Vec<char> = Vec::new();
    dq.push('\\');
    dq.push('"');
    let mut sq: Vec<char> = Vec::new();
    sq.push('\\');
    sq.push('\'');
    assert(dq@ =~= seq!['\\', '"']);
    assert(sq@ =~= seq!['\\', '\'']);
    while i < p.tokens.len()
        invariant
            q + 2 <= i,
            dq@ == seq!['\\', '"'],
            sq@ == seq!['\\', '\''],
            ts == p.tokens@,
            is_close == (ts[q as int].kind == TokenKind::JsxCloseTagStart),
            raw_tag_valid(ts, q as int) == raw_tag_valid_from(ts, i as int, is_close, valid, quote),
        decreases p.tokens.len() - i,
    {
        match p.tokens[i].kind {
            TokenKind::JsxAttrStringOpen(k) => {
                if !is_close {
                    quote = Some(k);
                } else {
                    valid = false;
                }
            },
            TokenKind::JsxAttrString => {
                if !is_close {
                    if let Some(k) = quote {
                        let raw = chars_of(p.tokens[i].raw.as_str());
                        let esc = match k {
                            QuoteKind::Double => vec_contains(&raw, &dq),
                            QuoteKind::Single => vec_contains(&raw, &sq),
                        };
                        if esc {
                            valid = false;
                        }
                    }
                } else {
                    valid = false;
                }
            },
            TokenKind::JsxAttrStringClose(_) => {
                if !is_close {
                    quote = None;
                } else {
                    valid = false;
                }
            },
            TokenKind::JsxAttributeName | TokenKind::JsxAttrEq => {
                if is_close {
                    valid = false;
                }
            },
            TokenKind::JsxOpenTagEnd | TokenKind::JsxSelfClosingEnd => {
                if !is_close {
                    return valid && quote.is_none();
                }
                valid = false;
            },
            TokenKind::JsxCloseTagEnd => {
                if is_close {
                    return valid;
                }
                valid = false;
            },
            TokenKind::Eof | TokenKind::BlankLine | TokenKind::SoftBreak | TokenKind::HardBreak => {
                return false;
            },
            _ => {
                valid = false;
            },
        }
        i += 1;
    }
    false
}

/// Whether the tag at `q` fits on its line with only whitespace after it.
fn tag_alone_on_line_at(p: &Parser, q: usize) -> (r: bool)
    requires
        q < p.tokens.len(),
    ensures
        r == tag_alone_on_line(p.tokens@, q as int),
{
    let ghost ts = p.tokens@;
    let line = p.tokens[q].span.line;
    let mut i: usize = q;
    let mut opens: usize = 0;
    let mut closes: usize = 0;
    let mut ended = false;
    while i < p.tokens.len()
        invariant_except_break
            tag_line_end(ts, q as int, line, 0) == tag_line_end(ts, i as int, line, opens - closes),
        invariant
            q <= i,
            opens + closes <= i - q,
            ts == p.tokens@,
            line == ts[q as int].span.line,
        ensures
            tag_line_end(ts, q as int, line, 0) == Some(i as int),
        decreases p.tokens.len() - i,
    {
        let t = &p.tokens[i];
        if vec_has_char(&chars_of(t.raw.as_str()), '\n') || t.span.line != line {
            return false;
        }
        match t.kind {
            TokenKind::JsxOpenTagStart | TokenKind::JsxCloseTagStart => {
                opens += 1;
            },
            TokenKind::JsxOpenTagEnd | TokenKind::JsxCloseTagEnd | TokenKind::JsxSelfClosingEnd => {
                if closes + 1 == opens {
                    i += 1;
                    break;
                }
                closes += 1;
            },
            _ => {},
        }
        i += 1;
    }
    while i < p.tokens.len()
        invariant
            ts == p.tokens@,
            tag_alone_on_line(ts, q as int) == rest_blank(ts, i as int),
        decreases p.tokens.len() - i,
    {
        match p.tokens[i].kind {
            TokenKind::SoftBreak | TokenKind::HardBreak | TokenKind::BlankLine | TokenKind::Eof => {
                return true;
            },
            TokenKind::Whitespace(_) => {
                i += 1;
            },
            _ => {
                return false;
            },
        }
    }
    true
}

/// The mode of the raw HTML block that the tag at `q` opens, if any.
fn html_mode_at(p: &Parser, q: usize) -> (r: Option<HtmlBlockMode>)
    ensures
        match html_mode(p.tokens@, q as int, p.options.cm_strict_html_blocks) {
            None => r is None,
            Some(HtmlKind::Type6) => r matches Some(HtmlBlockMode::Type6),
            Some(HtmlKind::Type7) => r matches Some(HtmlBlockMode::Type7),
            Some(HtmlKind::Type1(tag)) => r matches Some(HtmlBlockMode::Type1(t)) && t@ == tag,
        },
{
    if q >= p.tokens.len() || p.tokens.len() - q < 2 {
        return None;
    }
    let open = &p.tokens[q];
    if open.span.column > 4 || !(open.kind == TokenKind::JsxOpenTagStart || open.kind == TokenKind::JsxCloseTagStart) {
        return None;
    }
    let name = &p.tokens[q + 1];
    if name.kind != TokenKind::JsxTagName {
        return None;
    }
    let lower = ascii_lowercase_chars(&chars_of(name.raw.as_str()));
    if type1_tag(&lower) {
        Some(HtmlBlockMode::Type1(string_of(&lower)))
    } else if type6_tag(&lower) {
        Some(HtmlBlockMode::Type6)
    } else if plain_html_tag_at(p, q) && raw_tag_valid_at(p, q) && tag_alone_on_line_at(p, q) {
        Some(HtmlBlockMode::Type7)
    } else if p.options.cm_strict_html_blocks && htmlish_tag_at(p, q) && raw_tag_valid_at(p, q)
        && tag_alone_on_line_at(p, q) {
        Some(HtmlBlockMode::Type7)
    } else {
        None
    }
}

/// Whether the tag at `q` opens a raw HTML block.
pub(crate) fn jsx_html_block_mode_at(p: &Parser, q: usize) -> (r: bool)
    ensures
        r == (html_mode(p.tokens@, q as int, p.options.cm_strict_html_blocks) is Some),
{
    html_mode_at(p, q).is_some()
}

/// `>` markers (each with one space after it) taken off the start of `l`.
fn strip_gt_line(l: &Vec<char>) -> (r: Vec<char>)
    ensures
        r@ == strip_gt(l@),
{
    let mut p: usize = 0;
    assert(l@.skip(0) =~= l@);
    while p < l.len() && l[p] == '>'
        invariant
            p <= l.len(),
            strip_gt(l@) == strip_gt(l@.skip(p as int)),
        decreases l.len() - p,
    {
        let ghost t = l@.skip(p as int);
        assert(t.drop_first() =~= l@.skip(p + 1));
        p += 1;
        if p < l.len() && l[p] == ' ' {
            assert(l@.skip(p as int).drop_first() =~= l@.skip(p + 1));
            p += 1;
        }
    }
    proof {
        if p < l.len() {
            assert(l@.skip(p as int)[0] == l@[p as int]);
        }
    }
    slice_chars(l, p, l.len())
}

/// The text of a raw HTML block with the quote markers of its later lines
/// taken off, where a line starts with `>`.
pub fn unquote_html_block(v: &Vec<char>) -> (r: Vec<char>)
    ensures
        r@ == html_block_text(v@),
{
    let mut pat: Vec<char> = Vec::new();
    pat.push('\n');
    pat.push('>');
    assert(pat@ =~= seq!['\n', '>']);
    if !vec_contains(v, &pat) {
        return slice_chars(v, 0, v.len());
    }
    let n = v.len();
    let mut e: usize = 0;
    while e < n && v[e] != '\n'
        invariant
            e <= n == v@.len(),
            line_end(v@, 0) == line_end(v@, e as int),
        decreases n - e,
    {
        e += 1;
    }
    if e < n {
        e += 1;
    }
    let mut out = slice_chars(v, 0, e);
    let mut pos: usize = e;
    while pos < n
        invariant
            e <= pos <= n == v@.len(),
            e as int == line_end(v@, 0),
            out@ + unquote_lines(v@, pos as int) == v@.subrange(0, e as int) + unquote_lines(v@, e as int),
        decreases n - pos,
    {
        let mut f = pos;
        while f < n && v[f] != '\n'
            invariant
                pos <= f <= n == v@.len(),
                line_end(v@, pos as int) == line_end(v@, f as int),
            decreases n - f,
        {
            f += 1;
        }
        if f < n {
            f += 1;
        }
        proof {
            lemma_line_end(v@, pos as int);
        }
        let line = slice_chars(v, pos, f);
        let kept = strip_gt_line(&line);
        let ghost before = out@;
        push_all(&mut out, &kept);
        proof {
            assert(before + unquote_lines(v@, pos as int) == before + (kept@ + unquote_lines(v@, f as int)));
            assert(before + (kept@ + unquote_lines(v@, f as int)) =~= out@ + unquote_lines(v@, f as int));
        }
        pos = f;
    }
    assert(out@ + unquote_lines(v@, pos as int) =~= out@);
    out
}

pub(crate) fn eq_lit(v: &Vec<char>, lit: &str) -> (r: bool)
    ensures
        r == (v@ == lit@),
{
    chars_eq(v, &chars_of(lit))
}

fn type1_tag(v: &Vec<char>) -> (r: bool)
    ensures
        r == is_type1_tag(v@),
{
    eq_lit(v, "script")
        || eq_lit(v, "pre")
        || eq_lit(v, "style")
        || eq_lit(v, "textarea")
}

fn type6_tag(v: &Vec<char>) -> (r: bool)
    ensures
        r == is_type6_tag(v@),
{
    eq_lit(v, "address")
        || eq_lit(v, "article")
        || eq_lit(v, "aside")
        || eq_lit(v, "base")
        || eq_lit(v, "basefont")
        || eq_lit(v, "blockquote")
        || eq_lit(v, "body")
        || eq_lit(v, "caption")
        || eq_lit(v, "center")
        || eq_lit(v, "col")
        || eq_lit(v, "colgroup")
        || eq_lit(v, "dd")
        || eq_lit(v, "details")
        || eq_lit(v, "dialog")
        || eq_lit(v, "dir")
        || eq_lit(v, "div")
        || eq_lit(v, "dl")
        || eq_lit(v, "dt")
        || eq_lit(v, "fieldset")
        || eq_lit(v, "figcaption")
        || eq_lit(v, "figure")
        || eq_lit(v, "footer")
        || eq_lit(v, "form")
        || eq_lit(v, "frame")
        || eq_lit(v, "frameset")
        || eq_lit(v, "h1")
        || eq_lit(v, "h2")
        || eq_lit(v, "h3")
        || eq_lit(v, "h4")
        || eq_lit(v, "h5")
        || eq_lit(v, "h6")
        || eq_lit(v, "head")
        || eq_lit(v, "header")
        || eq_lit(v, "hr")
        || eq_lit(v, "html")
        || eq_lit(v, "iframe")
        || eq_lit(v, "legend")
        || eq_lit(v, "li")
        || eq_lit(v, "link")
        || eq_lit(v, "main")
        || eq_lit(v, "menu")
        || eq_lit(v, "menuitem")
        || eq_lit(v, "nav")
        || eq_lit(v, "noframes")
        || eq_lit(v, "ol")
        || eq_lit(v, "optgroup")
        || eq_lit(v, "option")
        || eq_lit(v, "p")
        || eq_lit(v, "param")
        || eq_lit(v, "search")
        || eq_lit(v, "section")
        || eq_lit(v, "summary")
        || eq_lit(v, "table")
        || eq_lit(v, "tbody")
        || eq_lit(v, "td")
        || eq_lit(v, "tfoot")
        || eq_lit(v, "th")
        || eq_lit(v, "thead")
        || eq_lit(v, "title")
        || eq_lit(v, "tr")
        || eq_lit(v, "track")
        || eq_lit(v, "ul")
}

/// `v` with ASCII capitals made small.
pub fn ascii_lowercase_chars(v: &Vec<char>) -> (r: Vec<char>)
    ensures
        r@ == ascii_lowercased(v@),
{
    let mut out: Vec<char> = Vec::new();
    let mut i: usize = 0;
    while i < v.len()
        invariant
            i <= v.len(),
            out@ == ascii_lowercased(v@).take(i as int),
        decreases v.len() - i,
    {
        let c = v[i];
        let l = if 'A' <= c && c <= 'Z' {
            ((c as u8) + 32) as char
        } else {
            c
        };
        out.push(l);
        i += 1;
        assert(out@ =~= ascii_lowercased(v@).take(i as int));
    }
    assert(ascii_lowercased(v@).take(v.len() as int) =~= ascii_lowercased(v@));
    out
}

impl Parser {
    /// The verbatim source text that `tokens[start..end]` covers: sliced
    /// from the attached source, or the tokens' texts joined where none is
    /// attached.
    pub fn raw_source_for_token_range(&self, start: usize, end: usize) -> (r: String)
        ensures
            r@ == source_range(self.tokens@, self.source, start as int, end as int),
    {
        if start >= end || end > self.tokens.len() {
            return String::new();
        }
        match &self.source {
            Some(src) => {
                let lo = self.tokens[start].offset;
                let last = &self.tokens[end - 1];
                let s = chars_of(src.as_str());
                let n = chars_of(last.raw.as_str()).len();
                if last.offset <= s.len() && n <= s.len() - last.offset && lo <= last.offset + n {
                    string_of(&slice_chars(&s, lo, last.offset + n))
                } else {
                    String::new()
                }
            },
            None => {
                let mut out: Vec<char> = Vec::new();
                let mut i: usize = start;
                while i < end
                    invariant
                        start <= i <= end <= self.tokens.len(),
                        out@ == raws(self.tokens@, start as int, i as int),
                    decreases end - i,
                {
                    let t = chars_of(self.tokens[i].raw.as_str());
                    push_all(&mut out, &t);
                    i += 1;
                }
                string_of(&out)
            },
        }
    }

    /// Whether the tag under the cursor opens a raw HTML block, and which
    /// kind. The cursor stays.
    pub fn jsx_html_block_mode(&self) -> (r: Option<HtmlBlockMode>)
        ensures
            match html_mode(self.tokens@, self.pos as int, self.options.cm_strict_html_blocks) {
                None => r is None,
                Some(HtmlKind::Type6) => r matches Some(HtmlBlockMode::Type6),
                Some(HtmlKind::Type7) => r matches Some(HtmlBlockMode::Type7),
                Some(HtmlKind::Type1(tag)) => r matches Some(HtmlBlockMode::Type1(t)) && t@ == tag,
            },
    {
        html_mode_at(self, self.pos)
    }

    /// A raw HTML block that the lexer read as JSX: type 1 runs to the
    /// matching end tag, type 6 to the next blank line. The value is the
    /// verbatim source text of the tokens it covers, so whitespace inside
    /// the tags survives.
    pub fn parse_html_block_from_jsx(&mut self, mode: HtmlBlockMode) -> (n: Node)
        requires
            old(self).pos < old(self).tokens.len(),
            kind_in(old(self).tokens@, old(self).pos as int) != Some(TokenKind::Eof),
            kind_in(old(self).tokens@, old(self).pos as int) != Some(TokenKind::BlankLine),
        ensures
            ({
                let p = old(self).pos as int;
                let end = match mode {
                    HtmlBlockMode::Type1(tag) => type1_end(old(self).tokens@, p, tag@),
                    HtmlBlockMode::Type6 | HtmlBlockMode::Type7 => type6_end(old(self).tokens@, p),
                };
                &&& final(self).pos == end
                &&& nv(n) == NodeV::Html(
                    html_block_text(source_range(old(self).tokens@, old(self).source, p, end)),
                    old(self).tokens@[p].span,
                )
            }),
            final(self).pos > old(self).pos,
            final(self).tokens == old(self).tokens,
            final(self).source == old(self).source,
            final(self).refs == old(self).refs,
            final(self).options == old(self).options,
            final(self).link_label_depth == old(self).link_label_depth,
            final(self).jsx_open_stack == old(self).jsx_open_stack,
            ({
                let p = old(self).pos as int;
                let ts = old(self).tokens@;
                if ts[p].kind == TokenKind::JsxCloseTagStart {
                    &&& final(self).diagnostics@.len() == old(self).diagnostics@.len() + 1
                    &&& final(self).diagnostics@.drop_last() == old(self).diagnostics@
                    &&& final(self).diagnostics@.last().span == ts[p].span
                    &&& final(self).diagnostics@.last().issue matches ParseIssue::OrphanCloseTag(name) && name@
                        == if kind_in(ts, p + 1) == Some(TokenKind::JsxTagName) {
                        ts[p + 1].raw@
                    } else {
                        Seq::<char>::empty()
                    }
                } else {
                    final(self).diagnostics == old(self).diagnostics
                }
            }),
    {
        let ghost ts = self.tokens@;
        let ghost p = self.pos as int;
        let span = self.current_span();
        let start = self.pos;
        let orphan: Option<String> = if self.tokens[self.pos].kind == TokenKind::JsxCloseTagStart {
            if self.tokens.len() - self.pos >= 2 && self.tokens[self.pos + 1].kind == TokenKind::JsxTagName {
                Some(self.tokens[self.pos + 1].raw.clone())
            } else {
                Some(String::new())
            }
        } else {
            None
        };
        match mode {
            HtmlBlockMode::Type1(tag) => {
                let tag_chars = chars_of(tag.as_str());
                proof {
                    lemma_type1_end(ts, p, tag@);
                }
                loop
                    invariant_except_break
                        type1_end(ts, self.pos as int, tag@) == type1_end(ts, p, tag@),
                        self.pos < self.tokens.len() ==> self.pos == p || self.pos > p,
                    invariant
                        p <= self.pos <= self.tokens.len(),
                        tag_chars@ == tag@,
                        self.tokens@ == ts,
                        self.tokens == old(self).tokens,
                        self.source == old(self).source,
                        self.refs == old(self).refs,
                        self.options == old(self).options,
                        self.diagnostics == old(self).diagnostics,
                        self.link_label_depth == old(self).link_label_depth,
                        self.jsx_open_stack == old(self).jsx_open_stack,
                        p == old(self).pos,
                    ensures
                        self.pos == type1_end(ts, p, tag@),
                        p <= self.pos <= self.tokens.len(),
                        self.tokens == old(self).tokens,
                        self.source == old(self).source,
                        self.refs == old(self).refs,
                        self.options == old(self).options,
                        self.diagnostics == old(self).diagnostics,
                        self.link_label_depth == old(self).link_label_depth,
                        self.jsx_open_stack == old(self).jsx_open_stack,
                    decreases self.tokens.len() - self.pos,
                {
                    match self.peek_kind() {
                        Some(TokenKind::JsxCloseTagStart) => {
                            self.advance();
                            let close_name = if self.peek_kind() == Some(TokenKind::JsxTagName) {
                                let l = ascii_lowercase_chars(&chars_of(self.tokens[self.pos].raw.as_str()));
                                self.advance();
                                l
                            } else {
                                Vec::new()
                            };
                            if self.peek_kind() == Some(TokenKind::JsxCloseTagEnd) {
                                self.advance();
                            }
                            if chars_eq(&close_name, &tag_chars) {
                                let ghost q3 = self.pos as int;
                                proof {
                                    lemma_line_stop(ts, q3);
                                }
                                while self.pos < self.tokens.len() && !(self.tokens[self.pos].kind == TokenKind::SoftBreak
                                    || self.tokens[self.pos].kind == TokenKind::HardBreak || self.tokens[self.pos].kind
                                    == TokenKind::BlankLine || self.tokens[self.pos].kind == TokenKind::Eof)
                                    invariant
                                        q3 <= self.pos <= self.tokens.len(),
                                        line_stop(ts, self.pos as int) == line_stop(ts, q3),
                                        self.tokens@ == ts,
                                        self.tokens == old(self).tokens,
                                        self.source == old(self).source,
                                        self.refs == old(self).refs,
                                        self.options == old(self).options,
                                        self.diagnostics == old(self).diagnostics,
                                        self.link_label_depth == old(self).link_label_depth,
                                        self.jsx_open_stack == old(self).jsx_open_stack,
                                    decreases self.tokens.len() - self.pos,
                                {
                                    self.advance();
                                }
                                break;
                            }
                        },
                        Some(TokenKind::Eof) | None => {
                            break;
                        },
                        _ => {
                            self.advance();
                        },
                    }
                }
            },
            HtmlBlockMode::Type6 | HtmlBlockMode::Type7 => {
                proof {
                    lemma_type6_end(ts, p);
                }
                loop
                    invariant_except_break
                        type6_end(ts, self.pos as int) == type6_end(ts, p),
                    invariant
                        p <= self.pos <= self.tokens.len(),
                        self.tokens@ == ts,
                        self.tokens == old(self).tokens,
                        self.source == old(self).source,
                        self.refs == old(self).refs,
                        self.options == old(self).options,
                        self.diagnostics == old(self).diagnostics,
                        self.link_label_depth == old(self).link_label_depth,
                        self.jsx_open_stack == old(self).jsx_open_stack,
                        p == old(self).pos,
                    ensures
                        self.pos == type6_end(ts, p),
                        p <= self.pos <= self.tokens.len(),
                        self.tokens == old(self).tokens,
                        self.source == old(self).source,
                        self.refs == old(self).refs,
                        self.options == old(self).options,
                        self.diagnostics == old(self).diagnostics,
                        self.link_label_depth == old(self).link_label_depth,
                        self.jsx_open_stack == old(self).jsx_open_stack,
                    decreases self.tokens.len() - self.pos,
                {
                    match self.peek_kind() {
                        Some(TokenKind::BlankLine) | Some(TokenKind::Eof) | None => {
                            break;
                        },
                        _ => {
                            self.advance();
                        },
                    }
                }
            },
        }
        let raw = chars_of(self.raw_source_for_token_range(start, self.pos).as_str());
        let value = string_of(&unquote_html_block(&raw));
        if let Some(name) = orphan {
            self.diagnostics.push(Diagnostic { issue: ParseIssue::OrphanCloseTag(name), span: clone_span(&span) });
        }
        Node::Html(Html { value, span })
    }
}

/// Where a plain tag that opens at `q` ends: at its `>` (`/>` for a start
/// tag, `>` of an end tag for an end tag), or past the last token; `None`
/// where `Eof` comes first.
pub open spec fn tag_end(ts: Seq<Token>, q: int, want_close: bool) -> Option<int>
    decreases ts.len() - q,
{
    if q < 0 || q >= ts.len() {
        Some(q)
    } else {
        let done = match ts[q].kind {
            TokenKind::JsxCloseTagEnd => want_close,
            TokenKind::JsxOpenTagEnd | TokenKind::JsxSelfClosingEnd => !want_close,
            _ => false,
        };
        if done {
            Some(q)
        } else if ts[q].kind == TokenKind::Eof {
            None
        } else {
            tag_end(ts, q + 1, want_close)
        }
    }
}

proof fn lemma_tag_end(ts: Seq<Token>, q: int, want_close: bool)
    requires
        0 <= q <= ts.len(),
    ensures
        tag_end(ts, q, want_close) matches Some(e) ==> q <= e <= ts.len(),
    decreases ts.len() - q,
{
    if q < ts.len() {
        lemma_tag_end(ts, q + 1, want_close);
    }
}

/// An inline tag with a plain HTML name at `p`: raw HTML where it is valid
/// as such, else its text with escapes resolved; with where the cursor
/// goes. `None` where no such tag starts at `p` or `Eof` comes before its
/// end.
pub open spec fn inline_raw_tag(ts: Seq<Token>, source: Option<String>, p: int) -> Option<(NodeV, int)> {
    if !(0 <= p < ts.len()) || !plain_html_tag(ts, p) {
        None
    } else {
        match tag_end(ts, p, ts[p].kind == TokenKind::JsxCloseTagStart) {
            None => None,
            Some(e) => {
                let value = source_range(ts, source, p, e + 1);
                Some((if raw_tag_valid(ts, p) {
                    NodeV::Html(value, ts[p].span)
                } else {
                    NodeV::Text(unescaped(value), ts[p].span)
                }, e + 1))
            },
        }
    }
}

impl Parser {
    /// A JSX-shaped tag with a plain HTML name inside inline content: raw
    /// HTML where it is valid as such, else literal text. `None`, with the
    /// cursor where it was, where no such tag starts or `Eof` comes first.
    pub fn parse_inline_raw_html_tag(&mut self) -> (r: Option<Node>)
        requires
            old(self).tokens.len() < usize::MAX,
        ensures
            match inline_raw_tag(old(self).tokens@, old(self).source, old(self).pos as int) {
                None => r is None && final(self).pos == old(self).pos,
                Some((v, e)) => r matches Some(n) && nv(n) == v && final(self).pos == e,
            },
            final(self).tokens == old(self).tokens,
            final(self).refs == old(self).refs,
            final(self).options == old(self).options,
            final(self).diagnostics == old(self).diagnostics,
            final(self).source == old(self).source,
            final(self).link_label_depth == old(self).link_label_depth,
            final(self).jsx_open_stack == old(self).jsx_open_stack,
    {
        let ghost ts = self.tokens@;
        let p = self.pos;
        if p >= self.tokens.len() || !plain_html_tag_at(self, p) {
            return None;
        }
        let span = self.current_span();
        let valid = raw_tag_valid_at(self, p);
        let want_close = self.tokens[p].kind == TokenKind::JsxCloseTagStart;
        let mut end_idx = p;
        proof {
            lemma_tag_end(ts, p as int, want_close);
        }
        while end_idx < self.tokens.len()
            invariant
                p <= end_idx <= self.tokens.len(),
                self.tokens@ == ts,
                self.pos == p,
                p < ts.len(),
                plain_html_tag(ts, p as int),
                want_close == (ts[p as int].kind == TokenKind::JsxCloseTagStart),
                tag_end(ts, p as int, want_close) == tag_end(ts, end_idx as int, want_close),
            ensures
                p <= end_idx <= self.tokens.len(),
                self.tokens@ == ts,
                self.pos == p,
                tag_end(ts, p as int, want_close) == tag_end(ts, end_idx as int, want_close),
                end_idx < self.tokens.len() ==> tag_end(ts, p as int, want_close) == Some(end_idx as int),
            decreases self.tokens.len() - end_idx,
        {
            let k = self.tokens[end_idx].kind;
            let done = match k {
                TokenKind::JsxCloseTagEnd => want_close,
                TokenKind::JsxOpenTagEnd | TokenKind::JsxSelfClosingEnd => !want_close,
                _ => false,
            };
            if done {
                break;
            }
            if k == TokenKind::Eof {
                return None;
            }
            end_idx += 1;
        }
        let value = self.raw_source_for_token_range(p, end_idx + 1);
        self.pos = end_idx + 1;
        if valid {
            Some(Node::Html(Html { value, span }))
        } else {
            Some(Node::Text(crate::ast::Text { value: unescape_markdown(value.as_str()), span }))
        }
    }
}

} // verus!
