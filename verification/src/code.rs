//! Fenced code blocks (CommonMark 4.5), at the top level and inside block
//! quotes.

use vstd::prelude::*;
use crate::ast::{clone_span, nv, CodeBlock, Node, NodeV};
use crate::diagnostic::{Diagnostic, ParseIssue};
use crate::block::kind_in;
use crate::entity::{decode_entities_in, decoded_at, entities_from, law_undecodable_text_kept};
use crate::fence::{lemma_line_end, line_end, strip_blockquote_prefix_from_fence_content, strip_quote_lines};
use crate::inline::{law_unescape_without_backslash, unescape_markdown, unescaped};
use crate::parser::Parser;
use crate::text::{chars_of, is_white_space, is_whitespace, lead_ws, push_all, slice_chars, string_of, trail_ws, trim, trim_vec};
use crate::token::{FenceChar, Token, TokenKind};

verus! {

/// A closing fence of character `fc` at least `n` long.
pub open spec fn closes(k: TokenKind, fc: FenceChar, n: usize) -> bool {
    match k {
        TokenKind::CodeFenceClose(c, m) => c == fc && m >= n,
        _ => false,
    }
}

/// The content tokens from `q` on, up to a matching closing fence (taken)
/// or `Eof` (left): their text, where the cursor stops, and whether the
/// fence was closed.
pub open spec fn fence_body(ts: Seq<Token>, q: int, fc: FenceChar, n: usize) -> (Seq<char>, int, bool)
    decreases ts.len() - q,
{
    if q < 0 || q >= ts.len() {
        (Seq::empty(), q, false)
    } else if closes(ts[q].kind, fc, n) {
        (Seq::empty(), q + 1, true)
    } else if ts[q].kind == TokenKind::Eof {
        (Seq::empty(), q, false)
    } else {
        let r = fence_body(ts, q + 1, fc, n);
        (ts[q].raw@ + r.0, r.1, r.2)
    }
}

/// Inside `depth` block quotes the lexer hands the content over as one
/// token whose lines still carry their quote markers: that token, if it
/// is there, with the markers taken off, then a matching closing fence if
/// it follows.
pub open spec fn quoted_fence_body(ts: Seq<Token>, q: int, fc: FenceChar, n: usize, depth: int) -> (Seq<char>, int, bool) {
    let has_content = kind_in(ts, q) == Some(TokenKind::CodeFenceContent);
    let v = if has_content { strip_quote_lines(ts[q].raw@, 0, depth) } else { Seq::<char>::empty() };
    let q2 = if has_content { q + 1 } else { q };
    if kind_in(ts, q2) matches Some(k) && closes(k, fc, n) {
        (v, q2 + 1, true)
    } else {
        (v, q2, false)
    }
}

/// Code content ends with a newline unless it is empty.
pub open spec fn with_final_newline(v: Seq<char>) -> Seq<char> {
    if v.len() > 0 && v.last() != '\n' {
        v.push('\n')
    } else {
        v
    }
}

/// Leading spaces of `l` from `k` on, up to position `lim`.
pub open spec fn spaces_upto(l: Seq<char>, k: int, lim: int) -> int
    decreases lim - k,
{
    if k < lim && 0 <= k < l.len() && l[k] == ' ' {
        spaces_upto(l, k + 1, lim)
    } else {
        k
    }
}

/// Every line of `s` from `p` on with up to `lim` leading spaces removed.
pub open spec fn dedent_lines(s: Seq<char>, p: int, lim: int) -> Seq<char>
    decreases s.len() - p,
{
    if p < 0 || p >= s.len() {
        Seq::empty()
    } else {
        proof {
            lemma_line_end(s, p);
        }
        let l = s.subrange(p, line_end(s, p));
        l.skip(spaces_upto(l, 0, lim)) + dedent_lines(s, line_end(s, p), lim)
    }
}

/// Position of the first `White_Space` character of `t` from `k` on.
pub open spec fn first_white(t: Seq<char>, k: int) -> int
    decreases t.len() - k,
{
    if k < 0 || k >= t.len() {
        t.len() as int
    } else if is_white_space(t[k]) {
        k
    } else {
        first_white(t, k + 1)
    }
}

/// Backslash escapes resolved, then character references decoded.
pub open spec fn info_text(s: Seq<char>) -> Seq<char> {
    entities_from(unescaped(s), 0)
}

/// Language and meta of an info string: its first word, and what follows
/// it, trimmed, when not empty (CommonMark 4.5).
pub open spec fn info_fields(info: Seq<char>) -> (Option<Seq<char>>, Option<Seq<char>>) {
    let t = trim(info);
    let k = first_white(t, 0);
    if t.len() == 0 {
        (None, None)
    } else if k < t.len() {
        let rest = trim(t.subrange(k + 1, t.len() as int));
        (Some(info_text(t.subrange(0, k))), if rest.len() == 0 { None } else { Some(info_text(rest)) })
    } else {
        (Some(info_text(t)), None)
    }
}

/// The fenced code block that opens at `p` inside `depth` block quotes:
/// language, meta, content, where the cursor stops, and whether a closing
/// fence was found. At the top level
/// the fence's own indent is taken off every content line.
/// The opening fence's character and length.
pub open spec fn open_fence(k: TokenKind) -> (FenceChar, usize) {
    match k {
        TokenKind::CodeFenceOpen(c, m) => (c, m),
        _ => (FenceChar::Backtick, 3usize),
    }
}

pub open spec fn fenced_code(ts: Seq<Token>, p: int, depth: int) -> (Option<Seq<char>>, Option<Seq<char>>, Seq<char>, int, bool) {
    let t = ts[p];
    let (fc, n, indent) = match t.kind {
        TokenKind::CodeFenceOpen(c, m) => (c, m, if depth == 0 && t.span.column >= 1 {
            t.span.column - 1
        } else {
            0
        }),
        _ => (FenceChar::Backtick, 3usize, 0int),
    };
    let q = p + 1;
    let has_info = q < ts.len() && ts[q].span.line == t.span.line && (ts[q].kind == TokenKind::CodeFenceInfo
        || ts[q].kind == TokenKind::Text);
    let info = if has_info { ts[q].raw@ } else { Seq::<char>::empty() };
    let q1 = if has_info { q + 1 } else { q };
    let body = if depth > 0 { quoted_fence_body(ts, q1, fc, n, depth) } else { fence_body(ts, q1, fc, n) };
    let v = with_final_newline(body.0);
    let fields = info_fields(info);
    (fields.0, fields.1, if indent > 0 { dedent_lines(v, 0, indent) } else { v }, body.1, body.2)
}

/// Resolve escapes and references in a part of an info string.
fn decode_info(v: &Vec<char>) -> (r: Option<String>)
    ensures
        r matches Some(s) && s@ == info_text(v@),
{
    let s = string_of(v);
    Some(decode_entities_in(unescape_markdown(s.as_str()).as_str()))
}

/// Text without `\` or `&` is its own info text.
proof fn lemma_info_text_plain(x: Seq<char>)
    requires
        forall|i: int| 0 <= i < x.len() ==> #[trigger] x[i] != '\\' && x[i] != '&',
    ensures
        info_text(x) == x,
{
    assert(!x.contains('\\'));
    law_unescape_without_backslash(x, 0);
    assert(x.skip(0) =~= x);
    assert(unescaped(x) == x);
    assert forall|k: int| 0 <= k < x.len() implies #[trigger] decoded_at(x, k) is None by {
        assert(x[k] != '&');
    }
    law_undecodable_text_kept(x, 0);
}

proof fn lemma_first_white_word(t: Seq<char>, n: int, k: int)
    requires
        0 <= k <= n < t.len(),
        forall|i: int| 0 <= i < n ==> !is_white_space(#[trigger] t[i]),
        is_white_space(t[n]),
    ensures
        first_white(t, k) == n,
    decreases n - k,
{
    if k < n {
        lemma_first_white_word(t, n, k + 1);
    }
}

proof fn lemma_trim_unchanged(t: Seq<char>)
    requires
        t.len() > 0,
        !is_white_space(t[0]),
        !is_white_space(t.last()),
    ensures
        trim(t) == t,
{
    assert(lead_ws(t) == 0);
    assert(t.skip(0) =~= t);
    assert(trail_ws(t) == 0);
    assert(t.take(t.len() as int) =~= t);
}

/// An info string is its language, a space, then its meta: for a first
/// word `w` and a rest `m` that starts and ends with no whitespace (both
/// without escapes or references), the language is `w` and the meta is
/// the whole of `m`, inner spaces included.
pub proof fn law_info_language_and_meta(w: Seq<char>, m: Seq<char>)
    ensures
        (w.len() > 0 && m.len() > 0 && (forall|i: int| 0 <= i < w.len() ==> !is_white_space(#[trigger] w[i]) && w[i]
            != '\\' && w[i] != '&') && (forall|i: int| 0 <= i < m.len() ==> #[trigger] m[i] != '\\' && m[i] != '&')
            && !is_white_space(m[0]) && !is_white_space(m.last())) ==> info_fields(w + seq![' '] + m) == (
            Some(w),
            Some(m),
        ),
{
    if w.len() > 0 && m.len() > 0 && (forall|i: int| 0 <= i < w.len() ==> !is_white_space(#[trigger] w[i]) && w[i]
        != '\\' && w[i] != '&') && (forall|i: int| 0 <= i < m.len() ==> #[trigger] m[i] != '\\' && m[i] != '&')
        && !is_white_space(m[0]) && !is_white_space(m.last()) {
        let t = w + seq![' '] + m;
        assert(t[0] == w[0]);
        assert(t.last() == m.last());
        lemma_trim_unchanged(t);
        assert(t[w.len() as int] == ' ');
        assert forall|i: int| 0 <= i < w.len() implies !is_white_space(#[trigger] t[i]) by {
            assert(t[i] == w[i]);
        }
        lemma_first_white_word(t, w.len() as int, 0);
        assert(t.subrange(0, w.len() as int) =~= w);
        assert(t.subrange(w.len() as int + 1, t.len() as int) =~= m);
        lemma_trim_unchanged(m);
        lemma_info_text_plain(w);
        lemma_info_text_plain(m);
    }
}

/// An info string of one word is all language, with no meta.
pub proof fn law_info_single_word(w: Seq<char>)
    ensures
        (w.len() > 0 && forall|i: int| 0 <= i < w.len() ==> !is_white_space(#[trigger] w[i]) && w[i] != '\\' && w[i]
            != '&') ==> info_fields(w) == (Some(w), None::<Seq<char>>),
{
    if w.len() > 0 && forall|i: int| 0 <= i < w.len() ==> !is_white_space(#[trigger] w[i]) && w[i] != '\\' && w[i]
        != '&' {
        lemma_trim_unchanged(w);
        lemma_first_white_none(w, 0);
        lemma_info_text_plain(w);
    }
}

proof fn lemma_first_white_none(t: Seq<char>, k: int)
    requires
        0 <= k <= t.len(),
        forall|i: int| 0 <= i < t.len() ==> !is_white_space(#[trigger] t[i]),
    ensures
        first_white(t, k) == t.len(),
    decreases t.len() - k,
{
    if k < t.len() {
        lemma_first_white_none(t, k + 1);
    }
}

/// Split an info string into language and meta.
pub fn info_string_fields(info: &Vec<char>) -> (r: (Option<String>, Option<String>))
    ensures
        match info_fields(info@) {
            (l, m) => (match l {
                None => r.0 is None,
                Some(x) => r.0 matches Some(y) && y@ == x,
            }) && (match m {
                None => r.1 is None,
                Some(x) => r.1 matches Some(y) && y@ == x,
            }),
        },
{
    let t = trim_vec(info);
    let ghost g = t@;
    if t.len() == 0 {
        return (None, None);
    }
    let mut k: usize = 0;
    while k < t.len() && !is_whitespace(t[k])
        invariant
            k <= t.len(),
            g == t@,
            first_white(g, 0) == first_white(g, k as int),
        decreases t.len() - k,
    {
        k += 1;
    }
    if k < t.len() {
        let word = slice_chars(&t, 0, k);
        let tail = slice_chars(&t, k + 1, t.len());
        let rest = trim_vec(&tail);
        let lang = decode_info(&word);
        if rest.len() == 0 {
            (lang, None)
        } else {
            (lang, decode_info(&rest))
        }
    } else {
        assert(t@.subrange(0, t.len() as int) =~= t@);
        (decode_info(&t), None)
    }
}

/// Up to `lim` leading spaces taken off every line of `v`.
pub fn dedent_fence_content(v: &Vec<char>, lim: usize) -> (r: Vec<char>)
    ensures
        r@ == dedent_lines(v@, 0, lim as int),
{
    let n = v.len();
    let mut out: Vec<char> = Vec::new();
    let mut pos: usize = 0;
    while pos < n
        invariant
            pos <= n == v@.len(),
            out@ + dedent_lines(v@, pos as int, lim as int) == dedent_lines(v@, 0, lim as int),
        decreases n - pos,
    {
        let mut e = pos;
        while e < n && v[e] != '\n'
            invariant
                pos <= e <= n == v@.len(),
                line_end(v@, pos as int) == line_end(v@, e as int),
            decreases n - e,
        {
            e += 1;
        }
        if e < n {
            e += 1;
        }
        proof {
            lemma_line_end(v@, pos as int);
        }
        let line = slice_chars(v, pos, e);
        let mut k: usize = 0;
        while k < lim && k < line.len() && line[k] == ' '
            invariant
                k <= line.len(),
                spaces_upto(line@, 0, lim as int) == spaces_upto(line@, k as int, lim as int),
            decreases line.len() - k,
        {
            k += 1;
        }
        let kept = slice_chars(&line, k, line.len());
        assert(kept@ == line@.skip(k as int));
        let ghost before = out@;
        push_all(&mut out, &kept);
        proof {
            assert(before + dedent_lines(v@, pos as int, lim as int) == before + (kept@ + dedent_lines(v@, e as int, lim as int)));
            assert(before + (kept@ + dedent_lines(v@, e as int, lim as int)) =~= out@ + dedent_lines(v@, e as int, lim as int));
        }
        pos = e;
    }
    assert(out@ + dedent_lines(v@, pos as int, lim as int) =~= out@);
    out
}

impl Parser {
    /// A fenced code block at the top level.
    pub fn parse_code_block(&mut self) -> (n: Node)
        requires
            kind_in(old(self).tokens@, old(self).pos as int) matches Some(TokenKind::CodeFenceOpen(_, _)),
        ensures
            ({
                let r = fenced_code(old(self).tokens@, old(self).pos as int, 0);
                &&& nv(n) == NodeV::CodeBlock(r.0, r.1, r.2, old(self).tokens@[old(self).pos as int].span)
                &&& final(self).pos == r.3
                &&& final(self).diagnostics@ == if r.4 {
                    old(self).diagnostics@
                } else {
                    let (c, m) = open_fence(old(self).tokens@[old(self).pos as int].kind);
                    old(self).diagnostics@.push(
                        Diagnostic { issue: ParseIssue::UnterminatedFence(c, m), span: old(self).tokens@[old(self).pos as int].span },
                    )
                }
            }),
            final(self).pos > old(self).pos,
            final(self).tokens == old(self).tokens,
            final(self).refs == old(self).refs,
            final(self).options == old(self).options,
            final(self).source == old(self).source,
            final(self).link_label_depth == old(self).link_label_depth,
            final(self).jsx_open_stack == old(self).jsx_open_stack,
    {
        self.parse_code_block_with_blockquote_prefix(0)
    }

    /// A fenced code block inside `bq_depth` block quotes.
    pub fn parse_code_block_in_blockquote(&mut self, bq_depth: usize) -> (n: Node)
        requires
            kind_in(old(self).tokens@, old(self).pos as int) matches Some(TokenKind::CodeFenceOpen(_, _)),
        ensures
            ({
                let r = fenced_code(old(self).tokens@, old(self).pos as int, bq_depth as int);
                &&& nv(n) == NodeV::CodeBlock(r.0, r.1, r.2, old(self).tokens@[old(self).pos as int].span)
                &&& final(self).pos == r.3
                &&& final(self).diagnostics@ == if r.4 {
                    old(self).diagnostics@
                } else {
                    let (c, m) = open_fence(old(self).tokens@[old(self).pos as int].kind);
                    old(self).diagnostics@.push(
                        Diagnostic { issue: ParseIssue::UnterminatedFence(c, m), span: old(self).tokens@[old(self).pos as int].span },
                    )
                }
            }),
            final(self).pos > old(self).pos,
            final(self).tokens == old(self).tokens,
            final(self).refs == old(self).refs,
            final(self).options == old(self).options,
            final(self).source == old(self).source,
            final(self).link_label_depth == old(self).link_label_depth,
            final(self).jsx_open_stack == old(self).jsx_open_stack,
    {
        self.parse_code_block_with_blockquote_prefix(bq_depth)
    }

    /// A fenced code block: the opening fence, an info string on the same
    /// line, then the content up to a closing fence of the same character
    /// at least as long, or to the end of input. Content ends with a
    /// newline; at the top level a fence indented by N spaces takes up to
    /// N spaces off every content line (CommonMark 4.5).
    pub fn parse_code_block_with_blockquote_prefix(&mut self, bq_depth: usize) -> (n: Node)
        requires
            kind_in(old(self).tokens@, old(self).pos as int) matches Some(TokenKind::CodeFenceOpen(_, _)),
        ensures
            ({
                let r = fenced_code(old(self).tokens@, old(self).pos as int, bq_depth as int);
                &&& nv(n) == NodeV::CodeBlock(r.0, r.1, r.2, old(self).tokens@[old(self).pos as int].span)
                &&& final(self).pos == r.3
                &&& final(self).diagnostics@ == if r.4 {
                    old(self).diagnostics@
                } else {
                    let (c, m) = open_fence(old(self).tokens@[old(self).pos as int].kind);
                    old(self).diagnostics@.push(
                        Diagnostic { issue: ParseIssue::UnterminatedFence(c, m), span: old(self).tokens@[old(self).pos as int].span },
                    )
                }
            }),
            final(self).pos > old(self).pos,
            final(self).tokens == old(self).tokens,
            final(self).refs == old(self).refs,
            final(self).options == old(self).options,
            final(self).source == old(self).source,
            final(self).link_label_depth == old(self).link_label_depth,
            final(self).jsx_open_stack == old(self).jsx_open_stack,
    {
        let ghost ts = self.tokens@;
        let ghost p = self.pos as int;
        let span = self.current_span();
        let open_line = self.tokens[self.pos].span.line;
        let (fence_char, fence_n, fence_indent) = match self.tokens[self.pos].kind {
            TokenKind::CodeFenceOpen(c, m) => {
                let col = self.tokens[self.pos].span.column;
                (c, m, if bq_depth == 0 && col >= 1 { col - 1 } else { 0 })
            },
            _ => (FenceChar::Backtick, 3, 0),
        };
        self.advance();
        let has_info = self.pos < self.tokens.len() && self.tokens[self.pos].span.line == open_line && (
        self.tokens[self.pos].kind == TokenKind::CodeFenceInfo || self.tokens[self.pos].kind == TokenKind::Text);
        let info: Vec<char> = if has_info {
            let r = chars_of(self.tokens[self.pos].raw.as_str());
            self.advance();
            r
        } else {
            Vec::new()
        };
        let (lang, meta) = info_string_fields(&info);
        let ghost q1 = self.pos as int;
        let mut value: Vec<char> = Vec::new();
        let mut closed = false;
        if bq_depth > 0 {
            if self.peek_kind() == Some(TokenKind::CodeFenceContent) {
                let stripped = strip_blockquote_prefix_from_fence_content(self.tokens[self.pos].raw.as_str(), bq_depth);
                value = chars_of(stripped.as_str());
                self.advance();
            }
            match self.peek_kind() {
                Some(TokenKind::CodeFenceClose(c, m)) => {
                    if c == fence_char && m >= fence_n {
                        self.advance();
                        closed = true;
                    }
                },
                _ => {},
            }
        } else {
            loop
                invariant_except_break
                    q1 <= self.pos <= self.tokens.len(),
                    value@ + fence_body(ts, self.pos as int, fence_char, fence_n).0 == fence_body(ts, q1, fence_char, fence_n).0,
                    fence_body(ts, self.pos as int, fence_char, fence_n).1 == fence_body(ts, q1, fence_char, fence_n).1,
                    fence_body(ts, self.pos as int, fence_char, fence_n).2 == fence_body(ts, q1, fence_char, fence_n).2,
                    !closed,
                invariant
                    self.tokens@ == ts,
                    self.tokens == old(self).tokens,
                    q1 <= self.pos,
                    self.refs == old(self).refs,
                    self.options == old(self).options,
                    self.source == old(self).source,
                    self.link_label_depth == old(self).link_label_depth,
                    self.jsx_open_stack == old(self).jsx_open_stack,
                    self.diagnostics == old(self).diagnostics,
                ensures
                    value@ == fence_body(ts, q1, fence_char, fence_n).0,
                    closed == fence_body(ts, q1, fence_char, fence_n).2,
                    self.pos == fence_body(ts, q1, fence_char, fence_n).1,
                    self.tokens@ == ts,
                    self.tokens == old(self).tokens,
                    q1 <= self.pos,
                    self.refs == old(self).refs,
                    self.options == old(self).options,
                    self.source == old(self).source,
                    self.link_label_depth == old(self).link_label_depth,
                    self.jsx_open_stack == old(self).jsx_open_stack,
                    self.diagnostics == old(self).diagnostics,
                decreases self.tokens.len() - self.pos,
            {
                if self.pos >= self.tokens.len() {
                    assert(value@ =~= value@ + Seq::<char>::empty());
                    break;
                }
                let kind = self.tokens[self.pos].kind;
                let closing = match kind {
                    TokenKind::CodeFenceClose(c, m) => c == fence_char && m >= fence_n,
                    _ => false,
                };
                if closing {
                    self.advance();
                    closed = true;
                    assert(value@ =~= value@ + Seq::<char>::empty());
                    break;
                }
                if kind == TokenKind::Eof {
                    assert(value@ =~= value@ + Seq::<char>::empty());
                    break;
                }
                let ghost before = value@;
                let ghost i = self.pos as int;
                let text = chars_of(self.tokens[self.pos].raw.as_str());
                push_all(&mut value, &text);
                self.advance();
                assert(before + fence_body(ts, i, fence_char, fence_n).0 =~= value@ + fence_body(ts, i + 1, fence_char, fence_n).0);
            }
        }
        if !closed {
            self.diagnostics.push(
                Diagnostic { issue: ParseIssue::UnterminatedFence(fence_char, fence_n), span: clone_span(&span) },
            );
        }
        if value.len() > 0 && value[value.len() - 1] != '\n' {
            value.push('\n');
        }
        let value = if fence_indent > 0 {
            dedent_fence_content(&value, fence_indent)
        } else {
            value
        };
        Node::CodeBlock(CodeBlock { lang, meta, value: string_of(&value), span })
    }
}

} // verus!
