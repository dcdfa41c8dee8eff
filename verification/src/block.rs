//! Block productions that read whole tokens: front matter, ESM lines,
//! thematic breaks, setext underlines and indented code.

use vstd::prelude::*;
use crate::ast::{clone_span, nv, nvs, Blockquote, CodeBlock, Export, Frontmatter, HorizontalRule, Html, Import, Node, NodeV, Paragraph, Span};
use crate::tree::{ensure_loose_item, lemma_nvs_push, loosened, map_item};
use crate::parser::Parser;
use crate::text::{chars_of, push_all, string_of};
use crate::token::{OrderedSep, Token, TokenKind};

verus! {

/// How many spaces and tabs end `s`.
pub open spec fn trail_blanks(s: Seq<char>) -> nat
    decreases s.len(),
{
    if s.len() > 0 && (s.last() == ' ' || s.last() == '\t') {
        1 + trail_blanks(s.drop_last())
    } else {
        0
    }
}

/// `s` is one or more `-`, then only spaces and tabs: a setext level-2
/// underline (CommonMark 4.3).
pub open spec fn dash_underline(s: Seq<char>) -> bool {
    let n = s.len() - trail_blanks(s);
    n > 0 && forall|i: int| 0 <= i < n ==> s[i] == '-'
}

/// `n` newlines.
pub open spec fn line_feeds(n: nat) -> Seq<char> {
    Seq::new(n, |k: int| '\n')
}

/// The kind of `ts[i]`, if there is one.
pub open spec fn kind_in(ts: Seq<Token>, i: int) -> Option<TokenKind> {
    if 0 <= i < ts.len() {
        Some(ts[i].kind)
    } else {
        None
    }
}

/// A whitespace token followed by an indented code line starts at `i`.
pub open spec fn starts_indent(ts: Seq<Token>, i: int) -> bool {
    kind_in(ts, i) matches Some(TokenKind::Whitespace(_)) && kind_in(ts, i + 1) == Some(TokenKind::IndentedCodeLine)
}

/// The line breaks from `j` on: blank lines count two newlines each, a
/// soft break one and ends the run. Gives the count and where the run
/// stops.
pub open spec fn break_run(ts: Seq<Token>, j: int) -> (int, int)
    decreases ts.len() - j,
{
    if 0 <= j < ts.len() {
        match ts[j].kind {
            TokenKind::SoftBreak => (1, j + 1),
            TokenKind::BlankLine => {
                let r = break_run(ts, j + 1);
                (r.0 + 2, r.1)
            },
            _ => (0, j),
        }
    } else {
        (0, j)
    }
}

/// Columns of a code line's indent beyond the four that open it: a
/// leading tab fills the four, else four characters are taken off.
pub open spec fn code_extra(raw: Seq<char>) -> nat {
    if raw.len() > 0 && raw[0] == '\t' {
        (raw.len() - 1) as nat
    } else if raw.len() >= 4 {
        (raw.len() - 4) as nat
    } else {
        0
    }
}

/// A line of only whitespace (starting in column 1) at `j`.
pub open spec fn ws_then_break(ts: Seq<Token>, j: int) -> bool {
    kind_in(ts, j) matches Some(TokenKind::Whitespace(_)) && ts[j].span.column == 1 && (kind_in(ts, j + 1)
        == Some(TokenKind::SoftBreak) || kind_in(ts, j + 1) == Some(TokenKind::BlankLine))
}

/// Columns past four of a width.
pub open spec fn past_four(n: int) -> nat {
    if n >= 4 {
        (n - 4) as nat
    } else {
        0
    }
}

/// The gap after an indented code line, from `j` on: one soft break at
/// most (`c` says whether it was taken), blank lines, and lines of only
/// whitespace. Gives the number of newlines, the visible indent of each
/// blank line in order, and where the gap ends.
pub open spec fn code_gap(ts: Seq<Token>, j: int, c: bool) -> (int, Seq<nat>, int)
    decreases ts.len() - j,
{
    if j < 0 || j >= ts.len() {
        (0, Seq::empty(), j)
    } else if ws_then_break(ts, j) {
        let v = past_four(ts[j].raw@.len() as int);
        let r = code_gap(ts, j + 2, c);
        if ts[j + 1].kind == TokenKind::BlankLine {
            (r.0 + 2, seq![v, 0nat] + r.1, r.2)
        } else {
            (r.0 + 1, seq![v] + r.1, r.2)
        }
    } else {
        match ts[j].kind {
            TokenKind::SoftBreak => if !c {
                let r = code_gap(ts, j + 1, true);
                (r.0 + 1, r.1, r.2)
            } else {
                (0, Seq::empty(), j)
            },
            TokenKind::BlankLine => {
                let r = code_gap(ts, j + 1, c);
                (r.0 + 2, seq![0nat] + r.1, r.2)
            },
            _ => (0, Seq::empty(), j),
        }
    }
}

/// The first `k` blank lines of a gap inside code: each its visible
/// indent (none where the gap recorded fewer lines) and a newline.
pub open spec fn blank_lines(vis: Seq<nat>, k: nat) -> Seq<char>
    decreases k,
{
    if k == 0 {
        Seq::empty()
    } else {
        blank_lines(vis, (k - 1) as nat) + spaces(if k - 1 < vis.len() {
            vis[k - 1]
        } else {
            0
        }) + seq!['\n']
    }
}

/// The text of the indented code block whose first line starts at `i`,
/// and where the block ends. Each line keeps its indent beyond four
/// columns. A gap of breaks, blank lines and whitespace-only lines
/// continues the block only when another indented line follows it; its
/// lines beyond the one that ends the previous line are kept, with their
/// visible indent.
pub open spec fn indented_from(ts: Seq<Token>, i: int) -> (Seq<char>, int)
    decreases ts.len() - i,
{
    if !starts_indent(ts, i) || i < 0 {
        (Seq::empty(), i)
    } else {
        let line = spaces(code_extra(ts[i].raw@)) + ts[i + 1].raw@ + seq!['\n'];
        let g = code_gap(ts, i + 2, false);
        if g.0 == 0 || !starts_indent(ts, g.2) || g.2 <= i {
            (line, i + 2)
        } else {
            let rest = indented_from(ts, g.2);
            (line + blank_lines(g.1, (g.0 - 1) as nat) + rest.0, rest.1)
        }
    }
}

proof fn lemma_code_gap(ts: Seq<Token>, j: int, c: bool)
    requires
        j >= 0,
    ensures
        code_gap(ts, j, c).2 >= j,
        code_gap(ts, j, c).0 >= 0,
        code_gap(ts, j, c).0 == 0 ==> code_gap(ts, j, c).2 == j,
    decreases ts.len() - j,
{
    if 0 <= j < ts.len() {
        if ws_then_break(ts, j) {
            lemma_code_gap(ts, j + 2, c);
        } else if ts[j].kind == TokenKind::SoftBreak && !c {
            lemma_code_gap(ts, j + 1, true);
        } else if ts[j].kind == TokenKind::BlankLine {
            lemma_code_gap(ts, j + 1, c);
        }
    }
}

proof fn lemma_break_run(ts: Seq<Token>, j: int)
    requires
        j >= 0,
    ensures
        break_run(ts, j).1 >= j,
        break_run(ts, j).0 >= 0,
        break_run(ts, j).0 == 0 ==> break_run(ts, j).1 == j,
    decreases ts.len() - j,
{
    if 0 <= j < ts.len() && ts[j].kind == TokenKind::BlankLine {
        lemma_break_run(ts, j + 1);
    }
}

/// The raw HTML block's tokens from `q` on, up to and with its closing
/// token, or up to `Eof`: their text and where the cursor stops.
pub open spec fn html_body(ts: Seq<Token>, q: int) -> (Seq<char>, int)
    decreases ts.len() - q,
{
    if q < 0 || q >= ts.len() {
        (Seq::empty(), q)
    } else if ts[q].kind == TokenKind::HtmlBlockClose {
        (ts[q].raw@, q + 1)
    } else if ts[q].kind == TokenKind::Eof {
        (Seq::empty(), q)
    } else {
        let r = html_body(ts, q + 1);
        (ts[q].raw@ + r.0, r.1)
    }
}

/// Where an MDX comment that is open at `q` ends: just past its closing
/// token, or at `Eof`.
pub open spec fn comment_end(ts: Seq<Token>, q: int) -> int
    decreases ts.len() - q,
{
    if q < 0 || q >= ts.len() || ts[q].kind == TokenKind::Eof {
        q
    } else if ts[q].kind == TokenKind::MdxCommentClose {
        q + 1
    } else {
        comment_end(ts, q + 1)
    }
}

/// How many `>` markers follow from `i` on, with whitespace between them,
/// before any other token.
pub open spec fn quote_count(ts: Seq<Token>, i: int) -> nat
    decreases ts.len() - i,
{
    if 0 <= i < ts.len() {
        match ts[i].kind {
            TokenKind::BlockQuoteMarker => 1 + quote_count(ts, i + 1),
            TokenKind::Whitespace(_) => quote_count(ts, i + 1),
            _ => 0,
        }
    } else {
        0
    }
}

/// Past one whitespace token at `q`, if there is one.
pub open spec fn past_space(ts: Seq<Token>, q: int) -> int {
    if kind_in(ts, q) matches Some(TokenKind::Whitespace(_)) {
        q + 1
    } else {
        q
    }
}

/// The column after `c` when it stands at column `col` (counted from 0):
/// a tab moves to the next multiple of four.
pub open spec fn tab_step(c: char, col: nat) -> nat {
    if c == '\t' {
        (col + 4 - col % 4) as nat
    } else {
        col + 1
    }
}

/// The column after the characters of `s` written from column `col`.
pub open spec fn vis_col(s: Seq<char>, col: nat) -> nat
    decreases s.len(),
{
    if s.len() == 0 {
        col
    } else {
        vis_col(s.drop_first(), tab_step(s[0], col))
    }
}

/// The column (from 0) at which a token starts.
pub open spec fn start_col(t: Token) -> nat {
    if t.span.column >= 1 {
        (t.span.column - 1) as nat
    } else {
        0
    }
}

/// The visual width of a token's text, tabs expanded to the next stop of
/// four from the column where it starts.
pub open spec fn indent_width(t: Token) -> nat {
    (vis_col(t.raw@, start_col(t)) - start_col(t)) as nat
}

proof fn lemma_vis_col(s: Seq<char>, col: nat)
    ensures
        vis_col(s, col) >= col,
    decreases s.len(),
{
    if s.len() > 0 {
        lemma_vis_col(s.drop_first(), tab_step(s[0], col));
    }
}

impl Parser {
    /// Every whitespace token ends at a column that a `usize` counts.
    pub open spec fn indents_fit(self) -> bool {
        forall|i: int|
            0 <= i < self.tokens@.len() && (#[trigger] self.tokens@[i]).kind is Whitespace ==> vis_col(
                self.tokens@[i].raw@,
                start_col(self.tokens@[i]),
            ) <= usize::MAX
    }
}

/// Past one whitespace token at `q` narrower than four columns, if there
/// is one.
pub open spec fn past_narrow_space(ts: Seq<Token>, q: int) -> int {
    if kind_in(ts, q) matches Some(TokenKind::Whitespace(_)) && indent_width(ts[q]) < 4 {
        q + 1
    } else {
        q
    }
}

/// Where the cursor stops after taking `n` quote markers from `q` (each
/// after at most one whitespace token; fewer where fewer follow), then one
/// whitespace token narrower than four columns if there is one.
pub open spec fn markers_end(ts: Seq<Token>, q: int, n: nat) -> int
    decreases n,
{
    if n == 0 {
        past_narrow_space(ts, q)
    } else {
        let q1 = past_space(ts, q);
        if kind_in(ts, q1) == Some(TokenKind::BlockQuoteMarker) {
            markers_end(ts, q1 + 1, (n - 1) as nat)
        } else {
            past_narrow_space(ts, q1)
        }
    }
}

/// A token kind that starts a block other than a paragraph's next line.
pub open spec fn starts_other_block(k: TokenKind) -> bool {
    match k {
        TokenKind::Heading(_) | TokenKind::ThematicBreak | TokenKind::BlockQuoteMarker | TokenKind::UnorderedListMarker
        | TokenKind::OrderedListMarker(_) | TokenKind::IndentedCodeLine | TokenKind::CodeFenceOpen(_, _)
        | TokenKind::HtmlCommentOpen | TokenKind::HtmlBlockOpen | TokenKind::JsxOpenTagStart
        | TokenKind::JsxCloseTagStart | TokenKind::LinkRefDef => true,
        _ => false,
    }
}

/// Position of the first character of `s` from `k` on that is not an
/// ASCII digit.
pub open spec fn digits_end(s: Seq<char>, k: int) -> int
    decreases s.len() - k,
{
    if 0 <= k < s.len() && '0' <= s[k] <= '9' {
        digits_end(s, k + 1)
    } else {
        k
    }
}

/// The list marker that a text lexeme spells: `-`, `*` or `+`, or digits
/// followed by `.` or `)`.
pub open spec fn text_marker(s: Seq<char>) -> Option<TokenKind> {
    if s == seq!['-'] || s == seq!['*'] || s == seq!['+'] {
        Some(TokenKind::UnorderedListMarker)
    } else {
        let d = digits_end(s, 0);
        if d == 0 || d + 1 != s.len() {
            None
        } else if s[d] == '.' {
            Some(TokenKind::OrderedListMarker(OrderedSep::Period))
        } else if s[d] == ')' {
            Some(TokenKind::OrderedListMarker(OrderedSep::Paren))
        } else {
            None
        }
    }
}

/// The marker the token at `p` becomes: a text token spelling a list
/// marker, followed by whitespace.
pub open spec fn promoted_marker(ts: Seq<Token>, p: int) -> Option<TokenKind> {
    if kind_in(ts, p) == Some(TokenKind::Text) && (kind_in(ts, p + 1) matches Some(TokenKind::Whitespace(w)) && w > 0) {
        text_marker(ts[p].raw@)
    } else {
        None
    }
}

/// After a blank line at `p`, the same list goes on: a marker of the
/// list's flavour follows (after one whitespace token), indented as the
/// list's own markers are (exactly `indent` columns, or at most three at
/// the top level).
pub open spec fn list_resumes(ts: Seq<Token>, p: int, ordered: bool, indent: usize) -> bool {
    let q = p + 1;
    let ws = kind_in(ts, q) matches Some(TokenKind::Whitespace(_));
    let q2 = if ws { q + 1 } else { q };
    let marker = match kind_in(ts, q2) {
        Some(TokenKind::UnorderedListMarker) => !ordered,
        Some(TokenKind::OrderedListMarker(_)) => ordered,
        _ => false,
    };
    let width = if ws { ts[q].raw@.len() as int } else { 0 };
    let same = if indent > 0 { width == indent } else { width <= 3 };
    kind_in(ts, p) == Some(TokenKind::BlankLine) && marker && same
}

proof fn lemma_markers_end(ts: Seq<Token>, q: int, n: nat)
    ensures
        markers_end(ts, q, n) >= q,
    decreases n,
{
    if n > 0 {
        let q1 = past_space(ts, q);
        if kind_in(ts, q1) == Some(TokenKind::BlockQuoteMarker) {
            lemma_markers_end(ts, q1 + 1, (n - 1) as nat);
        }
    }
}

/// The tokens of one line from `q` on, up to a break or `Eof`: their
/// text and where the line stops.
pub open spec fn line_text(ts: Seq<Token>, q: int) -> (Seq<char>, int)
    decreases ts.len() - q,
{
    if q < 0 || q >= ts.len() {
        (Seq::empty(), q)
    } else {
        match ts[q].kind {
            TokenKind::SoftBreak | TokenKind::HardBreak | TokenKind::BlankLine | TokenKind::Eof => (Seq::empty(), q),
            _ => {
                let r = line_text(ts, q + 1);
                (ts[q].raw@ + r.0, r.1)
            },
        }
    }
}

/// `n` spaces.
pub open spec fn spaces(n: nat) -> Seq<char> {
    Seq::new(n, |k: int| ' ')
}

/// A whitespace token at least four characters wide stands at `i`.
pub open spec fn code_indent_at(ts: Seq<Token>, i: int) -> bool {
    kind_in(ts, i) matches Some(TokenKind::Whitespace(_)) && ts[i].raw@.len() >= 4
}

/// A whitespace token at least four columns wide (tabs expanded) stands at
/// `i`.
pub open spec fn visual_indent_at(ts: Seq<Token>, i: int) -> bool {
    kind_in(ts, i) matches Some(TokenKind::Whitespace(_)) && indent_width(ts[i]) >= 4
}

/// Indented code inside a block quote, from `i` on: each line is its
/// indent beyond four columns, then its text and a newline; the block goes
/// on across a soft break when the next line, past its quote markers, is
/// indented four or more again. Gives the text and where the block ends.
pub open spec fn quoted_code_from(ts: Seq<Token>, i: int) -> (Seq<char>, int)
    decreases ts.len() - i,
{
    if !visual_indent_at(ts, i) || i < 0 {
        (Seq::empty(), i)
    } else {
        let lt = line_text(ts, i + 1);
        let line = spaces((indent_width(ts[i]) - 4) as nat) + lt.0 + seq!['\n'];
        let j = lt.1;
        if kind_in(ts, j) != Some(TokenKind::SoftBreak) {
            (line, j)
        } else {
            let m = quote_count(ts, j + 1);
            let k = markers_end(ts, j + 1, m);
            if m == 0 || !visual_indent_at(ts, k) || k <= i {
                (line, j)
            } else {
                let rest = quoted_code_from(ts, k);
                (line + rest.0, rest.1)
            }
        }
    }
}

/// A whitespace token at least four wide opens a line at `i`.
pub open spec fn line_indent_at(ts: Seq<Token>, i: int) -> bool {
    code_indent_at(ts, i) && ts[i].span.column == 1
}

/// Indented code read line by line where the lexer did not mark the lines:
/// from `i` on, lines that open with four or more columns of whitespace,
/// each its indent beyond four columns, its text and a newline; blank
/// lines between two such lines stay. Gives the text and where it ends.
pub open spec fn fallback_code_from(ts: Seq<Token>, i: int) -> (Seq<char>, int)
    decreases ts.len() - i,
{
    if !line_indent_at(ts, i) || i < 0 {
        (Seq::empty(), i)
    } else {
        let lt = line_text(ts, i + 1);
        let line = spaces((ts[i].raw@.len() - 4) as nat) + lt.0 + seq!['\n'];
        let (blanks, j) = break_run(ts, lt.1);
        if blanks == 0 || !line_indent_at(ts, j) || j <= i {
            (line, lt.1)
        } else {
            let rest = fallback_code_from(ts, j);
            (line + line_feeds((blanks - 1) as nat) + rest.0, rest.1)
        }
    }
}

/// An HTML comment block's tokens from `q` on (`closed` says whether a
/// `-->` was read): closers and other tokens verbatim, a line break as a
/// newline while the comment is open; it ends at a blank line, `Eof`, or
/// the first break after the comment closed.
pub open spec fn comment_rest(ts: Seq<Token>, q: int, closed: bool) -> (Seq<char>, int)
    decreases ts.len() - q,
{
    if q < 0 || q >= ts.len() {
        (Seq::empty(), q)
    } else {
        match ts[q].kind {
            TokenKind::HtmlCommentClose => {
                let r = comment_rest(ts, q + 1, true);
                (ts[q].raw@ + r.0, r.1)
            },
            TokenKind::BlankLine | TokenKind::Eof => (Seq::empty(), q),
            TokenKind::SoftBreak | TokenKind::HardBreak => if !closed {
                let r = comment_rest(ts, q + 1, closed);
                (seq!['\n'] + r.0, r.1)
            } else {
                (Seq::empty(), q)
            },
            _ => {
                let r = comment_rest(ts, q + 1, closed);
                (ts[q].raw@ + r.0, r.1)
            },
        }
    }
}

impl Parser {
    /// The text of the token at `i`.
    pub open spec fn raw_at(self, i: int) -> Seq<char> {
        self.tokens@[i].raw@
    }

    /// `Some(1)` on a `=` underline, `Some(2)` on a `-` one, else `None`.
    /// The cursor stays.
    pub fn setext_underline_level(&self) -> (r: Option<u8>)
        ensures
            r == match self.kind_at(self.pos as int) {
                Some(TokenKind::SetextUnderline) => Some(1u8),
                Some(TokenKind::ThematicBreak) => if dash_underline(self.raw_at(self.pos as int)) {
                    Some(2u8)
                } else {
                    None
                },
                _ => None,
            },
    {
        match self.peek_kind() {
            Some(TokenKind::SetextUnderline) => Some(1),
            Some(TokenKind::ThematicBreak) => {
                let v = chars_of(self.tokens[self.pos].raw.as_str());
                let ghost s = v@;
                assert(s == self.raw_at(self.pos as int));
                let mut n: usize = v.len();
                assert(s.take(n as int) =~= s);
                while n > 0 && (v[n - 1] == ' ' || v[n - 1] == '\t')
                    invariant
                        n <= v.len(),
                        s == v@,
                        trail_blanks(s) == (v.len() - n) + trail_blanks(s.take(n as int)),
                    decreases n,
                {
                    assert(s.take(n as int).drop_last() =~= s.take(n - 1));
                    assert(s.take(n as int).last() == s[n - 1]);
                    n -= 1;
                }
                proof {
                    if n > 0 {
                        assert(s.take(n as int).last() == s[n - 1]);
                    }
                }
                if n == 0 {
                    return None;
                }
                let mut k: usize = 0;
                while k < n
                    invariant
                        k <= n <= v.len(),
                        s == v@,
                        s == self.raw_at(self.pos as int),
                        self.kind_at(self.pos as int) == Some(TokenKind::ThematicBreak),
                        n == s.len() - trail_blanks(s),
                        forall|i: int| 0 <= i < k ==> s[i] == '-',
                    decreases n - k,
                {
                    if v[k] != '-' {
                        assert(s[k as int] != '-');
                        return None;
                    }
                    k += 1;
                }
                Some(2)
            },
            _ => None,
        }
    }

    /// Step over a setext underline (or a thematic break read as one).
    pub fn eat_setext_underline(&mut self)
        ensures
            final(self).pos == if old(self).kind_at(old(self).pos as int) == Some(TokenKind::SetextUnderline)
                || old(self).kind_at(old(self).pos as int) == Some(TokenKind::ThematicBreak) {
                old(self).pos + 1
            } else {
                old(self).pos as int
            },
            final(self).tokens == old(self).tokens,
            final(self).refs == old(self).refs,
            final(self).options == old(self).options,
            final(self).source == old(self).source,
            final(self).link_label_depth == old(self).link_label_depth,
            final(self).jsx_open_stack == old(self).jsx_open_stack,
            final(self).diagnostics == old(self).diagnostics,
    {
        match self.peek_kind() {
            Some(TokenKind::SetextUnderline) | Some(TokenKind::ThematicBreak) => {
                self.advance();
            },
            _ => {},
        }
    }

    /// Front matter: `FrontmatterStart`, its content if any, then the
    /// closing fence if any. The content is kept as raw text.
    pub fn parse_frontmatter(&mut self) -> (n: Node)
        requires
            old(self).kind_at(old(self).pos as int) == Some(TokenKind::FrontmatterStart),
        ensures
            ({
                let p = old(self).pos as int;
                let has_body = old(self).kind_at(p + 1) == Some(TokenKind::FrontmatterContent);
                let q = if has_body { p + 2 } else { p + 1 };
                let raw = if has_body { old(self).raw_at(p + 1) } else { Seq::<char>::empty() };
                &&& nv(n) == NodeV::Frontmatter(raw, old(self).tokens@[p].span)
                &&& final(self).pos == if old(self).kind_at(q) == Some(TokenKind::FrontmatterEnd) { q + 1 } else { q }
            }),
            final(self).tokens == old(self).tokens,
            final(self).refs == old(self).refs,
            final(self).options == old(self).options,
            final(self).source == old(self).source,
            final(self).link_label_depth == old(self).link_label_depth,
            final(self).jsx_open_stack == old(self).jsx_open_stack,
            final(self).diagnostics == old(self).diagnostics,
    {
        let span = self.current_span();
        self.advance();
        let raw = match self.peek_kind() {
            Some(TokenKind::FrontmatterContent) => {
                let r = self.tokens[self.pos].raw.clone();
                self.advance();
                r
            },
            _ => String::new(),
        };
        if self.peek_kind() == Some(TokenKind::FrontmatterEnd) {
            self.advance();
        }
        Node::Frontmatter(Frontmatter { raw, span })
    }

    /// An `import ...` line, kept verbatim.
    pub fn import_node(&mut self) -> (n: Node)
        requires
            old(self).pos < old(self).tokens.len(),
        ensures
            nv(n) == NodeV::Import(old(self).raw_at(old(self).pos as int), old(self).tokens@[old(self).pos as int].span),
            final(self).pos == old(self).pos + 1,
            final(self).tokens == old(self).tokens,
            final(self).refs == old(self).refs,
            final(self).options == old(self).options,
            final(self).source == old(self).source,
            final(self).link_label_depth == old(self).link_label_depth,
            final(self).jsx_open_stack == old(self).jsx_open_stack,
            final(self).diagnostics == old(self).diagnostics,
    {
        let span = self.current_span();
        let raw = self.tokens[self.pos].raw.clone();
        self.advance();
        Node::Import(Import { raw, span })
    }

    /// An `export ...` line, kept verbatim.
    pub fn export_node(&mut self) -> (n: Node)
        requires
            old(self).pos < old(self).tokens.len(),
        ensures
            nv(n) == NodeV::Export(old(self).raw_at(old(self).pos as int), old(self).tokens@[old(self).pos as int].span),
            final(self).pos == old(self).pos + 1,
            final(self).tokens == old(self).tokens,
            final(self).refs == old(self).refs,
            final(self).options == old(self).options,
            final(self).source == old(self).source,
            final(self).link_label_depth == old(self).link_label_depth,
            final(self).jsx_open_stack == old(self).jsx_open_stack,
            final(self).diagnostics == old(self).diagnostics,
    {
        let span = self.current_span();
        let raw = self.tokens[self.pos].raw.clone();
        self.advance();
        Node::Export(Export { raw, span })
    }

    /// A thematic break: one token, one rule.
    pub fn thematic_break_node(&mut self) -> (n: Node)
        requires
            old(self).pos < old(self).tokens.len(),
        ensures
            nv(n) == NodeV::HorizontalRule(old(self).tokens@[old(self).pos as int].span),
            final(self).pos == old(self).pos + 1,
            final(self).tokens == old(self).tokens,
            final(self).refs == old(self).refs,
            final(self).options == old(self).options,
            final(self).source == old(self).source,
            final(self).link_label_depth == old(self).link_label_depth,
            final(self).jsx_open_stack == old(self).jsx_open_stack,
            final(self).diagnostics == old(self).diagnostics,
    {
        let span = self.current_span();
        self.advance();
        Node::HorizontalRule(HorizontalRule { span })
    }
    /// Indented code (CommonMark 4.4): consecutive `Whitespace` +
    /// `IndentedCodeLine` pairs, each line with its indent beyond four
    /// columns and a newline. Blank and whitespace-only lines between two
    /// indented lines stay in the block; a gap after the last indented line
    /// is left for the next block. No token stream of `isize::MAX / 2`
    /// tokens or more fits in memory, hence the bound.
    pub fn parse_indented_code(&mut self) -> (n: Node)
        requires
            starts_indent(old(self).tokens@, old(self).pos as int),
            old(self).tokens.len() <= usize::MAX / 2,
        ensures
            nv(n) == NodeV::CodeBlock(
                None,
                None,
                indented_from(old(self).tokens@, old(self).pos as int).0,
                old(self).tokens@[old(self).pos as int].span,
            ),
            final(self).pos == indented_from(old(self).tokens@, old(self).pos as int).1,
            final(self).pos > old(self).pos,
            final(self).tokens == old(self).tokens,
            final(self).refs == old(self).refs,
            final(self).options == old(self).options,
            final(self).diagnostics == old(self).diagnostics,
            final(self).source == old(self).source,
            final(self).link_label_depth == old(self).link_label_depth,
            final(self).jsx_open_stack == old(self).jsx_open_stack,
    {
        let ghost ts = self.tokens@;
        let span = self.current_span();
        let ghost start = self.pos as int;
        let ghost total = indented_from(ts, start);
        let mut buf: Vec<char> = Vec::new();
        loop
            invariant_except_break
                starts_indent(ts, self.pos as int),
                buf@ + indented_from(ts, self.pos as int).0 == total.0,
                indented_from(ts, self.pos as int).1 == total.1,
            invariant
                self.pos >= start,
                self.tokens.len() <= usize::MAX / 2,
                self.tokens@ == ts,
                self.tokens == old(self).tokens,
                self.refs == old(self).refs,
                self.options == old(self).options,
                self.diagnostics == old(self).diagnostics,
                self.source == old(self).source,
                self.link_label_depth == old(self).link_label_depth,
                self.jsx_open_stack == old(self).jsx_open_stack,
                total == indented_from(ts, start),
                start == old(self).pos,
            ensures
                buf@ == total.0,
                self.pos == total.1,
                self.pos > start,
                self.tokens == old(self).tokens,
                self.refs == old(self).refs,
                self.options == old(self).options,
                self.diagnostics == old(self).diagnostics,
                self.source == old(self).source,
                self.link_label_depth == old(self).link_label_depth,
                self.jsx_open_stack == old(self).jsx_open_stack,
            decreases self.tokens.len() - self.pos,
        {
            let ghost i = self.pos as int;
            let ghost buf0 = buf@;
            let ghost line = spaces(code_extra(ts[i].raw@)) + ts[i + 1].raw@ + seq!['\n'];
            let ws = chars_of(self.tokens[self.pos].raw.as_str());
            let extra: usize = if ws.len() > 0 && ws[0] == '\t' {
                ws.len() - 1
            } else if ws.len() >= 4 {
                ws.len() - 4
            } else {
                0
            };
            assert(extra as nat == code_extra(ts[i].raw@));
            let mut e: usize = 0;
            while e < extra
                invariant
                    e <= extra,
                    buf@ == buf0 + spaces(e as nat),
                decreases extra - e,
            {
                buf.push(' ');
                e += 1;
                assert(buf@ =~= buf0 + spaces(e as nat));
            }
            self.advance();
            let text = chars_of(self.tokens[self.pos].raw.as_str());
            self.advance();
            push_all(&mut buf, &text);
            buf.push('\n');
            assert(buf@ =~= buf0 + line);
            let saved = self.pos;
            let mut blanks: usize = 0;
            let mut vis: Vec<usize> = Vec::new();
            let ghost mut gv: Seq<nat> = Seq::empty();
            let mut consumed = false;
            loop
                invariant_except_break
                    code_gap(ts, saved as int, false) == (
                        blanks + code_gap(ts, self.pos as int, consumed).0,
                        gv + code_gap(ts, self.pos as int, consumed).1,
                        code_gap(ts, self.pos as int, consumed).2,
                    ),
                invariant
                    saved <= self.pos <= self.tokens.len(),
                    blanks <= 2 * (self.pos - saved),
                    vis@.len() <= 2 * (self.pos - saved),
                    gv.len() == vis@.len(),
                    forall|k: int| 0 <= k < gv.len() ==> gv[k] == vis@[k] as nat,
                    self.tokens.len() <= usize::MAX / 2,
                    self.tokens@ == ts,
                    self.tokens == old(self).tokens,
                    self.refs == old(self).refs,
                    self.options == old(self).options,
                    self.diagnostics == old(self).diagnostics,
                    self.source == old(self).source,
                    self.link_label_depth == old(self).link_label_depth,
                    self.jsx_open_stack == old(self).jsx_open_stack,
                ensures
                    code_gap(ts, saved as int, false) == (blanks as int, gv, self.pos as int),
                    saved <= self.pos <= self.tokens.len(),
                    gv.len() == vis@.len(),
                    forall|k: int| 0 <= k < gv.len() ==> gv[k] == vis@[k] as nat,
                    self.tokens@ == ts,
                    self.tokens == old(self).tokens,
                    self.refs == old(self).refs,
                    self.options == old(self).options,
                    self.diagnostics == old(self).diagnostics,
                    self.source == old(self).source,
                    self.link_label_depth == old(self).link_label_depth,
                    self.jsx_open_stack == old(self).jsx_open_stack,
                decreases self.tokens.len() - self.pos,
            {
                let ghost j = self.pos as int;
                let ghost gv0 = gv;
                let ws_break = match self.peek_kind() {
                    Some(TokenKind::Whitespace(_)) => self.tokens[self.pos].span.column == 1 && (self.kind_after(1)
                        == Some(TokenKind::SoftBreak) || self.kind_after(1) == Some(TokenKind::BlankLine)),
                    _ => false,
                };
                if ws_break {
                    let n = chars_of(self.tokens[self.pos].raw.as_str()).len();
                    let v: usize = if n >= 4 {
                        n - 4
                    } else {
                        0
                    };
                    assert(v as nat == past_four(ts[j].raw@.len() as int));
                    self.advance();
                    if self.peek_kind() == Some(TokenKind::BlankLine) {
                        self.advance();
                        blanks += 2;
                        vis.push(v);
                        vis.push(0);
                        proof {
                            gv = gv.push(v as nat).push(0nat);
                            assert(gv0 + (seq![v as nat, 0nat] + code_gap(ts, j + 2, consumed).1) =~= gv
                                + code_gap(ts, j + 2, consumed).1);
                        }
                    } else {
                        self.advance();
                        blanks += 1;
                        vis.push(v);
                        proof {
                            gv = gv.push(v as nat);
                            assert(gv0 + (seq![v as nat] + code_gap(ts, j + 2, consumed).1) =~= gv + code_gap(
                                ts,
                                j + 2,
                                consumed,
                            ).1);
                        }
                    }
                    continue;
                }
                match self.peek_kind() {
                    Some(TokenKind::SoftBreak) => {
                        if consumed {
                            assert(gv =~= gv + Seq::<nat>::empty());
                            break;
                        }
                        self.advance();
                        blanks += 1;
                        consumed = true;
                    },
                    Some(TokenKind::BlankLine) => {
                        self.advance();
                        blanks += 2;
                        vis.push(0);
                        proof {
                            gv = gv.push(0nat);
                            assert(gv0 + (seq![0nat] + code_gap(ts, j + 1, consumed).1) =~= gv + code_gap(
                                ts,
                                j + 1,
                                consumed,
                            ).1);
                        }
                    },
                    _ => {
                        assert(gv =~= gv + Seq::<nat>::empty());
                        break;
                    },
                }
            }
            proof {
                lemma_code_gap(ts, saved as int, false);
            }
            if blanks == 0 {
                break;
            }
            let next_is_indent = match self.peek_kind() {
                Some(TokenKind::Whitespace(_)) => self.kind_after(1) == Some(TokenKind::IndentedCodeLine),
                _ => false,
            };
            if !next_is_indent {
                self.pos = saved;
                break;
            }
            let ghost mid = buf@;
            let emit = blanks - 1;
            let mut f: usize = 0;
            while f < emit
                invariant
                    f <= emit,
                    gv.len() == vis@.len(),
                    forall|k: int| 0 <= k < gv.len() ==> gv[k] == vis@[k] as nat,
                    buf@ == mid + blank_lines(gv, f as nat),
                decreases emit - f,
            {
                let visible: usize = if f < vis.len() {
                    vis[f]
                } else {
                    0
                };
                let ghost b0 = buf@;
                let mut e: usize = 0;
                while e < visible
                    invariant
                        e <= visible,
                        buf@ == b0 + spaces(e as nat),
                    decreases visible - e,
                {
                    buf.push(' ');
                    e += 1;
                    assert(buf@ =~= b0 + spaces(e as nat));
                }
                buf.push('\n');
                f += 1;
                assert(buf@ =~= mid + blank_lines(gv, f as nat));
            }
            proof {
                let rest = indented_from(ts, self.pos as int);
                assert(indented_from(ts, i).0 == line + blank_lines(gv, (blanks - 1) as nat) + rest.0);
                assert(buf@ + rest.0 =~= buf0 + (line + blank_lines(gv, (blanks - 1) as nat) + rest.0));
            }
        }
        Node::CodeBlock(CodeBlock { lang: None, meta: None, value: string_of(&buf), span })
    }
    /// A raw HTML block (CommonMark 4.6, types 2 to 5) that the lexer
    /// opened: every token up to and with the closing one, verbatim.
    pub fn parse_html_block(&mut self) -> (n: Node)
        requires
            kind_in(old(self).tokens@, old(self).pos as int) == Some(TokenKind::HtmlBlockOpen),
        ensures
            ({
                let p = old(self).pos as int;
                let r = html_body(old(self).tokens@, p + 1);
                &&& nv(n) == NodeV::Html(old(self).tokens@[p].raw@ + r.0, old(self).tokens@[p].span)
                &&& final(self).pos == r.1
            }),
            final(self).pos > old(self).pos,
            final(self).tokens == old(self).tokens,
            final(self).refs == old(self).refs,
            final(self).options == old(self).options,
            final(self).source == old(self).source,
            final(self).link_label_depth == old(self).link_label_depth,
            final(self).jsx_open_stack == old(self).jsx_open_stack,
            final(self).diagnostics == old(self).diagnostics,
    {
        let ghost ts = self.tokens@;
        let span = self.current_span();
        let mut value: Vec<char> = chars_of(self.tokens[self.pos].raw.as_str());
        self.advance();
        let ghost q1 = self.pos as int;
        let ghost head = value@;
        loop
            invariant_except_break
                value@ + html_body(ts, self.pos as int).0 == head + html_body(ts, q1).0,
                html_body(ts, self.pos as int).1 == html_body(ts, q1).1,
            invariant
                q1 <= self.pos <= self.tokens.len(),
                self.tokens@ == ts,
                self.tokens == old(self).tokens,
                self.refs == old(self).refs,
                self.options == old(self).options,
                self.source == old(self).source,
                self.link_label_depth == old(self).link_label_depth,
                self.jsx_open_stack == old(self).jsx_open_stack,
                self.diagnostics == old(self).diagnostics,
            ensures
                value@ == head + html_body(ts, q1).0,
                self.pos == html_body(ts, q1).1,
                q1 <= self.pos,
                self.tokens == old(self).tokens,
                self.refs == old(self).refs,
                self.options == old(self).options,
                self.source == old(self).source,
                self.link_label_depth == old(self).link_label_depth,
                self.jsx_open_stack == old(self).jsx_open_stack,
                self.diagnostics == old(self).diagnostics,
            decreases self.tokens.len() - self.pos,
        {
            if self.pos >= self.tokens.len() || self.tokens[self.pos].kind == TokenKind::Eof {
                assert(value@ =~= value@ + Seq::<char>::empty());
                break;
            }
            let ghost before = value@;
            let ghost i = self.pos as int;
            let closing = self.tokens[self.pos].kind == TokenKind::HtmlBlockClose;
            let text = chars_of(self.tokens[self.pos].raw.as_str());
            push_all(&mut value, &text);
            self.advance();
            if closing {
                assert(value@ =~= before + html_body(ts, i).0);
                break;
            }
            assert(before + html_body(ts, i).0 =~= value@ + html_body(ts, i + 1).0);
        }
        Node::Html(Html { value: string_of(&value), span })
    }
    /// Step over an MDX comment, from its opening token through its
    /// closing one (or up to `Eof`).
    pub fn skip_md_comment(&mut self)
        requires
            old(self).pos < old(self).tokens.len(),
        ensures
            final(self).pos == comment_end(old(self).tokens@, old(self).pos + 1),
            final(self).tokens == old(self).tokens,
            final(self).refs == old(self).refs,
            final(self).options == old(self).options,
            final(self).source == old(self).source,
            final(self).link_label_depth == old(self).link_label_depth,
            final(self).jsx_open_stack == old(self).jsx_open_stack,
            final(self).diagnostics == old(self).diagnostics,
    {
        let ghost ts = self.tokens@;
        self.advance();
        let ghost q1 = self.pos as int;
        loop
            invariant_except_break
                comment_end(ts, self.pos as int) == comment_end(ts, q1),
            invariant
                q1 <= self.pos <= self.tokens.len(),
                self.tokens@ == ts,
                self.tokens == old(self).tokens,
                self.refs == old(self).refs,
                self.options == old(self).options,
                self.source == old(self).source,
                self.link_label_depth == old(self).link_label_depth,
                self.jsx_open_stack == old(self).jsx_open_stack,
                self.diagnostics == old(self).diagnostics,
            ensures
                self.pos == comment_end(ts, q1),
                self.tokens == old(self).tokens,
                self.refs == old(self).refs,
                self.options == old(self).options,
                self.source == old(self).source,
                self.link_label_depth == old(self).link_label_depth,
                self.jsx_open_stack == old(self).jsx_open_stack,
                self.diagnostics == old(self).diagnostics,
            decreases self.tokens.len() - self.pos,
        {
            match self.peek_kind() {
                Some(TokenKind::MdxCommentClose) => {
                    self.advance();
                    break;
                },
                Some(TokenKind::Eof) | None => {
                    break;
                },
                _ => {
                    self.advance();
                },
            }
        }
    }
    /// Visual width of the whitespace token under the cursor, if the
    /// cursor is on one: tabs move to the next stop of four, counted from
    /// the token's own column.
    pub fn peek_leading_indent(&self) -> (r: Option<usize>)
        requires
            self.indents_fit(),
        ensures
            match kind_in(self.tokens@, self.pos as int) {
                Some(TokenKind::Whitespace(_)) => r matches Some(w) && w as int == indent_width(
                    self.tokens@[self.pos as int],
                ),
                _ => r is None,
            },
    {
        match self.peek_kind() {
            Some(TokenKind::Whitespace(_)) => {
                let ghost t = self.tokens@[self.pos as int];
                let v = chars_of(self.tokens[self.pos].raw.as_str());
                let c0 = self.tokens[self.pos].span.column;
                let start: usize = if c0 >= 1 {
                    c0 - 1
                } else {
                    0
                };
                let mut col: usize = start;
                let mut k: usize = 0;
                assert(v@.skip(0) =~= v@);
                proof {
                    lemma_vis_col(v@, start as nat);
                }
                while k < v.len()
                    invariant
                        k <= v.len(),
                        v@ == t.raw@,
                        start == start_col(t),
                        vis_col(v@.skip(k as int), col as nat) == vis_col(t.raw@, start_col(t)),
                        vis_col(t.raw@, start_col(t)) <= usize::MAX,
                        start <= col,
                    decreases v.len() - k,
                {
                    let ghost rest = v@.skip(k as int);
                    proof {
                        assert(rest.drop_first() =~= v@.skip(k + 1));
                        assert(rest[0] == v@[k as int]);
                        lemma_vis_col(rest.drop_first(), tab_step(rest[0], col as nat));
                    }
                    if v[k] == '\t' {
                        col = col + (4 - col % 4);
                    } else {
                        col = col + 1;
                    }
                    k += 1;
                }
                assert(v@.skip(k as int) =~= Seq::<char>::empty());
                Some(col - start)
            },
            _ => None,
        }
    }

    /// Character count of the whitespace token under the cursor, if the
    /// cursor is on one.
    pub fn leading_whitespace_chars(&self) -> (r: Option<usize>)
        ensures
            match kind_in(self.tokens@, self.pos as int) {
                Some(TokenKind::Whitespace(_)) => r matches Some(w) && w as int == self.raw_at(self.pos as int).len(),
                _ => r is None,
            },
    {
        match self.peek_kind() {
            Some(TokenKind::Whitespace(_)) => Some(chars_of(self.tokens[self.pos].raw.as_str()).len()),
            _ => None,
        }
    }

    /// How many `>` markers open the current line from the cursor on,
    /// whitespace between them skipped. The cursor stays.
    pub fn count_line_blockquote_markers(&self) -> (r: usize)
        ensures
            r == quote_count(self.tokens@, self.pos as int),
    {
        let mut count: usize = 0;
        let mut i = self.pos;
        while i < self.tokens.len()
            invariant
                self.pos <= i,
                count <= i - self.pos,
                count + quote_count(self.tokens@, i as int) == quote_count(self.tokens@, self.pos as int),
            ensures
                count == quote_count(self.tokens@, self.pos as int),
            decreases self.tokens.len() - i,
        {
            match self.tokens[i].kind {
                TokenKind::BlockQuoteMarker => {
                    count += 1;
                    i += 1;
                },
                TokenKind::Whitespace(_) => {
                    i += 1;
                },
                _ => {
                    break;
                },
            }
        }
        count
    }

    /// Step over `n` `>` markers and the whitespace before each, stopping
    /// early where fewer follow, then over one more whitespace token when
    /// it is narrower than four columns.
    pub fn consume_blockquote_markers(&mut self, n: usize)
        requires
            old(self).indents_fit(),
        ensures
            final(self).pos == markers_end(old(self).tokens@, old(self).pos as int, n as nat),
            final(self).tokens == old(self).tokens,
            final(self).refs == old(self).refs,
            final(self).options == old(self).options,
            final(self).source == old(self).source,
            final(self).link_label_depth == old(self).link_label_depth,
            final(self).jsx_open_stack == old(self).jsx_open_stack,
            final(self).diagnostics == old(self).diagnostics,
    {
        let ghost ts = self.tokens@;
        let ghost goal = markers_end(ts, self.pos as int, n as nat);
        let mut taken: usize = 0;
        while taken < n
            invariant_except_break
                markers_end(ts, self.pos as int, (n - taken) as nat) == goal,
            invariant
                self.indents_fit(),
                taken <= n,
                self.tokens@ == ts,
                self.tokens == old(self).tokens,
                self.refs == old(self).refs,
                self.options == old(self).options,
                self.source == old(self).source,
                self.link_label_depth == old(self).link_label_depth,
                self.jsx_open_stack == old(self).jsx_open_stack,
                self.diagnostics == old(self).diagnostics,
            ensures
                past_narrow_space(ts, self.pos as int) == goal,
                self.indents_fit(),
                self.tokens == old(self).tokens,
                self.refs == old(self).refs,
                self.options == old(self).options,
                self.source == old(self).source,
                self.link_label_depth == old(self).link_label_depth,
                self.jsx_open_stack == old(self).jsx_open_stack,
                self.diagnostics == old(self).diagnostics,
            decreases n - taken,
        {
            if let Some(TokenKind::Whitespace(_)) = self.peek_kind() {
                self.advance();
            }
            if self.peek_kind() != Some(TokenKind::BlockQuoteMarker) {
                break;
            }
            self.advance();
            taken += 1;
        }
        match self.peek_leading_indent() {
            Some(w) => {
                if w < 4 {
                    self.advance();
                }
            },
            None => {},
        }
    }
    /// The line at the cursor, past one whitespace token, starts a block
    /// that ends a lazy paragraph continuation.
    pub fn line_starts_other_block(&self) -> (r: bool)
        ensures
            r == (kind_in(self.tokens@, past_space(self.tokens@, self.pos as int)) matches Some(k)
                && starts_other_block(k)),
    {
        let i: usize = match self.peek_kind() {
            Some(TokenKind::Whitespace(_)) => self.pos + 1,
            _ => self.pos,
        };
        if i >= self.tokens.len() {
            return false;
        }
        match self.tokens[i].kind {
            TokenKind::Heading(_) | TokenKind::ThematicBreak | TokenKind::BlockQuoteMarker
            | TokenKind::UnorderedListMarker | TokenKind::OrderedListMarker(_) | TokenKind::IndentedCodeLine
            | TokenKind::CodeFenceOpen(_, _) | TokenKind::HtmlCommentOpen | TokenKind::HtmlBlockOpen
            | TokenKind::JsxOpenTagStart | TokenKind::JsxCloseTagStart | TokenKind::LinkRefDef => true,
            _ => false,
        }
    }

    /// Where the lexer left a list marker as text (`-`, `*`, `+`, `1.`,
    /// `1)` followed by whitespace), make it a marker token. Says whether
    /// it did; nothing else changes.
    pub fn try_promote_text_list_marker(&mut self) -> (r: bool)
        ensures
            r == (promoted_marker(old(self).tokens@, old(self).pos as int) is Some),
            final(self).tokens@.len() == old(self).tokens@.len(),
            forall|i: int| 0 <= i < old(self).tokens@.len() && (i != old(self).pos || !r) ==> #[trigger] final(self).tokens@[i]
                == old(self).tokens@[i],
            r ==> ({
                let t = final(self).tokens@[old(self).pos as int];
                let o = old(self).tokens@[old(self).pos as int];
                &&& Some(t.kind) == promoted_marker(old(self).tokens@, old(self).pos as int)
                &&& t.raw == o.raw && t.span == o.span && t.offset == o.offset
            }),
            final(self).pos == old(self).pos,
            final(self).refs == old(self).refs,
            final(self).options == old(self).options,
            final(self).source == old(self).source,
            final(self).link_label_depth == old(self).link_label_depth,
            final(self).jsx_open_stack == old(self).jsx_open_stack,
            final(self).diagnostics == old(self).diagnostics,
    {
        if self.peek_kind() != Some(TokenKind::Text) {
            return false;
        }
        match self.kind_after(1) {
            Some(TokenKind::Whitespace(w)) => {
                if w == 0 {
                    return false;
                }
            },
            _ => {
                return false;
            },
        }
        let v = chars_of(self.tokens[self.pos].raw.as_str());
        let ghost s = v@;
        let kind: Option<TokenKind> = if v.len() == 1 && (v[0] == '-' || v[0] == '*' || v[0] == '+') {
            assert(s == seq![v[0]]);
            Some(TokenKind::UnorderedListMarker)
        } else {
            proof {
                if s == seq!['-'] || s == seq!['*'] || s == seq!['+'] {
                    assert(s[0] == v[0]);
                }
            }
            let mut d: usize = 0;
            while d < v.len() && '0' <= v[d] && v[d] <= '9'
                invariant
                    d <= v.len(),
                    s == v@,
                    digits_end(s, 0) == digits_end(s, d as int),
                decreases v.len() - d,
            {
                d += 1;
            }
            if d == 0 || d >= v.len() || d != v.len() - 1 {
                None
            } else if v[d] == '.' {
                Some(TokenKind::OrderedListMarker(OrderedSep::Period))
            } else if v[d] == ')' {
                Some(TokenKind::OrderedListMarker(OrderedSep::Paren))
            } else {
                None
            }
        };
        match kind {
            Some(k) => {
                let p = self.pos;
                self.tokens[p].kind = k;
                true
            },
            None => false,
        }
    }
    /// Where a blank line separates two items of the same list, step over
    /// it (leaving the cursor on the next item's indent or marker), note
    /// the blank line, and make the previous item loose. Otherwise nothing
    /// changes.
    pub fn try_continue_same_list_after_blankline(
        &mut self,
        ordered: bool,
        indent: usize,
        items: &mut Vec<Node>,
        span: &Span,
        saw_blank_between_items: &mut bool,
    ) -> (r: bool)
        ensures
            r == list_resumes(old(self).tokens@, old(self).pos as int, ordered, indent),
            final(self).pos == if r { old(self).pos + 1 } else { old(self).pos as int },
            *final(saw_blank_between_items) == if r { true } else { *old(saw_blank_between_items) },
            final(items)@.len() == old(items)@.len(),
            r && old(items)@.len() > 0 ==> {
                let n = old(items)@.len() - 1;
                &&& forall|i: int| 0 <= i < n ==> #[trigger] final(items)@[i] == old(items)@[i]
                &&& final(items)@[n]@ == map_item(old(items)@[n]@, |c: Seq<NodeV>| loosened(c, *span))
            },
            !r ==> final(items)@ == old(items)@,
            final(self).tokens == old(self).tokens,
            final(self).refs == old(self).refs,
            final(self).options == old(self).options,
            final(self).source == old(self).source,
            final(self).link_label_depth == old(self).link_label_depth,
            final(self).jsx_open_stack == old(self).jsx_open_stack,
            final(self).diagnostics == old(self).diagnostics,
    {
        if self.peek_kind() != Some(TokenKind::BlankLine) {
            return false;
        }
        let blank_pos = self.pos;
        self.advance();
        let ws = match self.peek_kind() {
            Some(TokenKind::Whitespace(_)) => true,
            _ => false,
        };
        let ws_pos = self.pos;
        if ws {
            self.advance();
        }
        let next_is_marker = match self.peek_kind() {
            Some(TokenKind::UnorderedListMarker) => !ordered,
            Some(TokenKind::OrderedListMarker(_)) => ordered,
            _ => false,
        };
        let next_indent: usize = if ws {
            chars_of(self.tokens[ws_pos].raw.as_str()).len()
        } else {
            0
        };
        let same_list_indent = if indent > 0 {
            next_indent == indent
        } else {
            next_indent <= 3
        };
        if !next_is_marker || !same_list_indent {
            self.pos = blank_pos;
            return false;
        }
        self.pos = ws_pos;
        *saw_blank_between_items = true;
        if items.len() > 0 {
            let last = items.len() - 1;
            ensure_loose_item(&mut items[last], span);
        }
        true
    }
    /// Indented code inside a block quote, the cursor on the whitespace
    /// after the quote markers.
    pub fn parse_indented_code_in_bq(&mut self) -> (n: Node)
        requires
            old(self).indents_fit(),
        ensures
            ({
                let r = quoted_code_from(old(self).tokens@, old(self).pos as int);
                &&& nv(n) matches NodeV::CodeBlock(None, None, v, sp) && v == r.0 && (old(self).pos < old(
                    self,
                ).tokens.len() ==> sp == old(self).tokens@[old(self).pos as int].span) && (old(self).pos
                    >= old(self).tokens.len() ==> sp.file@.len() == 0 && sp.line == 0 && sp.column == 0
                    && sp.length == 0)
                &&& final(self).pos == r.1
            }),
            final(self).tokens == old(self).tokens,
            final(self).refs == old(self).refs,
            final(self).options == old(self).options,
            final(self).source == old(self).source,
            final(self).link_label_depth == old(self).link_label_depth,
            final(self).jsx_open_stack == old(self).jsx_open_stack,
            final(self).diagnostics == old(self).diagnostics,
    {
        let ghost ts = self.tokens@;
        let ghost start = self.pos as int;
        let span = self.current_span();
        let mut buf: Vec<char> = Vec::new();
        loop
            invariant_except_break
                buf@ + quoted_code_from(ts, self.pos as int).0 == quoted_code_from(ts, start).0,
                quoted_code_from(ts, self.pos as int).1 == quoted_code_from(ts, start).1,
            invariant
                start <= self.pos,
                self.indents_fit(),
                self.tokens@ == ts,
                self.tokens == old(self).tokens,
                self.refs == old(self).refs,
                self.options == old(self).options,
                self.source == old(self).source,
                self.link_label_depth == old(self).link_label_depth,
                self.jsx_open_stack == old(self).jsx_open_stack,
                self.diagnostics == old(self).diagnostics,
            ensures
                buf@ == quoted_code_from(ts, start).0,
                self.pos == quoted_code_from(ts, start).1,
                self.tokens == old(self).tokens,
                self.refs == old(self).refs,
                self.options == old(self).options,
                self.source == old(self).source,
                self.link_label_depth == old(self).link_label_depth,
                self.jsx_open_stack == old(self).jsx_open_stack,
                self.diagnostics == old(self).diagnostics,
            decreases self.tokens.len() - self.pos,
        {
            let ws_visual: usize = match self.peek_leading_indent() {
                Some(w) => {
                    if w < 4 {
                        assert(buf@ =~= buf@ + Seq::<char>::empty());
                        break;
                    }
                    w
                },
                None => {
                    assert(buf@ =~= buf@ + Seq::<char>::empty());
                    break;
                },
            };
            let ghost i = self.pos as int;
            let ghost buf0 = buf@;
            self.advance();
            let ghost q1 = self.pos as int;
            let mut e: usize = 4;
            while e < ws_visual
                invariant
                    4 <= e <= ws_visual,
                    buf@ == buf0 + spaces((e - 4) as nat),
                decreases ws_visual - e,
            {
                buf.push(' ');
                e += 1;
                assert(buf@ =~= buf0 + spaces((e - 4) as nat));
            }
            let ghost buf1 = buf@;
            loop
                invariant_except_break
                    buf@ + line_text(ts, self.pos as int).0 == buf1 + line_text(ts, q1).0,
                    line_text(ts, self.pos as int).1 == line_text(ts, q1).1,
                invariant
                    q1 <= self.pos <= self.tokens.len(),
                    self.indents_fit(),
                    self.tokens@ == ts,
                    self.tokens == old(self).tokens,
                    self.refs == old(self).refs,
                    self.options == old(self).options,
                    self.source == old(self).source,
                    self.link_label_depth == old(self).link_label_depth,
                    self.jsx_open_stack == old(self).jsx_open_stack,
                    self.diagnostics == old(self).diagnostics,
                ensures
                    buf@ == buf1 + line_text(ts, q1).0,
                    self.pos == line_text(ts, q1).1,
                    q1 <= self.pos <= self.tokens.len(),
                    self.tokens == old(self).tokens,
                    self.refs == old(self).refs,
                    self.options == old(self).options,
                    self.source == old(self).source,
                    self.link_label_depth == old(self).link_label_depth,
                    self.jsx_open_stack == old(self).jsx_open_stack,
                    self.diagnostics == old(self).diagnostics,
                decreases self.tokens.len() - self.pos,
            {
                if self.pos >= self.tokens.len() {
                    assert(buf@ =~= buf@ + Seq::<char>::empty());
                    break;
                }
                match self.tokens[self.pos].kind {
                    TokenKind::SoftBreak | TokenKind::HardBreak | TokenKind::BlankLine | TokenKind::Eof => {
                        assert(buf@ =~= buf@ + Seq::<char>::empty());
                        break;
                    },
                    _ => {
                        let ghost before = buf@;
                        let ghost j = self.pos as int;
                        let t = chars_of(self.tokens[self.pos].raw.as_str());
                        push_all(&mut buf, &t);
                        self.advance();
                        assert(before + line_text(ts, j).0 =~= buf@ + line_text(ts, j + 1).0);
                    },
                }
            }
            buf.push('\n');
            let ghost line = spaces((indent_width(ts[i]) - 4) as nat) + line_text(ts, q1).0 + seq!['\n'];
            assert(buf@ =~= buf0 + line);
            let saved = self.pos;
            if self.peek_kind() != Some(TokenKind::SoftBreak) {
                break;
            }
            self.advance();
            let next_markers = self.count_line_blockquote_markers();
            if next_markers == 0 {
                self.pos = saved;
                break;
            }
            self.consume_blockquote_markers(next_markers);
            let next_aligned = match self.peek_leading_indent() {
                Some(w) => w >= 4,
                None => false,
            };
            if !next_aligned {
                self.pos = saved;
                break;
            }
            proof {
                lemma_markers_end(ts, saved + 1, next_markers as nat);
                let rest = quoted_code_from(ts, self.pos as int);
                assert(quoted_code_from(ts, i) == (line + rest.0, rest.1));
                assert(buf0 + quoted_code_from(ts, i).0 =~= buf@ + rest.0);
            }
        }
        Node::CodeBlock(CodeBlock { lang: None, meta: None, value: string_of(&buf), span })
    }
    /// Indented code built line by line where the lexer left the lines
    /// unmarked (CommonMark 4.4). No token stream of `isize::MAX / 2`
    /// tokens or more fits in memory, hence the bound.
    pub fn parse_indented_code_fallback(&mut self) -> (n: Node)
        requires
            old(self).tokens.len() <= usize::MAX / 2,
        ensures
            ({
                let r = fallback_code_from(old(self).tokens@, old(self).pos as int);
                &&& nv(n) matches NodeV::CodeBlock(None, None, v, sp) && v == r.0 && (old(self).pos < old(
                    self,
                ).tokens.len() ==> sp == old(self).tokens@[old(self).pos as int].span) && (old(self).pos
                    >= old(self).tokens.len() ==> sp.file@.len() == 0 && sp.line == 0 && sp.column == 0
                    && sp.length == 0)
                &&& final(self).pos == r.1
            }),
            final(self).tokens == old(self).tokens,
            final(self).refs == old(self).refs,
            final(self).options == old(self).options,
            final(self).source == old(self).source,
            final(self).link_label_depth == old(self).link_label_depth,
            final(self).jsx_open_stack == old(self).jsx_open_stack,
            final(self).diagnostics == old(self).diagnostics,
    {
        let ghost ts = self.tokens@;
        let ghost start = self.pos as int;
        let span = self.current_span();
        let mut buf: Vec<char> = Vec::new();
        loop
            invariant_except_break
                buf@ + fallback_code_from(ts, self.pos as int).0 == fallback_code_from(ts, start).0,
                fallback_code_from(ts, self.pos as int).1 == fallback_code_from(ts, start).1,
            invariant
                start <= self.pos,
                self.tokens.len() <= usize::MAX / 2,
                self.tokens@ == ts,
                self.tokens == old(self).tokens,
                self.refs == old(self).refs,
                self.options == old(self).options,
                self.source == old(self).source,
                self.link_label_depth == old(self).link_label_depth,
                self.jsx_open_stack == old(self).jsx_open_stack,
                self.diagnostics == old(self).diagnostics,
            ensures
                buf@ == fallback_code_from(ts, start).0,
                self.pos == fallback_code_from(ts, start).1,
                self.tokens == old(self).tokens,
                self.refs == old(self).refs,
                self.options == old(self).options,
                self.source == old(self).source,
                self.link_label_depth == old(self).link_label_depth,
                self.jsx_open_stack == old(self).jsx_open_stack,
                self.diagnostics == old(self).diagnostics,
            decreases self.tokens.len() - self.pos,
        {
            let ws_len: usize = match self.leading_whitespace_chars() {
                Some(w) => {
                    if w < 4 || self.tokens[self.pos].span.column != 1 {
                        assert(buf@ =~= buf@ + Seq::<char>::empty());
                        break;
                    }
                    w
                },
                None => {
                    assert(buf@ =~= buf@ + Seq::<char>::empty());
                    break;
                },
            };
            let ghost i = self.pos as int;
            let ghost buf0 = buf@;
            self.advance();
            let ghost q1 = self.pos as int;
            let mut e: usize = 4;
            while e < ws_len
                invariant
                    4 <= e <= ws_len,
                    buf@ == buf0 + spaces((e - 4) as nat),
                decreases ws_len - e,
            {
                buf.push(' ');
                e += 1;
                assert(buf@ =~= buf0 + spaces((e - 4) as nat));
            }
            let ghost buf1 = buf@;
            loop
                invariant_except_break
                    buf@ + line_text(ts, self.pos as int).0 == buf1 + line_text(ts, q1).0,
                    line_text(ts, self.pos as int).1 == line_text(ts, q1).1,
                invariant
                    q1 <= self.pos <= self.tokens.len(),
                    self.tokens.len() <= usize::MAX / 2,
                    self.tokens@ == ts,
                    self.tokens == old(self).tokens,
                    self.refs == old(self).refs,
                    self.options == old(self).options,
                    self.source == old(self).source,
                    self.link_label_depth == old(self).link_label_depth,
                    self.jsx_open_stack == old(self).jsx_open_stack,
                    self.diagnostics == old(self).diagnostics,
                ensures
                    buf@ == buf1 + line_text(ts, q1).0,
                    self.pos == line_text(ts, q1).1,
                    q1 <= self.pos <= self.tokens.len(),
                    self.tokens.len() <= usize::MAX / 2,
                    self.tokens == old(self).tokens,
                    self.refs == old(self).refs,
                    self.options == old(self).options,
                    self.source == old(self).source,
                    self.link_label_depth == old(self).link_label_depth,
                    self.jsx_open_stack == old(self).jsx_open_stack,
                    self.diagnostics == old(self).diagnostics,
                decreases self.tokens.len() - self.pos,
            {
                if self.pos >= self.tokens.len() {
                    assert(buf@ =~= buf@ + Seq::<char>::empty());
                    break;
                }
                match self.tokens[self.pos].kind {
                    TokenKind::SoftBreak | TokenKind::HardBreak | TokenKind::BlankLine | TokenKind::Eof => {
                        assert(buf@ =~= buf@ + Seq::<char>::empty());
                        break;
                    },
                    _ => {
                        let ghost before = buf@;
                        let ghost j = self.pos as int;
                        let t = chars_of(self.tokens[self.pos].raw.as_str());
                        push_all(&mut buf, &t);
                        self.advance();
                        assert(before + line_text(ts, j).0 =~= buf@ + line_text(ts, j + 1).0);
                    },
                }
            }
            buf.push('\n');
            let ghost line = spaces((ts[i].raw@.len() - 4) as nat) + line_text(ts, q1).0 + seq!['\n'];
            assert(buf@ =~= buf0 + line);
            let saved = self.pos;
            let mut blanks: usize = 0;
            loop
                invariant_except_break
                    break_run(self.tokens@, saved as int).0 == blanks + break_run(self.tokens@, self.pos as int).0,
                    break_run(self.tokens@, saved as int).1 == break_run(self.tokens@, self.pos as int).1,
                invariant
                    saved <= self.pos <= self.tokens.len(),
                    blanks <= 2 * (self.pos - saved),
                    self.tokens.len() <= usize::MAX / 2,
                    self.tokens@ == ts,
                    self.tokens == old(self).tokens,
                    self.refs == old(self).refs,
                    self.options == old(self).options,
                    self.source == old(self).source,
                    self.link_label_depth == old(self).link_label_depth,
                    self.jsx_open_stack == old(self).jsx_open_stack,
                    self.diagnostics == old(self).diagnostics,
                ensures
                    (blanks as int, self.pos as int) == break_run(self.tokens@, saved as int),
                    saved <= self.pos <= self.tokens.len(),
                    self.tokens@ == ts,
                    self.tokens == old(self).tokens,
                    self.refs == old(self).refs,
                    self.options == old(self).options,
                    self.source == old(self).source,
                    self.link_label_depth == old(self).link_label_depth,
                    self.jsx_open_stack == old(self).jsx_open_stack,
                    self.diagnostics == old(self).diagnostics,
                decreases self.tokens.len() - self.pos,
            {
                match self.peek_kind() {
                    Some(TokenKind::SoftBreak) => {
                        self.advance();
                        blanks += 1;
                        break;
                    },
                    Some(TokenKind::BlankLine) => {
                        self.advance();
                        blanks += 2;
                    },
                    _ => {
                        break;
                    },
                }
            }
            proof {
                lemma_break_run(ts, saved as int);
            }
            if blanks == 0 {
                break;
            }
            let next_aligned = match self.leading_whitespace_chars() {
                Some(w) => w >= 4 && self.tokens[self.pos].span.column == 1,
                None => false,
            };
            if !next_aligned {
                self.pos = saved;
                break;
            }
            let ghost mid = buf@;
            let mut f: usize = 1;
            while f < blanks
                invariant
                    1 <= f <= blanks,
                    buf@ == mid + line_feeds((f - 1) as nat),
                decreases blanks - f,
            {
                buf.push('\n');
                f += 1;
                assert(buf@ =~= mid + line_feeds((f - 1) as nat));
            }
            proof {
                let rest = fallback_code_from(ts, self.pos as int);
                assert(fallback_code_from(ts, i).0 == line + line_feeds((blanks - 1) as nat) + rest.0);
                assert(buf0 + fallback_code_from(ts, i).0 =~= buf@ + rest.0);
            }
        }
        Node::CodeBlock(CodeBlock { lang: None, meta: None, value: string_of(&buf), span })
    }
    /// An HTML comment block (CommonMark 4.6, type 2), the cursor on its
    /// opening token: it runs to the end of the line holding `-->`, or to
    /// a blank line when `-->` never comes.
    pub fn parse_html_comment_block(&mut self) -> (n: Node)
        requires
            old(self).pos < old(self).tokens.len(),
        ensures
            ({
                let p = old(self).pos as int;
                let r = comment_rest(old(self).tokens@, p + 1, false);
                &&& nv(n) == NodeV::Html(old(self).tokens@[p].raw@ + r.0, old(self).tokens@[p].span)
                &&& final(self).pos == r.1
            }),
            final(self).pos > old(self).pos,
            final(self).tokens == old(self).tokens,
            final(self).refs == old(self).refs,
            final(self).options == old(self).options,
            final(self).diagnostics == old(self).diagnostics,
            final(self).source == old(self).source,
            final(self).link_label_depth == old(self).link_label_depth,
            final(self).jsx_open_stack == old(self).jsx_open_stack,
    {
        let ghost ts = self.tokens@;
        let span = self.current_span();
        let mut value: Vec<char> = chars_of(self.tokens[self.pos].raw.as_str());
        self.advance();
        let ghost q1 = self.pos as int;
        let ghost head = value@;
        let mut closed = false;
        loop
            invariant_except_break
                value@ + comment_rest(ts, self.pos as int, closed).0 == head + comment_rest(ts, q1, false).0,
                comment_rest(ts, self.pos as int, closed).1 == comment_rest(ts, q1, false).1,
            invariant
                q1 <= self.pos <= self.tokens.len(),
                self.tokens@ == ts,
                self.tokens == old(self).tokens,
                self.refs == old(self).refs,
                self.options == old(self).options,
                self.diagnostics == old(self).diagnostics,
                self.source == old(self).source,
                self.link_label_depth == old(self).link_label_depth,
                self.jsx_open_stack == old(self).jsx_open_stack,
            ensures
                value@ == head + comment_rest(ts, q1, false).0,
                self.pos == comment_rest(ts, q1, false).1,
                q1 <= self.pos,
                self.tokens == old(self).tokens,
                self.refs == old(self).refs,
                self.options == old(self).options,
                self.diagnostics == old(self).diagnostics,
                self.source == old(self).source,
                self.link_label_depth == old(self).link_label_depth,
                self.jsx_open_stack == old(self).jsx_open_stack,
            decreases self.tokens.len() - self.pos,
        {
            if self.pos >= self.tokens.len() {
                assert(value@ =~= value@ + Seq::<char>::empty());
                break;
            }
            let ghost before = value@;
            let ghost i = self.pos as int;
            let ghost c0 = closed;
            match self.tokens[self.pos].kind {
                TokenKind::HtmlCommentClose => {
                    let t = chars_of(self.tokens[self.pos].raw.as_str());
                    push_all(&mut value, &t);
                    self.advance();
                    closed = true;
                },
                TokenKind::BlankLine | TokenKind::Eof => {
                    assert(value@ =~= value@ + Seq::<char>::empty());
                    break;
                },
                TokenKind::SoftBreak | TokenKind::HardBreak => {
                    if closed {
                        assert(value@ =~= value@ + Seq::<char>::empty());
                        break;
                    }
                    value.push('\n');
                    self.advance();
                },
                _ => {
                    let t = chars_of(self.tokens[self.pos].raw.as_str());
                    push_all(&mut value, &t);
                    self.advance();
                },
            }
            assert(before + comment_rest(ts, i, c0).0 =~= value@ + comment_rest(ts, i + 1, closed).0);
        }
        Node::Html(Html { value: string_of(&value), span })
    }
}

/// The children of a closed quote level: its blocks, then its pending
/// paragraph if that holds anything.
pub open spec fn closed_level(blocks: Seq<Node>, pending: Seq<Node>, para_span: Span) -> Seq<NodeV> {
    if pending.len() > 0 {
        nvs(blocks).push(NodeV::Paragraph(nvs(pending), para_span))
    } else {
        nvs(blocks)
    }
}

/// Close the deepest block-quote level: its pending paragraph, if not
/// empty, joins its blocks, and the level becomes a `Blockquote` at the
/// end of its parent level.
pub fn close_blockquote_level(
    children: &mut Vec<Vec<Node>>,
    paragraphs: &mut Vec<Vec<Node>>,
    para_span: &Span,
    bq_span: &Span,
)
    requires
        old(children).len() >= 2,
        old(paragraphs).len() >= 1,
    ensures
        ({
            let n = old(children)@.len() as int;
            let inner = closed_level(old(children)@[n - 1]@, old(paragraphs)@.last()@, *para_span);
            &&& final(children)@.len() == n - 1
            &&& forall|i: int| 0 <= i < n - 2 ==> #[trigger] final(children)@[i] == old(children)@[i]
            &&& nvs(final(children)@[n - 2]@) == nvs(old(children)@[n - 2]@).push(NodeV::Blockquote(inner, *bq_span))
        }),
        final(paragraphs)@ == old(paragraphs)@.drop_last(),
{
    let mut inner_children = children.pop().unwrap();
    let pending = paragraphs.pop().unwrap();
    let ghost blocks = inner_children@;
    if pending.len() > 0 {
        let para = Node::Paragraph(Paragraph { children: pending, span: clone_span(para_span) });
        proof {
            lemma_nvs_push(blocks, para);
        }
        inner_children.push(para);
    }
    let bq = Node::Blockquote(Blockquote { children: inner_children, span: clone_span(bq_span) });
    let mut parent = children.pop().unwrap();
    let ghost before = parent@;
    proof {
        lemma_nvs_push(before, bq);
    }
    parent.push(bq);
    children.push(parent);
}

} // verus!
