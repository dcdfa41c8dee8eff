//! Inline productions that read whole tokens: code spans, autolinks, and
//! the flanking of emphasis delimiter runs (CommonMark 6.1, 6.4, 6.5).

use vstd::prelude::*;
use crate::ast::{nv, nvs, InlineCode, Link, Node, NodeV, Span, Text};
use crate::block::kind_in;
use crate::autolink::{email_scan, split_email_autolinks, split_email_autolinks_with_tail_underscore, tail_underscore_split};
use crate::inline::{is_unicode_punct, unescape_markdown, unescaped, unicode_punct};
use crate::parser::Parser;
use crate::text::{
    chars_eq, chars_of, is_alphanumeric, vec_has_char, is_white_space, is_whitespace, push_all, slice_chars, string_of,
    unicode_alphanumeric,
};
use crate::emphasis::{DelimRecord, EmphasisChar};
use crate::token::{AutolinkKind, Token, TokenKind};

verus! {

/// The text of a code span's tokens from `q` on, up to the closing run of
/// `n` backticks (taken) or `Eof` (left), and where the cursor stops.
pub open spec fn code_span_body(ts: Seq<Token>, q: int, n: usize) -> (Seq<char>, int)
    decreases ts.len() - q,
{
    if q < 0 || q >= ts.len() {
        (Seq::empty(), q)
    } else if ts[q].kind == TokenKind::CodeInlineClose(n) {
        (Seq::empty(), q + 1)
    } else if ts[q].kind == TokenKind::Eof {
        (Seq::empty(), q)
    } else {
        let r = code_span_body(ts, q + 1, n);
        (ts[q].raw@ + r.0, r.1)
    }
}

/// `s` with each line feed made a space.
pub open spec fn newlines_to_spaces(s: Seq<char>) -> Seq<char> {
    Seq::new(s.len(), |i: int| if s[i] == '\n' { ' ' } else { s[i] })
}

/// A code span's value (CommonMark 6.1): line feeds become spaces, and
/// one space comes off each end when both ends are spaces and not
/// everything is a space.
pub open spec fn code_span_text(s: Seq<char>) -> Seq<char> {
    let v = newlines_to_spaces(s);
    if v.len() > 0 && v[0] == ' ' && v.last() == ' ' && exists|i: int| 0 <= i < v.len() && v[i] != ' ' {
        v.subrange(1, v.len() - 1)
    } else {
        v
    }
}

/// The code span value of raw text.
pub fn code_span_value(s: &Vec<char>) -> (r: Vec<char>)
    ensures
        r@ == code_span_text(s@),
{
    let mut v: Vec<char> = Vec::new();
    let mut i: usize = 0;
    let mut any_other = false;
    while i < s.len()
        invariant
            i <= s.len(),
            v@ == newlines_to_spaces(s@).take(i as int),
            any_other == exists|k: int| 0 <= k < i && newlines_to_spaces(s@)[k] != ' ',
        decreases s.len() - i,
    {
        let c = if s[i] == '\n' {
            ' '
        } else {
            s[i]
        };
        let ghost w = newlines_to_spaces(s@);
        let ghost i0 = i as int;
        assert(w[i0] == c);
        v.push(c);
        if c != ' ' {
            any_other = true;
            assert(0 <= i0 < i0 + 1 && w[i0] != ' ');
        } else {
            assert forall|k: int| 0 <= k < i0 + 1 && w[k] != ' ' implies k < i0 by {
                if k == i0 {
                    assert(w[k] == ' ');
                }
            }
        }
        i += 1;
        assert(v@ =~= newlines_to_spaces(s@).take(i as int));
    }
    let ghost w = newlines_to_spaces(s@);
    assert(w.take(s.len() as int) =~= w);
    if v.len() > 0 && v[0] == ' ' && v[v.len() - 1] == ' ' && any_other {
        proof {
            let k = choose|k: int| 0 <= k < s.len() && w[k] != ' ';
            assert(0 <= k < v.len() && v@[k] != ' ');
        }
        slice_chars(&v, 1, v.len() - 1)
    } else {
        proof {
            if v.len() > 0 && v[0] == ' ' && v[v.len() - 1] == ' ' {
                assert(!(exists|k: int| 0 <= k < w.len() && w[k] != ' '));
            }
        }
        v
    }
}

/// `s` without its leading `c`s.
pub open spec fn trim_start_char(s: Seq<char>, c: char) -> Seq<char>
    decreases s.len(),
{
    if s.len() > 0 && s[0] == c {
        trim_start_char(s.drop_first(), c)
    } else {
        s
    }
}

/// `s` without its trailing `c`s.
pub open spec fn trim_end_char(s: Seq<char>, c: char) -> Seq<char>
    decreases s.len(),
{
    if s.len() > 0 && s.last() == c {
        trim_end_char(s.drop_last(), c)
    } else {
        s
    }
}

/// What an autolink shows and where it points, or `None` where it stays
/// text: angle forms always link (an e-mail address through `mailto:`);
/// bare URLs and `www.` runs only under GFM autolinks, `www.` through
/// `http://`.
pub open spec fn autolink_target(kind: AutolinkKind, raw: Seq<char>, gfm: bool) -> Option<(Seq<char>, Seq<char>)> {
    let inner = trim_end_char(trim_start_char(raw, '<'), '>');
    match kind {
        AutolinkKind::AngleUrl => Some((inner, inner)),
        AutolinkKind::AngleEmail => Some((inner, "mailto:"@ + inner)),
        AutolinkKind::BareUrl => if gfm {
            Some((raw, raw))
        } else {
            None
        },
        AutolinkKind::BareWww => if gfm {
            Some((raw, "http://"@ + raw))
        } else {
            None
        },
    }
}

fn trim_angles(v: &Vec<char>) -> (r: Vec<char>)
    ensures
        r@ == trim_end_char(trim_start_char(v@, '<'), '>'),
{
    let mut lo: usize = 0;
    assert(v@.skip(0) =~= v@);
    while lo < v.len() && v[lo] == '<'
        invariant
            lo <= v.len(),
            trim_start_char(v@, '<') == trim_start_char(v@.skip(lo as int), '<'),
        decreases v.len() - lo,
    {
        assert(v@.skip(lo as int).drop_first() =~= v@.skip(lo + 1));
        lo += 1;
    }
    proof {
        if lo < v.len() {
            assert(v@.skip(lo as int)[0] == v@[lo as int]);
        }
    }
    let t = slice_chars(v, lo, v.len());
    assert(t@ =~= v@.skip(lo as int));
    let mut hi: usize = t.len();
    assert(t@.take(hi as int) =~= t@);
    while hi > 0 && t[hi - 1] == '>'
        invariant
            hi <= t.len(),
            trim_end_char(t@, '>') == trim_end_char(t@.take(hi as int), '>'),
        decreases hi,
    {
        assert(t@.take(hi as int).drop_last() =~= t@.take(hi - 1));
        assert(t@.take(hi as int).last() == t@[hi - 1]);
        hi -= 1;
    }
    proof {
        if hi > 0 {
            assert(t@.take(hi as int).last() == t@[hi - 1]);
        }
    }
    slice_chars(&t, 0, hi)
}

fn prefixed(prefix: &str, v: &Vec<char>) -> (r: String)
    ensures
        r@ == prefix@ + v@,
{
    let mut out = chars_of(prefix);
    push_all(&mut out, v);
    string_of(&out)
}

/// Whether the first character of `s` exists and has property `f`.
pub open spec fn first_is(s: Seq<char>, f: spec_fn(char) -> bool) -> bool {
    s.len() > 0 && f(s[0])
}

/// The flanking of the delimiter run at `p` (CommonMark 6.4): whether it
/// can open and whether it can close emphasis. What precedes is the last
/// character of the previous token (none at the start); what follows is
/// the next token, a break or the end counting as whitespace. An `_` run
/// cannot open right after an alphanumeric, nor close right before one.
pub open spec fn delim_flags(ts: Seq<Token>, p: int, c: EmphasisChar) -> (bool, bool) {
    let next = kind_in(ts, p + 1);
    let nraw = if p + 1 < ts.len() { ts[p + 1].raw@ } else { Seq::<char>::empty() };
    let next_ws = match next {
        None => true,
        Some(k) => match k {
            TokenKind::SoftBreak | TokenKind::HardBreak | TokenKind::BlankLine | TokenKind::Eof
            | TokenKind::Whitespace(_) => true,
            _ => first_is(nraw, |ch: char| is_white_space(ch)),
        },
    };
    let next_punct = next is Some && first_is(nraw, |ch: char| unicode_punct(ch));
    let next_alnum = next is Some && first_is(nraw, |ch: char| unicode_alphanumeric(ch));
    let has_prev = p >= 1 && p - 1 < ts.len() && ts[p - 1].raw@.len() > 0;
    let prev = if has_prev { ts[p - 1].raw@.last() } else { ' ' };
    let prev_ws = !has_prev || is_white_space(prev);
    let prev_punct = has_prev && unicode_punct(prev);
    let prev_alnum = has_prev && unicode_alphanumeric(prev);
    let left = !next_ws && (!next_punct || prev_ws || prev_punct);
    let right = !prev_ws && (!prev_punct || next_ws || next_punct);
    if c == EmphasisChar::Underscore {
        if prev_alnum && next_alnum {
            (false, false)
        } else if prev_alnum {
            (false, right)
        } else if next_alnum {
            (left, false)
        } else {
            (left, right)
        }
    } else {
        (left, right)
    }
}

impl Parser {
    /// An inline code span, the cursor on its opening run: the text up to
    /// the closing run of the same length, or to `Eof` where none comes.
    pub fn parse_code_span(&mut self) -> (n: Node)
        requires
            kind_in(old(self).tokens@, old(self).pos as int) matches Some(TokenKind::CodeInlineOpen(_)),
        ensures
            ({
                let p = old(self).pos as int;
                let len = match old(self).tokens@[p].kind {
                    TokenKind::CodeInlineOpen(m) => m,
                    _ => 0usize,
                };
                let r = code_span_body(old(self).tokens@, p + 1, len);
                &&& nv(n) == NodeV::InlineCode(code_span_text(r.0), old(self).tokens@[p].span)
                &&& final(self).pos == r.1
            }),
            final(self).pos > old(self).pos,
            final(self).tokens == old(self).tokens,
            final(self).refs == old(self).refs,
            final(self).options == old(self).options,
            final(self).diagnostics == old(self).diagnostics,
            final(self).source == old(self).source,
            final(self).link_label_depth == old(self).link_label_depth,
            final(self).jsx_open_stack == old(self).jsx_open_stack,
    {
        let ghost ts = self.tokens@;
        let span = self.current_span();
        let open_n: usize = match self.tokens[self.pos].kind {
            TokenKind::CodeInlineOpen(m) => m,
            _ => 0,
        };
        self.advance();
        let ghost q1 = self.pos as int;
        let mut value: Vec<char> = Vec::new();
        loop
            invariant_except_break
                value@ + code_span_body(ts, self.pos as int, open_n).0 == code_span_body(ts, q1, open_n).0,
                code_span_body(ts, self.pos as int, open_n).1 == code_span_body(ts, q1, open_n).1,
            invariant
                q1 <= self.pos <= self.tokens.len(),
                self.tokens@ == ts,
                self.tokens == old(self).tokens,
                self.refs == old(self).refs,
                self.options == old(self).options,
                self.diagnostics == old(self).diagnostics,
                self.source == old(self).source,
                self.link_label_depth == old(self).link_label_depth,
                self.jsx_open_stack == old(self).jsx_open_stack,
            ensures
                value@ == code_span_body(ts, q1, open_n).0,
                self.pos == code_span_body(ts, q1, open_n).1,
                q1 <= self.pos,
                self.tokens == old(self).tokens,
                self.refs == old(self).refs,
                self.options == old(self).options,
                self.diagnostics == old(self).diagnostics,
                self.source == old(self).source,
                self.link_label_depth == old(self).link_label_depth,
                self.jsx_open_stack == old(self).jsx_open_stack,
            decreases self.tokens.len() - self.pos,
        {
            if self.pos >= self.tokens.len() {
                assert(value@ =~= value@ + Seq::<char>::empty());
                break;
            }
            let kind = self.tokens[self.pos].kind;
            if kind == TokenKind::CodeInlineClose(open_n) {
                self.advance();
                assert(value@ =~= value@ + Seq::<char>::empty());
                break;
            }
            if kind == TokenKind::Eof {
                assert(value@ =~= value@ + Seq::<char>::empty());
                break;
            }
            let ghost before = value@;
            let ghost i = self.pos as int;
            let t = chars_of(self.tokens[self.pos].raw.as_str());
            push_all(&mut value, &t);
            self.advance();
            assert(before + code_span_body(ts, i, open_n).0 =~= value@ + code_span_body(ts, i + 1, open_n).0);
        }
        let v = code_span_value(&value);
        Node::InlineCode(InlineCode { value: string_of(&v), span })
    }

    /// An autolink token: a link whose one child is the shown text, or,
    /// where it stays text, its raw text.
    pub fn autolink_node(&mut self) -> (n: Node)
        requires
            kind_in(old(self).tokens@, old(self).pos as int) matches Some(TokenKind::Autolink(_)),
        ensures
            ({
                let p = old(self).pos as int;
                let t = old(self).tokens@[p];
                let kind = match t.kind {
                    TokenKind::Autolink(k) => k,
                    _ => AutolinkKind::AngleUrl,
                };
                nv(n) == match autolink_target(kind, t.raw@, old(self).options.gfm_autolinks) {
                    Some((display, href)) => NodeV::Link(href, None, seq![NodeV::Text(display, t.span)], t.span),
                    None => NodeV::Text(t.raw@, t.span),
                }
            }),
            final(self).pos == old(self).pos + 1,
            final(self).tokens == old(self).tokens,
            final(self).refs == old(self).refs,
            final(self).options == old(self).options,
            final(self).diagnostics == old(self).diagnostics,
            final(self).source == old(self).source,
            final(self).link_label_depth == old(self).link_label_depth,
            final(self).jsx_open_stack == old(self).jsx_open_stack,
    {
        let span = self.current_span();
        let kind = match self.tokens[self.pos].kind {
            TokenKind::Autolink(k) => k,
            _ => AutolinkKind::AngleUrl,
        };
        let raw = chars_of(self.tokens[self.pos].raw.as_str());
        self.advance();
        let gfm = self.options.gfm_autolinks;
        let ghost target = autolink_target(kind, raw@, gfm);
        let link: Option<(Vec<char>, String)> = match kind {
            AutolinkKind::AngleUrl => {
                let inner = trim_angles(&raw);
                let href = string_of(&inner);
                Some((inner, href))
            },
            AutolinkKind::AngleEmail => {
                let inner = trim_angles(&raw);
                let href = prefixed("mailto:", &inner);
                Some((inner, href))
            },
            AutolinkKind::BareUrl => if gfm {
                Some((slice_chars(&raw, 0, raw.len()), string_of(&raw)))
            } else {
                None
            },
            AutolinkKind::BareWww => if gfm {
                Some((slice_chars(&raw, 0, raw.len()), prefixed("http://", &raw)))
            } else {
                None
            },
        };
        match link {
            Some((display, href)) => {
                assert(target == Some((display@, href@)));
                let child = Node::Text(Text { value: string_of(&display), span: crate::ast::clone_span(&span) });
                let mut children: Vec<Node> = Vec::new();
                children.push(child);
                proof {
                    crate::ast::lemma_nvs(children@);
                    assert(crate::ast::nvs(children@) =~= seq![nv(child)]);
                }
                Node::Link(Link { href, title: None, children, span })
            },
            None => Node::Text(Text { value: string_of(&raw), span }),
        }
    }

    /// Whether the delimiter run under the cursor can open and can close
    /// emphasis. The cursor stays.
    pub fn delim_flanking(&self, c: EmphasisChar) -> (r: (bool, bool))
        requires
            self.pos < self.tokens.len(),
        ensures
            r == delim_flags(self.tokens@, self.pos as int, c),
    {
        let p = self.pos;
        let (next_ws, next_punct, next_alnum) = if self.tokens.len() - p < 2 {
            (true, false, false)
        } else {
            let t = &self.tokens[p + 1];
            let nraw = chars_of(t.raw.as_str());
            let first = if nraw.len() > 0 {
                Some(nraw[0])
            } else {
                None
            };
            let ws = match t.kind {
                TokenKind::SoftBreak | TokenKind::HardBreak | TokenKind::BlankLine | TokenKind::Eof
                | TokenKind::Whitespace(_) => true,
                _ => match first {
                    Some(ch) => is_whitespace(ch),
                    None => false,
                },
            };
            let punct = match first {
                Some(ch) => is_unicode_punct(ch),
                None => false,
            };
            let alnum = match first {
                Some(ch) => is_alphanumeric(ch),
                None => false,
            };
            (ws, punct, alnum)
        };
        let prev: Option<char> = if p >= 1 {
            let v = chars_of(self.tokens[p - 1].raw.as_str());
            if v.len() > 0 {
                Some(v[v.len() - 1])
            } else {
                None
            }
        } else {
            None
        };
        let (prev_ws, prev_punct, prev_alnum) = match prev {
            Some(ch) => (is_whitespace(ch), is_unicode_punct(ch), is_alphanumeric(ch)),
            None => (true, false, false),
        };
        let left = !next_ws && (!next_punct || prev_ws || prev_punct);
        let right = !prev_ws && (!prev_punct || next_ws || next_punct);
        if c == EmphasisChar::Underscore {
            if prev_alnum && next_alnum {
                (false, false)
            } else if prev_alnum {
                (false, right)
            } else if next_alnum {
                (left, false)
            } else {
                (left, right)
            }
        } else {
            (left, right)
        }
    }
}

/// Tokens that end inline collection at any nesting depth.
pub open spec fn top_level_break(k: TokenKind) -> bool {
    match k {
        TokenKind::BlankLine | TokenKind::SoftBreak | TokenKind::Eof | TokenKind::Heading(_)
        | TokenKind::FrontmatterStart | TokenKind::Import | TokenKind::Export | TokenKind::JsxCloseTagStart => true,
        _ => false,
    }
}

/// Whether `k` ends inline collection at any nesting depth.
pub fn is_top_level_break(k: TokenKind) -> (r: bool)
    ensures
        r == top_level_break(k),
{
    match k {
        TokenKind::BlankLine | TokenKind::SoftBreak | TokenKind::Eof | TokenKind::Heading(_)
        | TokenKind::FrontmatterStart | TokenKind::Import | TokenKind::Export | TokenKind::JsxCloseTagStart => true,
        _ => false,
    }
}

/// From `i` on, a `~~` comes before any token that ends inline collection.
pub open spec fn strike_closer_from(ts: Seq<Token>, i: int) -> bool
    decreases ts.len() - i,
{
    if i < 0 || i >= ts.len() {
        false
    } else if ts[i].kind == TokenKind::Strikethrough {
        true
    } else if top_level_break(ts[i].kind) {
        false
    } else {
        strike_closer_from(ts, i + 1)
    }
}

/// The value of a run of ASCII digits.
pub open spec fn digits_value(s: Seq<char>) -> nat
    decreases s.len(),
{
    if s.len() == 0 {
        0
    } else {
        digits_value(s.drop_last()) * 10 + ((s.last() as u32) - ('0' as u32)) as nat
    }
}

/// The start number of an ordered list whose marker reads `raw`: the value
/// of its leading digits, where there are some and it fits in a `u32`.
pub open spec fn list_start_of(raw: Seq<char>) -> Option<u32> {
    let d = raw.take(crate::block::digits_end(raw, 0));
    if d.len() == 0 || digits_value(d) > u32::MAX {
        None
    } else {
        Some(digits_value(d) as u32)
    }
}

proof fn lemma_digits_grow(s: Seq<char>, k: int, j: int)
    requires
        0 <= k <= j <= s.len(),
        forall|i: int| 0 <= i < s.len() ==> '0' <= #[trigger] s[i] <= '9',
    ensures
        digits_value(s.take(k)) <= digits_value(s.take(j)),
    decreases j - k,
{
    if k < j {
        lemma_digits_grow(s, k, j - 1);
        assert(s.take(j).drop_last() =~= s.take(j - 1));
        assert(s.take(j).last() == s[j - 1]);
    }
}

proof fn lemma_digits_end(s: Seq<char>, k: int)
    requires
        0 <= k <= s.len(),
    ensures
        k <= crate::block::digits_end(s, k) <= s.len(),
        forall|i: int| k <= i < crate::block::digits_end(s, k) ==> '0' <= #[trigger] s[i] <= '9',
    decreases s.len() - k,
{
    if k < s.len() && '0' <= s[k] <= '9' {
        lemma_digits_end(s, k + 1);
    }
}

/// The start number of an ordered list from its marker's text.
pub fn list_start(raw: &str) -> (r: Option<u32>)
    ensures
        r == list_start_of(raw@),
{
    let v = chars_of(raw);
    let ghost s = v@;
    let mut k: usize = 0;
    while k < v.len() && '0' <= v[k] && v[k] <= '9'
        invariant
            k <= v.len(),
            s == v@,
            crate::block::digits_end(s, 0) == crate::block::digits_end(s, k as int),
        decreases v.len() - k,
    {
        k += 1;
    }
    proof {
        lemma_digits_end(s, 0);
        assert(crate::block::digits_end(s, k as int) == k);
    }
    let ghost d = s.take(k as int);
    assert forall|i: int| 0 <= i < d.len() implies '0' <= #[trigger] d[i] <= '9' by {
        assert(d[i] == s[i]);
    }
    if k == 0 {
        return None;
    }
    let mut acc: u64 = 0;
    let mut j: usize = 0;
    assert(d.take(0) =~= Seq::<char>::empty());
    while j < k
        invariant
            j <= k <= v.len(),
            s == v@,
            d == s.take(k as int),
            s == raw@,
            crate::block::digits_end(s, 0) == k,
            forall|i: int| 0 <= i < d.len() ==> '0' <= #[trigger] d[i] <= '9',
            acc as nat == digits_value(d.take(j as int)),
            acc <= u32::MAX,
        decreases k - j,
    {
        assert(v@[j as int] == d[j as int]);
        assert('0' <= d[j as int] <= '9');
        let digit = (v[j] as u32 - '0' as u32) as u64;
        assert(d.take(j + 1).drop_last() =~= d.take(j as int));
        assert(d.take(j + 1).last() == v@[j as int]);
        let next = acc * 10 + digit;
        j += 1;
        assert(next as nat == digits_value(d.take(j as int)));
        if next > 4294967295u64 {
            proof {
                lemma_digits_grow(d, j as int, d.len() as int);
                assert(d.take(d.len() as int) =~= d);
                assert(digits_value(d) > u32::MAX);
            }
            return None;
        }
        acc = next;
    }
    assert(d.take(k as int) =~= d);
    Some(acc as u32)
}

impl Parser {
    /// Whether a `~~` closes the one under the cursor before the inline
    /// run ends. The cursor stays.
    pub fn strike_has_closer(&self) -> (r: bool)
        ensures
            r == strike_closer_from(self.tokens@, self.pos + 1),
    {
        if self.pos >= self.tokens.len() {
            return false;
        }
        let mut i: usize = self.pos + 1;
        while i < self.tokens.len()
            invariant
                self.pos + 1 <= i,
                strike_closer_from(self.tokens@, self.pos + 1) == strike_closer_from(self.tokens@, i as int),
            decreases self.tokens.len() - i,
        {
            let k = self.tokens[i].kind;
            if k == TokenKind::Strikethrough {
                return true;
            }
            if is_top_level_break(k) {
                return false;
            }
            i += 1;
        }
        false
    }
}

/// Some node of `c` is a link, directly or inside emphasis or
/// strikethrough.
pub open spec fn has_link(c: Seq<NodeV>) -> bool
    decreases c, 1nat,
{
    if c.len() == 0 {
        false
    } else {
        has_link(c.drop_last()) || node_has_link(c.last())
    }
}

/// `n` is a link, or emphasis or strikethrough that holds one.
pub open spec fn node_has_link(n: NodeV) -> bool
    decreases n, 0nat,
{
    match n {
        NodeV::Link(_, _, _, _) => true,
        NodeV::Bold(k, _) => has_link(k),
        NodeV::Italic(k, _) => has_link(k),
        NodeV::Strikethrough(k, _) => has_link(k),
        _ => false,
    }
}

fn node_contains_link(n: &Node) -> (r: bool)
    ensures
        r == node_has_link(nv(*n)),
    decreases *n, 0nat,
{
    match n {
        Node::Link(_) => true,
        Node::Bold(i) => contains_link(&i.children),
        Node::Italic(i) => contains_link(&i.children),
        Node::Strikethrough(i) => contains_link(&i.children),
        _ => false,
    }
}

/// Whether `nodes` hold a link (CommonMark 6.3: a link cannot contain
/// another link), directly or inside emphasis or strikethrough.
pub fn contains_link(nodes: &Vec<Node>) -> (r: bool)
    ensures
        r == has_link(nvs(nodes@)),
    decreases *nodes, 1nat,
{
    let mut i: usize = 0;
    while i < nodes.len()
        invariant
            i <= nodes.len(),
            !has_link(nvs(nodes@.take(i as int))),
        decreases nodes.len() - i,
    {
        proof {
            assert(nodes@.take(i + 1).drop_last() =~= nodes@.take(i as int));
            assert(nodes@.take(i + 1).last() == nodes@[i as int]);
            crate::ast::lemma_nvs(nodes@.take(i + 1));
            crate::ast::lemma_nvs(nodes@.take(i as int));
            assert(nvs(nodes@.take(i + 1)).drop_last() =~= nvs(nodes@.take(i as int)));
        }
        if node_contains_link(&nodes[i]) {
            proof {
                lemma_has_link_prefix(nodes@, i as int + 1);
            }
            return true;
        }
        i += 1;
    }
    assert(nodes@.take(nodes.len() as int) =~= nodes@);
    false
}

proof fn lemma_has_link_prefix(s: Seq<Node>, k: int)
    requires
        0 <= k <= s.len(),
        has_link(nvs(s.take(k))),
    ensures
        has_link(nvs(s)),
    decreases s.len() - k,
{
    if k < s.len() {
        assert(s.take(k + 1).drop_last() =~= s.take(k));
        crate::ast::lemma_nvs(s.take(k + 1));
        crate::ast::lemma_nvs(s.take(k));
        assert(nvs(s.take(k + 1)).drop_last() =~= nvs(s.take(k)));
        lemma_has_link_prefix(s, k + 1);
    } else {
        assert(s.take(k) =~= s);
    }
}

impl Parser {
    /// The end tag under the cursor closes a JSX element that is open, so
    /// it belongs to that element and ends inline collection. The cursor
    /// stays.
    pub fn jsx_close_tag_closes_enclosing(&self) -> (r: bool)
        ensures
            r == (kind_in(self.tokens@, self.pos as int) == Some(TokenKind::JsxCloseTagStart) && kind_in(
                self.tokens@,
                self.pos + 1,
            ) == Some(TokenKind::JsxTagName) && exists|j: int|
                0 <= j < self.jsx_open_stack@.len() && (#[trigger] self.jsx_open_stack@[j])@
                    == self.tokens@[self.pos + 1].raw@),
    {
        if self.jsx_open_stack.len() == 0 {
            return false;
        }
        if self.peek_kind() != Some(TokenKind::JsxCloseTagStart) || self.kind_after(1) != Some(
            TokenKind::JsxTagName,
        ) {
            return false;
        }
        let name = chars_of(self.tokens[self.pos + 1].raw.as_str());
        let mut j: usize = 0;
        while j < self.jsx_open_stack.len()
            invariant
                j <= self.jsx_open_stack.len(),
                name@ == self.tokens@[self.pos + 1].raw@,
                kind_in(self.tokens@, self.pos as int) == Some(TokenKind::JsxCloseTagStart),
                kind_in(self.tokens@, self.pos + 1) == Some(TokenKind::JsxTagName),
                forall|k: int| 0 <= k < j ==> (#[trigger] self.jsx_open_stack@[k])@ != name@,
            decreases self.jsx_open_stack.len() - j,
        {
            if chars_eq(&chars_of(self.jsx_open_stack[j].as_str()), &name) {
                assert(self.jsx_open_stack@[j as int]@ == self.tokens@[self.pos + 1].raw@);
                return true;
            }
            j += 1;
        }
        false
    }
}

/// Inline raw HTML opened at `q - 1` by a comment or HTML-block token: the
/// tokens from `q` on up to and with the matching closer, or up to `Eof`.
pub open spec fn inline_html_rest(ts: Seq<Token>, q: int, close: TokenKind) -> (Seq<char>, int)
    decreases ts.len() - q,
{
    if q < 0 || q >= ts.len() {
        (Seq::empty(), q)
    } else if ts[q].kind == close {
        (ts[q].raw@, q + 1)
    } else if ts[q].kind == TokenKind::Eof {
        (Seq::empty(), q)
    } else {
        let r = inline_html_rest(ts, q + 1, close);
        (ts[q].raw@ + r.0, r.1)
    }
}

/// The closer that matches an inline HTML opener.
pub open spec fn html_closer(k: TokenKind) -> TokenKind {
    if k == TokenKind::HtmlCommentOpen {
        TokenKind::HtmlCommentClose
    } else {
        TokenKind::HtmlBlockClose
    }
}

/// The id of a footnote reference `[^id]`.
pub open spec fn footnote_id(raw: Seq<char>) -> Seq<char> {
    trim_end_char(trim_start_char(trim_start_char(raw, '['), '^'), ']')
}

fn trim_start_of(v: &Vec<char>, c: char) -> (r: Vec<char>)
    ensures
        r@ == trim_start_char(v@, c),
{
    let mut lo: usize = 0;
    assert(v@.skip(0) =~= v@);
    while lo < v.len() && v[lo] == c
        invariant
            lo <= v.len(),
            trim_start_char(v@, c) == trim_start_char(v@.skip(lo as int), c),
        decreases v.len() - lo,
    {
        assert(v@.skip(lo as int).drop_first() =~= v@.skip(lo + 1));
        lo += 1;
    }
    proof {
        if lo < v.len() {
            assert(v@.skip(lo as int)[0] == v@[lo as int]);
        }
    }
    let r = slice_chars(v, lo, v.len());
    assert(r@ =~= v@.skip(lo as int));
    r
}

fn trim_end_of(t: &Vec<char>, c: char) -> (r: Vec<char>)
    ensures
        r@ == trim_end_char(t@, c),
{
    let mut hi: usize = t.len();
    assert(t@.take(hi as int) =~= t@);
    while hi > 0 && t[hi - 1] == c
        invariant
            hi <= t.len(),
            trim_end_char(t@, c) == trim_end_char(t@.take(hi as int), c),
        decreases hi,
    {
        assert(t@.take(hi as int).drop_last() =~= t@.take(hi - 1));
        assert(t@.take(hi as int).last() == t@[hi - 1]);
        hi -= 1;
    }
    proof {
        if hi > 0 {
            assert(t@.take(hi as int).last() == t@[hi - 1]);
        }
    }
    slice_chars(t, 0, hi)
}

impl Parser {
    /// Inline raw HTML: a comment or HTML-block opener inside a run, kept
    /// verbatim up to and with its closer, or up to `Eof`.
    pub fn inline_html(&mut self) -> (n: Node)
        requires
            kind_in(old(self).tokens@, old(self).pos as int) == Some(TokenKind::HtmlCommentOpen) || kind_in(
                old(self).tokens@,
                old(self).pos as int,
            ) == Some(TokenKind::HtmlBlockOpen),
        ensures
            ({
                let p = old(self).pos as int;
                let ts = old(self).tokens@;
                let r = inline_html_rest(ts, p + 1, html_closer(ts[p].kind));
                &&& nv(n) == NodeV::Html(ts[p].raw@ + r.0, ts[p].span)
                &&& final(self).pos == r.1
            }),
            final(self).pos > old(self).pos,
            final(self).tokens == old(self).tokens,
            final(self).refs == old(self).refs,
            final(self).options == old(self).options,
            final(self).diagnostics == old(self).diagnostics,
            final(self).source == old(self).source,
            final(self).link_label_depth == old(self).link_label_depth,
            final(self).jsx_open_stack == old(self).jsx_open_stack,
    {
        let ghost ts = self.tokens@;
        let close = if self.tokens[self.pos].kind == TokenKind::HtmlCommentOpen {
            TokenKind::HtmlCommentClose
        } else {
            TokenKind::HtmlBlockClose
        };
        let span = self.current_span();
        let mut value = chars_of(self.tokens[self.pos].raw.as_str());
        self.advance();
        let ghost q1 = self.pos as int;
        let ghost head = value@;
        loop
            invariant_except_break
                value@ + inline_html_rest(ts, self.pos as int, close).0 == head + inline_html_rest(ts, q1, close).0,
                inline_html_rest(ts, self.pos as int, close).1 == inline_html_rest(ts, q1, close).1,
            invariant
                q1 <= self.pos <= self.tokens.len(),
                close == TokenKind::HtmlCommentClose || close == TokenKind::HtmlBlockClose,
                self.tokens@ == ts,
                self.tokens == old(self).tokens,
                self.refs == old(self).refs,
                self.options == old(self).options,
                self.diagnostics == old(self).diagnostics,
                self.source == old(self).source,
                self.link_label_depth == old(self).link_label_depth,
                self.jsx_open_stack == old(self).jsx_open_stack,
            ensures
                value@ == head + inline_html_rest(ts, q1, close).0,
                self.pos == inline_html_rest(ts, q1, close).1,
                q1 <= self.pos,
                self.tokens == old(self).tokens,
                self.refs == old(self).refs,
                self.options == old(self).options,
                self.diagnostics == old(self).diagnostics,
                self.source == old(self).source,
                self.link_label_depth == old(self).link_label_depth,
                self.jsx_open_stack == old(self).jsx_open_stack,
            decreases self.tokens.len() - self.pos,
        {
            if self.pos >= self.tokens.len() || self.tokens[self.pos].kind == TokenKind::Eof {
                assert(value@ =~= value@ + Seq::<char>::empty());
                break;
            }
            let ghost before = value@;
            let ghost i = self.pos as int;
            let closing = self.tokens[self.pos].kind == close;
            let t = chars_of(self.tokens[self.pos].raw.as_str());
            push_all(&mut value, &t);
            self.advance();
            if closing {
                assert(value@ =~= before + inline_html_rest(ts, i, close).0);
                break;
            }
            assert(before + inline_html_rest(ts, i, close).0 =~= value@ + inline_html_rest(ts, i + 1, close).0);
        }
        Node::Html(crate::ast::Html { value: string_of(&value), span })
    }

    /// A footnote reference token `[^id]`.
    pub fn footnote_ref_node(&mut self) -> (n: Node)
        requires
            old(self).pos < old(self).tokens.len(),
        ensures
            nv(n) == NodeV::FootnoteRef(
                footnote_id(old(self).tokens@[old(self).pos as int].raw@),
                old(self).tokens@[old(self).pos as int].span,
            ),
            final(self).pos == old(self).pos + 1,
            final(self).tokens == old(self).tokens,
            final(self).refs == old(self).refs,
            final(self).options == old(self).options,
            final(self).diagnostics == old(self).diagnostics,
            final(self).source == old(self).source,
            final(self).link_label_depth == old(self).link_label_depth,
            final(self).jsx_open_stack == old(self).jsx_open_stack,
    {
        let span = self.current_span();
        let raw = chars_of(self.tokens[self.pos].raw.as_str());
        self.advance();
        let id = trim_end_of(&trim_start_of(&trim_start_of(&raw, '['), '^'), ']');
        Node::FootnoteRef(crate::ast::FootnoteRef { id: string_of(&id), span })
    }

    /// A character reference token: its decoded text, or its raw text
    /// where it does not decode.
    pub fn entity_ref_node(&mut self) -> (n: Node)
        requires
            old(self).pos < old(self).tokens.len(),
        ensures
            ({
                let t = old(self).tokens@[old(self).pos as int];
                nv(n) == NodeV::Text(
                    match crate::entity::entity_decode(t.raw@) {
                        Some(s) => s,
                        None => t.raw@,
                    },
                    t.span,
                )
            }),
            final(self).pos == old(self).pos + 1,
            final(self).tokens == old(self).tokens,
            final(self).refs == old(self).refs,
            final(self).options == old(self).options,
            final(self).diagnostics == old(self).diagnostics,
            final(self).source == old(self).source,
            final(self).link_label_depth == old(self).link_label_depth,
            final(self).jsx_open_stack == old(self).jsx_open_stack,
    {
        let span = self.current_span();
        let raw = self.tokens[self.pos].raw.clone();
        self.advance();
        let value = match crate::entity::decode_entity(raw.as_str()) {
            Some(v) => v,
            None => raw,
        };
        Node::Text(Text { value, span })
    }
}

/// A text node of only spaces and tabs (or none at all).
pub open spec fn blank_text(n: NodeV) -> bool {
    n is Text && forall|i: int| 0 <= i < n->Text_0.len() ==> (#[trigger] n->Text_0[i] == ' ' || n->Text_0[i] == '\t')
}

/// `s` without its trailing blank text nodes.
pub open spec fn drop_blank_texts(s: Seq<NodeV>) -> Seq<NodeV>
    decreases s.len(),
{
    if s.len() > 0 && blank_text(s.last()) {
        drop_blank_texts(s.drop_last())
    } else {
        s
    }
}

/// Where inline content follows (`follow`) and the last node is text
/// ending in `\`, that backslash made the break: it goes, and the node too
/// when nothing is left of it.
pub open spec fn strip_break_backslash(s: Seq<NodeV>, follow: bool) -> Seq<NodeV> {
    if follow && s.len() > 0 && s.last() is Text && s.last()->Text_0.len() > 0 && s.last()->Text_0.last() == '\\' {
        let v = s.last()->Text_0.drop_last();
        if v.len() == 0 {
            s.drop_last()
        } else {
            s.update(s.len() - 1, NodeV::Text(v, s.last()->Text_1))
        }
    } else {
        s
    }
}

/// Tokens after a hard break that mean no inline content follows it.
pub open spec fn ends_inline(k: Option<TokenKind>) -> bool {
    match k {
        None => true,
        Some(k) => match k {
            TokenKind::BlankLine | TokenKind::Eof | TokenKind::SoftBreak | TokenKind::HardBreak
            | TokenKind::ThematicBreak | TokenKind::SetextUnderline => true,
            _ => false,
        },
    }
}

/// The run after a hard break (CommonMark 6.7): the blank text that made
/// it goes, a `\` that made it goes where inline content follows, and the
/// break is appended.
pub open spec fn with_hard_break(s: Seq<NodeV>, follow: bool, span: Span) -> Seq<NodeV> {
    strip_break_backslash(drop_blank_texts(s), follow).push(NodeV::HardBreak(span))
}

fn is_blank_text(n: &Node) -> (r: bool)
    ensures
        r == blank_text(nv(*n)),
{
    match n {
        Node::Text(t) => {
            let v = chars_of(t.value.as_str());
            let mut i: usize = 0;
            while i < v.len()
                invariant
                    i <= v.len(),
                    v@ == t.value@,
                    *n == Node::Text(*t),
                    forall|k: int| 0 <= k < i ==> (#[trigger] v@[k] == ' ' || v@[k] == '\t'),
                decreases v.len() - i,
            {
                if !(v[i] == ' ' || v[i] == '\t') {
                    assert(nv(*n)->Text_0 == v@);
                    assert(!(nv(*n)->Text_0[i as int] == ' ' || nv(*n)->Text_0[i as int] == '\t'));
                    return false;
                }
                i += 1;
            }
            true
        },
        _ => false,
    }
}

impl Parser {
    /// A hard break inside a run, the cursor on it: see `with_hard_break`.
    pub fn push_hard_break(&mut self, out: &mut Vec<Node>)
        requires
            kind_in(old(self).tokens@, old(self).pos as int) == Some(TokenKind::HardBreak),
        ensures
            nvs(final(out)@) == with_hard_break(
                nvs(old(out)@),
                !ends_inline(kind_in(old(self).tokens@, old(self).pos + 1)),
                old(self).tokens@[old(self).pos as int].span,
            ),
            final(self).pos == old(self).pos + 1,
            final(self).tokens == old(self).tokens,
            final(self).refs == old(self).refs,
            final(self).options == old(self).options,
            final(self).diagnostics == old(self).diagnostics,
            final(self).source == old(self).source,
            final(self).link_label_depth == old(self).link_label_depth,
            final(self).jsx_open_stack == old(self).jsx_open_stack,
    {
        let span = self.current_span();
        self.advance();
        let ghost s0 = nvs(out@);
        while out.len() > 0 && is_blank_text(&out[out.len() - 1])
            invariant
                drop_blank_texts(nvs(out@)) == drop_blank_texts(s0),
            decreases out.len(),
        {
            proof {
                crate::heading::lemma_nvs_drop_last(out@);
            }
            out.pop();
        }
        proof {
            if out@.len() > 0 {
                crate::heading::lemma_nvs_drop_last(out@);
            }
        }
        let ghost s1 = nvs(out@);
        assert(s1 == drop_blank_texts(s0));
        let follow = match self.peek_kind() {
            None => false,
            Some(k) => match k {
                TokenKind::BlankLine | TokenKind::Eof | TokenKind::SoftBreak | TokenKind::HardBreak
                | TokenKind::ThematicBreak | TokenKind::SetextUnderline => false,
                _ => true,
            },
        };
        if follow && out.len() > 0 {
            let last = out.len() - 1;
            proof {
                crate::heading::lemma_nvs_drop_last(out@);
            }
            let piece = match &out[last] {
                Node::Text(t) => {
                    let v = chars_of(t.value.as_str());
                    if v.len() > 0 && v[v.len() - 1] == '\\' {
                        Some((slice_chars(&v, 0, v.len() - 1), crate::ast::clone_span(&t.span)))
                    } else {
                        None
                    }
                },
                _ => None,
            };
            if let Some((v, sp)) = piece {
                if v.len() == 0 {
                    out.pop();
                } else {
                    let node = Node::Text(Text { value: string_of(&v), span: sp });
                    proof {
                        crate::heading::lemma_nvs_update(out@, last as int, node);
                    }
                    out.set(last, node);
                }
            }
        }
        let ghost s2 = nvs(out@);
        assert(s2 == strip_break_backslash(s1, follow));
        let br = Node::HardBreak(crate::ast::BreakNode { span });
        proof {
            crate::tree::lemma_nvs_push(out@, br);
        }
        out.push(br);
    }
}

impl Parser {
    /// An emphasis delimiter run, the cursor on it: its text goes out as a
    /// placeholder, and its record, with the flanking of `delim_flags`,
    /// goes on the delimiter stack for resolution later.
    pub fn push_emphasis_delim(&mut self, out: &mut Vec<Node>, delims: &mut Vec<DelimRecord>)
        requires
            kind_in(old(self).tokens@, old(self).pos as int) matches Some(TokenKind::Emphasis(_, _)),
        ensures
            ({
                let p = old(self).pos as int;
                let t = old(self).tokens@[p];
                let (c, n) = match t.kind {
                    TokenKind::Emphasis(c, n) => (c, n),
                    _ => (EmphasisChar::Asterisk, 0u8),
                };
                let flags = delim_flags(old(self).tokens@, p, c);
                &&& nvs(final(out)@) == nvs(old(out)@).push(NodeV::Text(t.raw@, t.span))
                &&& final(delims)@.len() == old(delims)@.len() + 1
                &&& final(delims)@.drop_last() == old(delims)@
                &&& final(delims)@.last().c == c
                &&& final(delims)@.last().run == n
                &&& final(delims)@.last().can_open == flags.0
                &&& final(delims)@.last().can_close == flags.1
                &&& final(delims)@.last().out_idx == old(out)@.len()
                &&& final(delims)@.last().span == t.span
            }),
            final(self).pos == old(self).pos + 1,
            final(self).tokens == old(self).tokens,
            final(self).refs == old(self).refs,
            final(self).options == old(self).options,
            final(self).diagnostics == old(self).diagnostics,
            final(self).source == old(self).source,
            final(self).link_label_depth == old(self).link_label_depth,
            final(self).jsx_open_stack == old(self).jsx_open_stack,
    {
        let (c, n) = match self.tokens[self.pos].kind {
            TokenKind::Emphasis(c, n) => (c, n),
            _ => (EmphasisChar::Asterisk, 0),
        };
        let (can_open, can_close) = self.delim_flanking(c);
        let span = self.current_span();
        let raw = self.tokens[self.pos].raw.clone();
        self.advance();
        let idx = out.len();
        let node = Node::Text(Text { value: raw, span: crate::ast::clone_span(&span) });
        proof {
            crate::tree::lemma_nvs_push(out@, node);
        }
        out.push(node);
        delims.push(DelimRecord { c, run: n, can_open, can_close, out_idx: idx, span });
    }
}

/// A text token that ends in an address's local part right before an `_`
/// run that ends the line: the run belongs to the address, so the text is
/// not split on its own.
pub open spec fn address_before_underscore(ts: Seq<Token>, p: int) -> bool {
    ts[p].raw@.contains('@') && (kind_in(ts, p + 1) matches Some(TokenKind::Emphasis(c, _)) && c
        == EmphasisChar::Underscore) && (kind_in(ts, p + 2) is None || kind_in(ts, p + 2) == Some(
        TokenKind::SoftBreak,
    ) || kind_in(ts, p + 2) == Some(TokenKind::HardBreak) || kind_in(ts, p + 2) == Some(TokenKind::BlankLine)
        || kind_in(ts, p + 2) == Some(TokenKind::Eof))
}

/// The output and delimiter stack after the text token at `p`: under GFM
/// autolinks, a text holding `@` is split into text and `mailto:` links
/// (first as the tail of an address cut by an `_` run, then on its own);
/// otherwise, or where no address is found, it goes out as one text node,
/// its escapes resolved.
pub open spec fn text_run(
    ts: Seq<Token>,
    p: int,
    gfm: bool,
    out: Seq<NodeV>,
    ds: Seq<DelimRecord>,
) -> (Seq<NodeV>, Seq<DelimRecord>) {
    let raw = ts[p].raw@;
    let span = ts[p].span;
    let plain = (out.push(NodeV::Text(unescaped(raw), span)), ds);
    if gfm && raw.contains('@') && !address_before_underscore(ts, p) {
        match tail_underscore_split(raw, span, out, ds) {
            Some((pieces, rest, ds2)) => (rest + pieces, ds2),
            None => {
                let (nodes, found) = email_scan(raw, 0, Seq::empty(), Seq::empty(), false, span);
                if found {
                    (out + nodes, ds)
                } else {
                    plain
                }
            },
        }
    } else {
        plain
    }
}

impl Parser {
    /// A text token inside a run, the cursor on it: see `text_run`.
    pub fn push_text(&mut self, out: &mut Vec<Node>, delims: &mut Vec<DelimRecord>)
        requires
            old(self).pos < old(self).tokens.len(),
        ensures
            (nvs(final(out)@), final(delims)@) == text_run(
                old(self).tokens@,
                old(self).pos as int,
                old(self).options.gfm_autolinks,
                nvs(old(out)@),
                old(delims)@,
            ),
            final(self).pos == old(self).pos + 1,
            final(self).tokens == old(self).tokens,
            final(self).refs == old(self).refs,
            final(self).options == old(self).options,
            final(self).diagnostics == old(self).diagnostics,
            final(self).source == old(self).source,
            final(self).link_label_depth == old(self).link_label_depth,
            final(self).jsx_open_stack == old(self).jsx_open_stack,
    {
        let ghost ts = self.tokens@;
        let ghost p = self.pos as int;
        let raw = self.tokens[self.pos].raw.clone();
        let span = self.current_span();
        let gfm = self.options.gfm_autolinks;
        let has_at = vec_has_char(&chars_of(raw.as_str()), '@');
        let next_under = match self.kind_after(1) {
            Some(TokenKind::Emphasis(c, _)) => c == EmphasisChar::Underscore,
            _ => false,
        };
        let after = self.kind_after(2);
        let line_ends = match after {
            None => true,
            Some(k) => k == TokenKind::SoftBreak || k == TokenKind::HardBreak || k == TokenKind::BlankLine || k
                == TokenKind::Eof,
        };
        let trailing = has_at && next_under && line_ends;
        assert(trailing == address_before_underscore(ts, p));
        self.advance();
        if gfm && has_at && !trailing {
            let ghost out0 = nvs(out@);
            match split_email_autolinks_with_tail_underscore(raw.as_str(), &span, out, delims) {
                Some(pieces) => {
                    let mut pieces = pieces;
                    let ghost before = out@;
                    let ghost pv = pieces@;
                    out.append(&mut pieces);
                    proof {
                        assert(out@ =~= before + pv);
                        crate::ast::lemma_nvs_add(before, pv);
                    }
                    return;
                },
                None => {},
            }
            match split_email_autolinks(raw.as_str(), &span) {
                Some(pieces) => {
                    let mut pieces = pieces;
                    let ghost before = out@;
                    let ghost pv = pieces@;
                    out.append(&mut pieces);
                    proof {
                        assert(out@ =~= before + pv);
                        crate::ast::lemma_nvs_add(before, pv);
                    }
                    return;
                },
                None => {},
            }
        }
        let node = Node::Text(Text { value: unescape_markdown(raw.as_str()), span });
        proof {
            crate::tree::lemma_nvs_push(out@, node);
        }
        out.push(node);
    }
}

impl Parser {
    /// Any other token inside a run, the cursor on it: its text goes out
    /// verbatim, unless it has none.
    pub fn push_literal(&mut self, out: &mut Vec<Node>)
        requires
            old(self).pos < old(self).tokens.len(),
        ensures
            ({
                let t = old(self).tokens@[old(self).pos as int];
                nvs(final(out)@) == if t.raw@.len() > 0 {
                    nvs(old(out)@).push(NodeV::Text(t.raw@, t.span))
                } else {
                    nvs(old(out)@)
                }
            }),
            final(self).pos == old(self).pos + 1,
            final(self).tokens == old(self).tokens,
            final(self).refs == old(self).refs,
            final(self).options == old(self).options,
            final(self).diagnostics == old(self).diagnostics,
            final(self).source == old(self).source,
            final(self).link_label_depth == old(self).link_label_depth,
            final(self).jsx_open_stack == old(self).jsx_open_stack,
    {
        let raw = self.tokens[self.pos].raw.clone();
        let span = self.current_span();
        self.advance();
        if chars_of(raw.as_str()).len() > 0 {
            let node = Node::Text(Text { value: raw, span });
            proof {
                crate::tree::lemma_nvs_push(out@, node);
            }
            out.push(node);
        }
    }
}

} // verus!
