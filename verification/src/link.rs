//! Inline link destinations: the token run between `(` and `)` after a
//! link label, and what its text gives (CommonMark 6.3).

use vstd::prelude::*;
use crate::ast::clone_span;
use crate::block::kind_in;
use crate::diagnostic::{Diagnostic, ParseIssue};
use crate::entity::{decode_entities_in, entities_from};
use crate::inline::{destination_title, plain_list, plain_text, split_destination_title, unescape_markdown, unescaped};
use crate::ast::{nvs, Node, NodeV};
use crate::parser::{ref_text, RefText};
use crate::refs::{lookup, LinkRef};
use crate::parser::Parser;
use crate::text::{chars_of, vec_has_char};
use crate::token::{Token, TokenKind};

verus! {

/// The destination run from `q` on, with `depth` parentheses open and
/// `angle` set inside `<...>`: where it stops (a `)` that closes at depth
/// zero, a blank line, or `Eof`) and the depth there. Inside `<...>`
/// parentheses are literal; a line break leaves the bracketed form.
pub open spec fn dest_scan(ts: Seq<Token>, q: int, depth: int, angle: bool) -> (int, int)
    decreases ts.len() - q,
{
    if q < 0 || q >= ts.len() {
        (q, depth)
    } else {
        let t = ts[q];
        if angle {
            match t.kind {
                TokenKind::Eof | TokenKind::BlankLine => (q, depth),
                TokenKind::SoftBreak | TokenKind::HardBreak => dest_scan(ts, q + 1, depth, false),
                _ => dest_scan(ts, q + 1, depth, !t.raw@.contains('>')),
            }
        } else {
            match t.kind {
                TokenKind::LinkTargetClose => if depth == 0 {
                    (q, depth)
                } else {
                    dest_scan(ts, q + 1, depth - 1, false)
                },
                TokenKind::Eof | TokenKind::BlankLine => (q, depth),
                TokenKind::SoftBreak | TokenKind::HardBreak => dest_scan(ts, q + 1, depth, false),
                TokenKind::LinkTargetOpen => dest_scan(ts, q + 1, depth + 1, false),
                _ => dest_scan(
                    ts,
                    q + 1,
                    depth,
                    t.raw@.len() > 0 && t.raw@[0] == '<' && depth == 0 && !t.raw@.contains('>'),
                ),
            }
        }
    }
}

proof fn lemma_dest_scan(ts: Seq<Token>, q: int, depth: int, angle: bool)
    requires
        0 <= q,
    ensures
        q <= dest_scan(ts, q, depth, angle).0,
        q <= ts.len() ==> dest_scan(ts, q, depth, angle).0 <= ts.len(),
    decreases ts.len() - q,
{
    if q < ts.len() {
        let t = ts[q];
        if angle {
            match t.kind {
                TokenKind::Eof | TokenKind::BlankLine => {},
                TokenKind::SoftBreak | TokenKind::HardBreak => lemma_dest_scan(ts, q + 1, depth, false),
                _ => lemma_dest_scan(ts, q + 1, depth, !t.raw@.contains('>')),
            }
        } else {
            match t.kind {
                TokenKind::LinkTargetClose => if depth != 0 {
                    lemma_dest_scan(ts, q + 1, depth - 1, false)
                },
                TokenKind::Eof | TokenKind::BlankLine => {},
                TokenKind::SoftBreak | TokenKind::HardBreak => lemma_dest_scan(ts, q + 1, depth, false),
                TokenKind::LinkTargetOpen => lemma_dest_scan(ts, q + 1, depth + 1, false),
                _ => lemma_dest_scan(
                    ts,
                    q + 1,
                    depth,
                    t.raw@.len() > 0 && t.raw@[0] == '<' && depth == 0 && !t.raw@.contains('>'),
                ),
            }
        }
    }
}

/// Unescape a link part, then decode its character references.
pub open spec fn link_text(s: Seq<char>) -> Seq<char> {
    entities_from(unescaped(s), 0)
}

/// The `(href, title)` of a well-formed destination body, escapes
/// resolved and references decoded; `None` for a malformed one.
pub open spec fn inline_link_target(body: Seq<char>, well_formed: bool) -> Option<(Seq<char>, Option<Seq<char>>)> {
    if !well_formed {
        None
    } else {
        match destination_title(body) {
            None => None,
            Some((d, t)) => Some((link_text(d), match t {
                Some(x) => Some(link_text(x)),
                None => None,
            })),
        }
    }
}

/// What an inline link points at, from its destination body.
pub fn inline_link_target_of(body: &str, well_formed: bool) -> (r: Option<(String, Option<String>)>)
    ensures
        match inline_link_target(body@, well_formed) {
            None => r is None,
            Some((d, t)) => r matches Some((rd, rt)) && rd@ == d && match t {
                None => rt is None,
                Some(x) => rt matches Some(y) && y@ == x,
            },
        },
{
    if !well_formed {
        return None;
    }
    match split_destination_title(body) {
        None => None,
        Some((href, title)) => {
            let h = decode_entities_in(unescape_markdown(href.as_str()).as_str());
            let t = match title {
                Some(x) => Some(decode_entities_in(unescape_markdown(x.as_str()).as_str())),
                None => None,
            };
            Some((h, t))
        },
    }
}

impl Parser {
    /// The destination run of an inline link, the cursor just after its
    /// `(`; `link_start` is the link's `[`. Gives where the body ends,
    /// whether a `)` closes it and whether it is well formed (closed at
    /// depth zero); steps over the `)`. A destination that is not well
    /// formed is reported at the link's start.
    pub fn scan_link_destination(&mut self, link_start: usize) -> (r: (usize, bool, bool))
        requires
            link_start < old(self).tokens.len(),
            old(self).pos <= old(self).tokens.len(),
        ensures
            ({
                let ts = old(self).tokens@;
                let (stop, depth) = dest_scan(ts, old(self).pos as int, 0, false);
                &&& r.0 as int == stop
                &&& r.1 == (kind_in(ts, stop) == Some(TokenKind::LinkTargetClose))
                &&& r.2 == (r.1 && depth == 0)
                &&& final(self).pos == if r.1 { stop + 1 } else { stop }
                &&& if r.2 {
                    final(self).diagnostics == old(self).diagnostics
                } else {
                    &&& final(self).diagnostics@.len() == old(self).diagnostics@.len() + 1
                    &&& final(self).diagnostics@.drop_last() == old(self).diagnostics@
                    &&& final(self).diagnostics@.last().issue matches ParseIssue::UnterminatedLink
                    &&& final(self).diagnostics@.last().span == ts[link_start as int].span
                }
            }),
            final(self).tokens == old(self).tokens,
            final(self).refs == old(self).refs,
            final(self).options == old(self).options,
            final(self).source == old(self).source,
            final(self).link_label_depth == old(self).link_label_depth,
            final(self).jsx_open_stack == old(self).jsx_open_stack,
    {
        let ghost ts = self.tokens@;
        let ghost p = self.pos as int;
        let mut opens: usize = 0;
        let mut closes: usize = 0;
        let mut in_angle = false;
        proof {
            lemma_dest_scan(ts, p, 0, false);
        }
        loop
            invariant_except_break
                dest_scan(ts, self.pos as int, opens - closes, in_angle) == dest_scan(ts, p, 0, false),
            invariant
                p <= self.pos <= self.tokens.len(),
                p == old(self).pos,
                opens + closes <= self.pos - p,
                self.tokens@ == ts,
                link_start < self.tokens.len(),
                self.tokens == old(self).tokens,
                self.refs == old(self).refs,
                self.options == old(self).options,
                self.diagnostics == old(self).diagnostics,
                self.source == old(self).source,
                self.link_label_depth == old(self).link_label_depth,
                self.jsx_open_stack == old(self).jsx_open_stack,
            ensures
                dest_scan(ts, p, 0, false) == (self.pos as int, opens - closes),
                self.tokens@ == ts,
                link_start < self.tokens.len(),
                self.tokens == old(self).tokens,
                self.refs == old(self).refs,
                self.options == old(self).options,
                self.diagnostics == old(self).diagnostics,
                self.source == old(self).source,
                self.link_label_depth == old(self).link_label_depth,
                self.jsx_open_stack == old(self).jsx_open_stack,
            decreases self.tokens.len() - self.pos,
        {
            if self.pos >= self.tokens.len() {
                break;
            }
            assert(opens + closes < self.tokens.len());
            let kind = self.tokens[self.pos].kind;
            let raw = chars_of(self.tokens[self.pos].raw.as_str());
            if in_angle {
                let has_gt = vec_has_char(&raw, '>');
                match kind {
                    TokenKind::Eof | TokenKind::BlankLine => {
                        break;
                    },
                    TokenKind::SoftBreak | TokenKind::HardBreak => {
                        in_angle = false;
                        self.advance();
                    },
                    _ => {
                        if has_gt {
                            in_angle = false;
                        }
                        self.advance();
                    },
                }
            } else {
                match kind {
                    TokenKind::LinkTargetClose => {
                        if opens == closes {
                            break;
                        }
                        closes += 1;
                        self.advance();
                    },
                    TokenKind::Eof | TokenKind::BlankLine => {
                        break;
                    },
                    TokenKind::SoftBreak | TokenKind::HardBreak => {
                        self.advance();
                    },
                    TokenKind::LinkTargetOpen => {
                        opens += 1;
                        self.advance();
                    },
                    _ => {
                        if raw.len() > 0 && raw[0] == '<' && opens == closes && !vec_has_char(&raw, '>') {
                            in_angle = true;
                        }
                        self.advance();
                    },
                }
            }
        }
        let stop = self.pos;
        let has_close = self.peek_kind() == Some(TokenKind::LinkTargetClose);
        if has_close {
            self.advance();
        }
        let well_formed = has_close && opens == closes;
        if !well_formed {
            let span = clone_span(&self.tokens[link_start].span);
            self.diagnostics.push(Diagnostic { issue: ParseIssue::UnterminatedLink, span });
        }
        (stop, has_close, well_formed)
    }
}

/// The definition a link label finds: by its raw text first, then by the
/// plain text of its parsed content.
pub open spec fn label_target(
    links: Map<Seq<char>, LinkRef>,
    raw: Seq<char>,
    inner: Seq<NodeV>,
) -> Option<RefText> {
    match lookup(links, raw) {
        Some(d) => Some(ref_text(d)),
        None => match lookup(links, plain_list(inner)) {
            Some(d) => Some(ref_text(d)),
            None => None,
        },
    }
}

fn copy_ref(d: &LinkRef) -> (r: (String, Option<String>))
    ensures
        ref_text(r) == ref_text(*d),
{
    let t = match &d.1 {
        Some(x) => Some(x.clone()),
        None => None,
    };
    (d.0.clone(), t)
}

impl Parser {
    /// The definition a collapsed or malformed link label resolves to: by
    /// the label's raw text, else by the plain text of its content.
    pub fn resolve_label(&self, label_raw: &str, inner: &Vec<Node>) -> (r: Option<(String, Option<String>)>)
        ensures
            match label_target(self.refs.links(), label_raw@, nvs(inner@)) {
                None => r is None,
                Some(t) => r is Some && ref_text(r->0) == t,
            },
    {
        match self.refs.get(label_raw) {
            Some(d) => Some(copy_ref(d)),
            None => {
                let plain = plain_text(inner.as_slice());
                match self.refs.get(plain.as_str()) {
                    Some(d) => Some(copy_ref(d)),
                    None => None,
                }
            },
        }
    }
}

} // verus!
