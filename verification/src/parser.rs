//! The parser's state: options, the token stream and the cursor over it,
//! the link reference table harvested before the main pass, and the
//! block-level productions that work on whole tokens.

use vstd::prelude::*;
use crate::ast::{default_span, Span};
use crate::diagnostic::Diagnostic;
use crate::entity::{decode_entities_in, entities_from};
use crate::inline::{unescape_link_part, unescaped};
use crate::refs::{define_all, link_ref_def, parse_link_ref_def, LinkRef, RefMap};
use crate::token::{Token, TokenKind};

verus! {

/// Dialect knobs. Default is MDX-friendly; spec runners flip these to match
/// strict CommonMark / GFM semantics.
#[derive(Debug, Clone, Copy)]
pub struct ParseOptions {
    /// CommonMark 4.6 strict raw-HTML detection: uppercase JSX
    /// (`<Warning>`) is read as raw HTML instead of a JSX element.
    pub cm_strict_html_blocks: bool,
    /// GFM autolink extension: `http(s)://` and `www.` runs become links
    /// while parsing.
    pub gfm_autolinks: bool,
    /// Legacy GFM 0.29 emphasis: redundant nested `<strong>` is flattened.
    pub legacy_gfm_emphasis: bool,
}

impl Default for ParseOptions {
    /// Every knob off.
    fn default() -> (r: Self)
        ensures
            !r.cm_strict_html_blocks,
            !r.gfm_autolinks,
            !r.legacy_gfm_emphasis,
    {
        ParseOptions { cm_strict_html_blocks: false, gfm_autolinks: false, legacy_gfm_emphasis: false }
    }
}

/// Token-stream cursor with the state the productions share.
pub struct Parser {
    pub tokens: Vec<Token>,
    pub pos: usize,
    pub refs: RefMap,
    pub options: ParseOptions,
    /// The source text the tokens were read from, where the caller attached it.
    pub source: Option<String>,
    /// Current `[...]` link-label nesting depth.
    pub link_label_depth: u16,
    /// Names of the JSX elements being parsed, outermost first.
    pub jsx_open_stack: Vec<String>,
    /// What was reported so far, in order.
    pub diagnostics: Vec<Diagnostic>,
}

/// Whether a paragraph is open, and whether the current line is an ATX
/// heading's, after reading a token of kind `k`.
pub open spec fn line_step(st: (bool, bool), k: TokenKind) -> (bool, bool) {
    match k {
        TokenKind::LinkRefDef | TokenKind::Whitespace(_) | TokenKind::Eof => st,
        TokenKind::BlankLine | TokenKind::CodeFenceOpen(_, _) | TokenKind::CodeFenceClose(_, _)
        | TokenKind::ThematicBreak | TokenKind::FrontmatterEnd | TokenKind::BlockQuoteMarker => (false, false),
        TokenKind::Heading(_) => (false, true),
        TokenKind::SoftBreak | TokenKind::HardBreak => (if st.1 { false } else { st.0 }, false),
        _ => (if !st.1 { true } else { st.0 }, st.1),
    }
}

/// The line state after the tokens `ts`, starting outside any paragraph.
pub open spec fn line_state(ts: Seq<Token>) -> (bool, bool)
    decreases ts.len(),
{
    if ts.len() == 0 {
        (false, false)
    } else {
        line_step(line_state(ts.drop_last()), ts.last().kind)
    }
}

/// A definition as the table holds it: destination and title, by their text.
pub type RefText = (Seq<char>, Option<Seq<char>>);

/// The text of a held definition.
pub open spec fn ref_text(d: LinkRef) -> RefText {
    (d.0@, match d.1 {
        Some(t) => Some(t@),
        None => None,
    })
}

/// Unescape a definition's part, then decode its character references.
pub open spec fn link_part(s: Seq<char>) -> Seq<char> {
    entities_from(unescaped(s), 0)
}

/// The definition that token `t` contributes in line state `st`: a
/// well-formed `LinkRefDef` that does not continue a paragraph.
pub open spec fn definition_of(st: (bool, bool), t: Token) -> Option<(Seq<char>, RefText)> {
    if t.kind == TokenKind::LinkRefDef && !st.0 {
        match link_ref_def(t.raw@) {
            Some((label, url, title)) => Some((label, (link_part(url), match title {
                Some(x) => Some(link_part(x)),
                None => None,
            }))),
            None => None,
        }
    } else {
        None
    }
}

/// The definitions harvested from `ts`, in order.
pub open spec fn harvest(ts: Seq<Token>) -> Seq<(Seq<char>, RefText)>
    decreases ts.len(),
{
    if ts.len() == 0 {
        Seq::empty()
    } else {
        match definition_of(line_state(ts.drop_last()), ts.last()) {
            Some(d) => harvest(ts.drop_last()).push(d),
            None => harvest(ts.drop_last()),
        }
    }
}

/// The table's definitions by their text.
pub open spec fn ref_texts(m: Map<Seq<char>, LinkRef>) -> Map<Seq<char>, RefText> {
    m.map_values(|d: LinkRef| ref_text(d))
}

proof fn lemma_define_text(m: Map<Seq<char>, LinkRef>, label: Seq<char>, d: LinkRef)
    ensures
        ref_texts(crate::refs::define(m, label, d)) == crate::refs::define(ref_texts(m), label, ref_text(d)),
{
    assert(ref_texts(crate::refs::define(m, label, d)) =~= crate::refs::define(ref_texts(m), label, ref_text(d)));
}

impl Parser {
    /// The kind of the token at `i`, if there is one.
    pub open spec fn kind_at(self, i: int) -> Option<TokenKind> {
        if 0 <= i < self.tokens.len() {
            Some(self.tokens@[i].kind)
        } else {
            None
        }
    }

    /// The cursor stands on `Eof` or past the last token.
    pub open spec fn at_end(self) -> bool {
        match self.kind_at(self.pos as int) {
            Some(TokenKind::Eof) | None => true,
            _ => false,
        }
    }

    /// A parser over `tokens` with default options.
    pub fn new(tokens: Vec<Token>) -> (p: Parser)
        ensures
            p.tokens@ == tokens@,
            p.pos == 0,
            p.refs.links() == Map::<Seq<char>, LinkRef>::empty(),
            !p.options.cm_strict_html_blocks && !p.options.gfm_autolinks && !p.options.legacy_gfm_emphasis,
            p.source is None,
            p.link_label_depth == 0,
            p.jsx_open_stack@.len() == 0,
            p.diagnostics@.len() == 0,
    {
        Parser::new_with_options(tokens, ParseOptions::default())
    }

    /// A parser over `tokens` with the given options.
    pub fn new_with_options(tokens: Vec<Token>, options: ParseOptions) -> (p: Parser)
        ensures
            p.tokens@ == tokens@,
            p.pos == 0,
            p.refs.links() == Map::<Seq<char>, LinkRef>::empty(),
            p.options == options,
            p.source is None,
            p.link_label_depth == 0,
            p.jsx_open_stack@.len() == 0,
            p.diagnostics@.len() == 0,
    {
        Parser {
            tokens,
            pos: 0,
            refs: RefMap::new(),
            options,
            source: None,
            link_label_depth: 0,
            jsx_open_stack: Vec::new(),
            diagnostics: Vec::new(),
        }
    }

    /// Attach the source text the tokens were read from.
    pub fn with_source(self, source: String) -> (p: Parser)
        ensures
            p.source == Some(source),
            p.tokens == self.tokens,
            p.pos == self.pos,
            p.refs == self.refs,
            p.options == self.options,
            p.link_label_depth == self.link_label_depth,
            p.jsx_open_stack == self.jsx_open_stack,
            p.diagnostics == self.diagnostics,
    {
        let mut p = self;
        p.source = Some(source);
        p
    }

    /// The kind of the token under the cursor.
    pub fn peek_kind(&self) -> (r: Option<TokenKind>)
        ensures
            r == self.kind_at(self.pos as int),
    {
        self.kind_after(0)
    }

    /// The kind of the token `k` places after the cursor.
    pub fn kind_after(&self, k: usize) -> (r: Option<TokenKind>)
        ensures
            r == self.kind_at(self.pos + k),
    {
        if self.pos < self.tokens.len() && k < self.tokens.len() - self.pos {
            Some(self.tokens[self.pos + k].kind)
        } else {
            None
        }
    }

    /// Step over the token under the cursor, if there is one; says whether
    /// it did.
    pub fn advance(&mut self) -> (stepped: bool)
        ensures
            stepped == (old(self).pos < old(self).tokens.len()),
            final(self).pos == if stepped { old(self).pos + 1 } else { old(self).pos as int },
            final(self).tokens == old(self).tokens,
            final(self).refs == old(self).refs,
            final(self).options == old(self).options,
            final(self).diagnostics == old(self).diagnostics,
            final(self).source == old(self).source,
            final(self).link_label_depth == old(self).link_label_depth,
            final(self).jsx_open_stack == old(self).jsx_open_stack,
    {
        if self.pos < self.tokens.len() {
            self.pos = self.pos + 1;
            true
        } else {
            false
        }
    }

    /// The cursor stands on `Eof` or past the last token.
    pub fn is_eof(&self) -> (r: bool)
        ensures
            r == self.at_end(),
    {
        match self.peek_kind() {
            Some(TokenKind::Eof) | None => true,
            _ => false,
        }
    }

    /// The span of the token at `pos`, or a span that points nowhere.
    pub fn span_at(&self, pos: usize) -> (s: Span)
        ensures
            pos < self.tokens.len() ==> s == self.tokens@[pos as int].span,
            pos >= self.tokens.len() ==> s.file@.len() == 0 && s.line == 0 && s.column == 0 && s.length == 0,
    {
        if pos < self.tokens.len() {
            crate::ast::clone_span(&self.tokens[pos].span)
        } else {
            default_span()
        }
    }

    /// The span of the token under the cursor.
    pub fn current_span(&self) -> (s: Span)
        ensures
            self.pos < self.tokens.len() ==> s == self.tokens@[self.pos as int].span,
            self.pos >= self.tokens.len() ==> s.file@.len() == 0 && s.line == 0 && s.column == 0 && s.length == 0,
    {
        self.span_at(self.pos)
    }

    /// First pass: harvest every `[label]: url "title"` definition into the
    /// table, its destination and title unescaped and entity-decoded. A
    /// definition cannot interrupt a paragraph (CommonMark 4.7), so one on
    /// a line that continues paragraph text is skipped.
    pub fn collect_refs(&mut self)
        ensures
            ref_texts(final(self).refs.links()) == define_all(ref_texts(old(self).refs.links()), harvest(old(self).tokens@)),
            final(self).tokens == old(self).tokens,
            final(self).pos == old(self).pos,
            final(self).options == old(self).options,
            final(self).diagnostics == old(self).diagnostics,
            final(self).source == old(self).source,
            final(self).link_label_depth == old(self).link_label_depth,
            final(self).jsx_open_stack == old(self).jsx_open_stack,
    {
        let mut in_paragraph = false;
        let mut on_heading_line = false;
        let mut i: usize = 0;
        while i < self.tokens.len()
            invariant
                i <= self.tokens.len(),
                self.tokens == old(self).tokens,
                self.pos == old(self).pos,
                self.options == old(self).options,
                self.diagnostics == old(self).diagnostics,
                self.source == old(self).source,
                self.link_label_depth == old(self).link_label_depth,
                self.jsx_open_stack == old(self).jsx_open_stack,
                (in_paragraph, on_heading_line) == line_state(self.tokens@.take(i as int)),
                ref_texts(self.refs.links()) == define_all(
                    ref_texts(old(self).refs.links()),
                    harvest(self.tokens@.take(i as int)),
                ),
            decreases self.tokens.len() - i,
        {
            let ghost pre = self.tokens@.take(i as int);
            let ghost st = (in_paragraph, on_heading_line);
            assert(self.tokens@.take(i + 1).drop_last() == pre);
            let kind = self.tokens[i].kind;
            let ghost h = harvest(pre);
            let ghost m0 = ref_texts(old(self).refs.links());
            proof {
                assert forall|d: (Seq<char>, RefText)| define_all(m0, #[trigger] h.push(d)) == crate::refs::define(define_all(m0, h), d.0, d.1) by {
                    assert(h.push(d).drop_last() == h);
                }
            }
            if kind == TokenKind::LinkRefDef {
                if !in_paragraph {
                    let parsed = parse_link_ref_def(self.tokens[i].raw.as_str());
                    if let Some((label, url, title)) = parsed {
                        let url = decode_entities_in(unescape_link_part(url.as_str()).as_str());
                        let title = match title {
                            Some(t) => Some(decode_entities_in(unescape_link_part(t.as_str()).as_str())),
                            None => None,
                        };
                        proof {
                            lemma_define_text(self.refs.links(), label@, (url, title));
                        }
                        self.refs.insert(label.as_str(), url, title);
                    }
                }
            } else {
                match kind {
                    TokenKind::BlankLine | TokenKind::CodeFenceOpen(_, _) | TokenKind::CodeFenceClose(_, _)
                    | TokenKind::ThematicBreak | TokenKind::FrontmatterEnd | TokenKind::BlockQuoteMarker => {
                        in_paragraph = false;
                        on_heading_line = false;
                    },
                    TokenKind::Heading(_) => {
                        in_paragraph = false;
                        on_heading_line = true;
                    },
                    TokenKind::SoftBreak | TokenKind::HardBreak => {
                        if on_heading_line {
                            in_paragraph = false;
                        }
                        on_heading_line = false;
                    },
                    TokenKind::Whitespace(_) | TokenKind::Eof => {},
                    _ => {
                        if !on_heading_line {
                            in_paragraph = true;
                        }
                    },
                }
            }
            i = i + 1;
        }
        assert(self.tokens@.take(i as int) == self.tokens@);
    }
}

} // verus!
