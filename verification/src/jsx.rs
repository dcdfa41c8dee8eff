//! JSX expressions and the attributes of a JSX tag, read from tokens.

use vstd::prelude::*;
use crate::ast::{clone_span, nv, JsxAttr, JsxAttrValue, JsxExpression, Node, NodeV, Span};
use crate::block::kind_in;
use crate::parser::Parser;
use crate::text::{chars_of, push_all, string_of};
use crate::token::{Token, TokenKind};

verus! {

/// The first position from `q` on that holds no whitespace token.
pub open spec fn skip_ws(ts: Seq<Token>, q: int) -> int
    decreases ts.len() - q,
{
    if 0 <= q < ts.len() && ts[q].kind is Whitespace {
        skip_ws(ts, q + 1)
    } else {
        q
    }
}

/// The text of an expression's tokens from `q` on, up to its closing `}`
/// (taken) or `Eof` (left), and where the cursor stops.
pub open spec fn expr_body(ts: Seq<Token>, q: int) -> (Seq<char>, int)
    decreases ts.len() - q,
{
    if q < 0 || q >= ts.len() {
        (Seq::empty(), q)
    } else if ts[q].kind == TokenKind::ExpressionEnd {
        (Seq::empty(), q + 1)
    } else if ts[q].kind == TokenKind::Eof {
        (Seq::empty(), q)
    } else {
        let r = expr_body(ts, q + 1);
        (ts[q].raw@ + r.0, r.1)
    }
}

/// An attribute's value by its text.
pub enum AttrValV {
    Str(Seq<char>),
    Expr(Seq<char>),
    Bool,
    Spread(Seq<char>),
}

/// An attribute by its text.
pub struct AttrV {
    pub name: Seq<char>,
    pub value: AttrValV,
    pub span: Span,
}

/// The text view of an attribute.
pub open spec fn attr_v(a: JsxAttr) -> AttrV {
    AttrV {
        name: a.name@,
        value: match a.value {
            JsxAttrValue::String(s) => AttrValV::Str(s@),
            JsxAttrValue::Expression(s) => AttrValV::Expr(s@),
            JsxAttrValue::Boolean => AttrValV::Bool,
            JsxAttrValue::Spread(s) => AttrValV::Spread(s@),
        },
        span: a.span,
    }
}

/// The text view of a list of attributes.
pub open spec fn attrs_v(s: Seq<JsxAttr>) -> Seq<AttrV> {
    Seq::new(s.len(), |i: int| attr_v(s[i]))
}

/// The value after `=` at `q` (whitespace already skipped): a quoted
/// string, a bare string, a `{...}` expression, or, for anything else, a
/// boolean that takes no token. Gives the value and where it ends.
pub open spec fn attr_value_at(ts: Seq<Token>, q: int) -> (AttrValV, int) {
    match kind_in(ts, q) {
        Some(TokenKind::JsxAttrStringOpen(_)) => {
            let has = kind_in(ts, q + 1) == Some(TokenKind::JsxAttrString);
            let s = if has { ts[q + 1].raw@ } else { Seq::<char>::empty() };
            let q2 = if has { q + 2 } else { q + 1 };
            let q3 = if kind_in(ts, q2) matches Some(TokenKind::JsxAttrStringClose(_)) { q2 + 1 } else { q2 };
            (AttrValV::Str(s), q3)
        },
        Some(TokenKind::JsxAttrString) => (AttrValV::Str(ts[q].raw@), q + 1),
        Some(TokenKind::ExpressionStart) => {
            let e = expr_body(ts, q + 1);
            (AttrValV::Expr(e.0), e.1)
        },
        _ => (AttrValV::Bool, q),
    }
}

/// The attribute that starts at `q`, and where the next one may start
/// (whitespace after it skipped): a spread `{...rest}`, or a name with an
/// optional `=` and value. `None` where no attribute starts.
pub open spec fn attr_at(ts: Seq<Token>, q: int) -> Option<(AttrV, int)> {
    match kind_in(ts, q) {
        Some(TokenKind::ExpressionStart) => {
            let has = kind_in(ts, q + 1) == Some(TokenKind::JsxAttributeSpread);
            let body = if has { ts[q + 1].raw@ } else { Seq::<char>::empty() };
            let q2 = if has { q + 2 } else { q + 1 };
            let q3 = if kind_in(ts, q2) == Some(TokenKind::ExpressionEnd) { q2 + 1 } else { q2 };
            Some((AttrV { name: Seq::empty(), value: AttrValV::Spread(body), span: ts[q].span }, skip_ws(ts, q3)))
        },
        Some(TokenKind::JsxAttributeName) => {
            let q1 = skip_ws(ts, q + 1);
            let (v, e) = if kind_in(ts, q1) == Some(TokenKind::JsxAttrEq) {
                attr_value_at(ts, skip_ws(ts, q1 + 1))
            } else {
                (AttrValV::Bool, q1)
            };
            Some((AttrV { name: ts[q].raw@, value: v, span: ts[q].span }, skip_ws(ts, e)))
        },
        _ => None,
    }
}

proof fn lemma_skip_ws(ts: Seq<Token>, q: int)
    requires
        0 <= q,
    ensures
        q <= skip_ws(ts, q),
        q <= ts.len() ==> skip_ws(ts, q) <= ts.len(),
        skip_ws(ts, q) < ts.len() ==> !(ts[skip_ws(ts, q)].kind is Whitespace),
    decreases ts.len() - q,
{
    if 0 <= q < ts.len() && ts[q].kind is Whitespace {
        lemma_skip_ws(ts, q + 1);
    }
}

proof fn lemma_expr_body(ts: Seq<Token>, q: int)
    requires
        0 <= q,
    ensures
        q <= expr_body(ts, q).1,
        q <= ts.len() ==> expr_body(ts, q).1 <= ts.len(),
    decreases ts.len() - q,
{
    if 0 <= q < ts.len() && ts[q].kind != TokenKind::ExpressionEnd && ts[q].kind != TokenKind::Eof {
        lemma_expr_body(ts, q + 1);
    }
}

proof fn lemma_attr_at(ts: Seq<Token>, q: int)
    requires
        0 <= q,
    ensures
        attr_at(ts, q) matches Some((a, e)) ==> q < e <= ts.len(),
{
    if let Some((a, e)) = attr_at(ts, q) {
        if kind_in(ts, q) == Some(TokenKind::ExpressionStart) {
            let has = kind_in(ts, q + 1) == Some(TokenKind::JsxAttributeSpread);
            let q2 = if has { q + 2 } else { q + 1 };
            let q3 = if kind_in(ts, q2) == Some(TokenKind::ExpressionEnd) { q2 + 1 } else { q2 };
            lemma_skip_ws(ts, q3);
        } else {
            let q1 = skip_ws(ts, q + 1);
            lemma_skip_ws(ts, q + 1);
            if kind_in(ts, q1) == Some(TokenKind::JsxAttrEq) {
                let q2 = skip_ws(ts, q1 + 1);
                lemma_skip_ws(ts, q1 + 1);
                if kind_in(ts, q2) == Some(TokenKind::ExpressionStart) {
                    lemma_expr_body(ts, q2 + 1);
                }
                let (v, e0) = attr_value_at(ts, q2);
                lemma_skip_ws(ts, e0);
            } else {
                lemma_skip_ws(ts, q1);
            }
        }
    }
}

/// The attributes from `q` on, in order, and where they end.
pub open spec fn attrs_from(ts: Seq<Token>, q: int) -> (Seq<AttrV>, int)
    decreases ts.len() - q,
{
    if q < 0 {
        (Seq::empty(), q)
    } else {
        match attr_at(ts, q) {
            None => (Seq::empty(), q),
            Some((a, e)) => if e <= q || e > ts.len() {
                (seq![a], e)
            } else {
                let r = attrs_from(ts, e);
                (seq![a] + r.0, r.1)
            },
        }
    }
}

fn is_ws_kind(k: TokenKind) -> (r: bool)
    ensures
        r == (k is Whitespace),
{
    match k {
        TokenKind::Whitespace(_) => true,
        _ => false,
    }
}

impl Parser {
    /// Step over whitespace tokens.
    pub fn skip_jsx_ws(&mut self)
        ensures
            final(self).pos == skip_ws(old(self).tokens@, old(self).pos as int),
            final(self).tokens == old(self).tokens,
            final(self).refs == old(self).refs,
            final(self).options == old(self).options,
            final(self).diagnostics == old(self).diagnostics,
            final(self).source == old(self).source,
            final(self).link_label_depth == old(self).link_label_depth,
            final(self).jsx_open_stack == old(self).jsx_open_stack,
    {
        while self.pos < self.tokens.len() && is_ws_kind(self.tokens[self.pos].kind)
            invariant
                skip_ws(self.tokens@, self.pos as int) == skip_ws(old(self).tokens@, old(self).pos as int),
                self.tokens == old(self).tokens,
                self.refs == old(self).refs,
                self.options == old(self).options,
                self.diagnostics == old(self).diagnostics,
                self.source == old(self).source,
                self.link_label_depth == old(self).link_label_depth,
                self.jsx_open_stack == old(self).jsx_open_stack,
            decreases self.tokens.len() - self.pos,
        {
            self.advance();
        }
    }

    /// The text of an expression body, the cursor just after its `{`; steps
    /// over the closing `}` when there is one.
    fn read_expr_body(&mut self) -> (r: String)
        ensures
            r@ == expr_body(old(self).tokens@, old(self).pos as int).0,
            final(self).pos == expr_body(old(self).tokens@, old(self).pos as int).1,
            final(self).tokens == old(self).tokens,
            final(self).refs == old(self).refs,
            final(self).options == old(self).options,
            final(self).diagnostics == old(self).diagnostics,
            final(self).source == old(self).source,
            final(self).link_label_depth == old(self).link_label_depth,
            final(self).jsx_open_stack == old(self).jsx_open_stack,
    {
        let ghost ts = self.tokens@;
        let ghost q1 = self.pos as int;
        let mut s: Vec<char> = Vec::new();
        loop
            invariant_except_break
                s@ + expr_body(ts, self.pos as int).0 == expr_body(ts, q1).0,
                expr_body(ts, self.pos as int).1 == expr_body(ts, q1).1,
            invariant
                self.tokens@ == ts,
                self.tokens == old(self).tokens,
                self.refs == old(self).refs,
                self.options == old(self).options,
                self.diagnostics == old(self).diagnostics,
                self.source == old(self).source,
                self.link_label_depth == old(self).link_label_depth,
                self.jsx_open_stack == old(self).jsx_open_stack,
                q1 == old(self).pos,
            ensures
                s@ == expr_body(ts, q1).0,
                self.pos == expr_body(ts, q1).1,
                self.tokens == old(self).tokens,
                self.refs == old(self).refs,
                self.options == old(self).options,
                self.diagnostics == old(self).diagnostics,
                self.source == old(self).source,
                self.link_label_depth == old(self).link_label_depth,
                self.jsx_open_stack == old(self).jsx_open_stack,
            decreases self.tokens.len() - self.pos,
        {
            if self.pos >= self.tokens.len() || self.tokens[self.pos].kind == TokenKind::Eof {
                assert(s@ =~= s@ + Seq::<char>::empty());
                break;
            }
            if self.tokens[self.pos].kind == TokenKind::ExpressionEnd {
                self.advance();
                assert(s@ =~= s@ + Seq::<char>::empty());
                break;
            }
            let ghost before = s@;
            let ghost i = self.pos as int;
            let t = chars_of(self.tokens[self.pos].raw.as_str());
            push_all(&mut s, &t);
            self.advance();
            assert(before + expr_body(ts, i).0 =~= s@ + expr_body(ts, i + 1).0);
        }
        string_of(&s)
    }

    /// A standalone `{expr}`, the cursor on its `{`: the text of its
    /// tokens up to the closing `}`, or to `Eof`.
    pub fn parse_jsx_expression(&mut self) -> (n: Node)
        requires
            old(self).pos < old(self).tokens.len(),
        ensures
            ({
                let p = old(self).pos as int;
                let r = expr_body(old(self).tokens@, p + 1);
                &&& nv(n) == NodeV::JsxExpression(r.0, old(self).tokens@[p].span)
                &&& final(self).pos == r.1
            }),
            final(self).tokens == old(self).tokens,
            final(self).refs == old(self).refs,
            final(self).options == old(self).options,
            final(self).diagnostics == old(self).diagnostics,
            final(self).source == old(self).source,
            final(self).link_label_depth == old(self).link_label_depth,
            final(self).jsx_open_stack == old(self).jsx_open_stack,
    {
        let span = self.current_span();
        self.advance();
        let value = self.read_expr_body();
        Node::JsxExpression(JsxExpression { value, span })
    }

    /// The attributes of a JSX tag from the cursor on: spreads `{...rest}`,
    /// and names with an optional `=` and a quoted string, a bare string or
    /// a `{...}` expression (a boolean without one).
    pub fn parse_jsx_attrs(&mut self) -> (r: Vec<JsxAttr>)
        ensures
            ({
                let q = skip_ws(old(self).tokens@, old(self).pos as int);
                &&& attrs_v(r@) == attrs_from(old(self).tokens@, q).0
                &&& final(self).pos == attrs_from(old(self).tokens@, q).1
            }),
            final(self).tokens == old(self).tokens,
            final(self).refs == old(self).refs,
            final(self).options == old(self).options,
            final(self).diagnostics == old(self).diagnostics,
            final(self).source == old(self).source,
            final(self).link_label_depth == old(self).link_label_depth,
            final(self).jsx_open_stack == old(self).jsx_open_stack,
    {
        let ghost ts = self.tokens@;
        let mut out: Vec<JsxAttr> = Vec::new();
        self.skip_jsx_ws();
        let ghost q0 = self.pos as int;
        loop
            invariant_except_break
                attrs_v(out@) + attrs_from(ts, self.pos as int).0 == attrs_from(ts, q0).0,
                attrs_from(ts, self.pos as int).1 == attrs_from(ts, q0).1,
            invariant
                q0 <= self.pos,
                self.tokens@ == ts,
                self.tokens == old(self).tokens,
                self.refs == old(self).refs,
                self.options == old(self).options,
                self.diagnostics == old(self).diagnostics,
                self.source == old(self).source,
                self.link_label_depth == old(self).link_label_depth,
                self.jsx_open_stack == old(self).jsx_open_stack,
                q0 == skip_ws(ts, old(self).pos as int),
            ensures
                attrs_v(out@) == attrs_from(ts, q0).0,
                self.pos == attrs_from(ts, q0).1,
                self.tokens == old(self).tokens,
                self.refs == old(self).refs,
                self.options == old(self).options,
                self.diagnostics == old(self).diagnostics,
                self.source == old(self).source,
                self.link_label_depth == old(self).link_label_depth,
                self.jsx_open_stack == old(self).jsx_open_stack,
            decreases self.tokens.len() - self.pos,
        {
            let ghost q = self.pos as int;
            let ghost before = out@;
            proof {
                lemma_attr_at(ts, q);
            }
            let span = self.current_span();
            if self.peek_kind() == Some(TokenKind::ExpressionStart) {
                self.advance();
                let body = if self.peek_kind() == Some(TokenKind::JsxAttributeSpread) {
                    let s = self.tokens[self.pos].raw.clone();
                    self.advance();
                    s
                } else {
                    String::new()
                };
                if self.peek_kind() == Some(TokenKind::ExpressionEnd) {
                    self.advance();
                }
                out.push(JsxAttr { name: String::new(), value: JsxAttrValue::Spread(body), span });
                self.skip_jsx_ws();
            } else if self.peek_kind() == Some(TokenKind::JsxAttributeName) {
                let name = self.tokens[self.pos].raw.clone();
                self.advance();
                self.skip_jsx_ws();
                let value = if self.peek_kind() == Some(TokenKind::JsxAttrEq) {
                    self.advance();
                    self.skip_jsx_ws();
                    match self.peek_kind() {
                        Some(TokenKind::JsxAttrStringOpen(_)) => {
                            self.advance();
                            let s = if self.peek_kind() == Some(TokenKind::JsxAttrString) {
                                let s = self.tokens[self.pos].raw.clone();
                                self.advance();
                                s
                            } else {
                                String::new()
                            };
                            match self.peek_kind() {
                                Some(TokenKind::JsxAttrStringClose(_)) => {
                                    self.advance();
                                },
                                _ => {},
                            }
                            JsxAttrValue::String(s)
                        },
                        Some(TokenKind::JsxAttrString) => {
                            let s = self.tokens[self.pos].raw.clone();
                            self.advance();
                            JsxAttrValue::String(s)
                        },
                        Some(TokenKind::ExpressionStart) => {
                            self.advance();
                            JsxAttrValue::Expression(self.read_expr_body())
                        },
                        _ => JsxAttrValue::Boolean,
                    }
                } else {
                    JsxAttrValue::Boolean
                };
                out.push(JsxAttr { name, value, span });
                self.skip_jsx_ws();
            } else {
                assert(attrs_v(out@) =~= attrs_v(out@) + Seq::<AttrV>::empty());
                break;
            }
            proof {
                let (a, e) = attr_at(ts, q)->0;
                assert(self.pos == e);
                assert(attr_v(out@.last()) == a);
                assert(attrs_v(out@) =~= attrs_v(before) + seq![a]);
                assert(attrs_from(ts, q) == (seq![a] + attrs_from(ts, e).0, attrs_from(ts, e).1));
                assert(attrs_v(before) + (seq![a] + attrs_from(ts, e).0) =~= attrs_v(out@) + attrs_from(ts, e).0);
            }
        }
        out
    }
}

} // verus!
