//! GFM tables read from the token stream: which lines form the table, its
//! alignments, and the raw text of every cell. The cells' inline content
//! is parsed from that text afterwards.

use vstd::prelude::*;
use crate::ast::{clone_span, Span};
use crate::block::kind_in;
use crate::parser::Parser;
use crate::table::{
    alignment_row, block_opener, line_starts_block_construct, looks_like_table_row, parse_alignment_row,
    row_cells, split_cells, table_row_like, TableAlign,
};
use crate::text::{chars_of, push_all, string_of, trim, trim_vec};
use crate::token::{Token, TokenKind};

verus! {

/// A token kind that ends a logical line of table text.
pub open spec fn ends_table_line(k: TokenKind) -> bool {
    match k {
        TokenKind::SoftBreak | TokenKind::HardBreak | TokenKind::BlankLine | TokenKind::Eof
        | TokenKind::Heading(_) | TokenKind::FrontmatterStart | TokenKind::Import | TokenKind::Export => true,
        _ => false,
    }
}

/// The text of the logical line from `q` on, and how many tokens it spans.
pub open spec fn line_at(ts: Seq<Token>, q: int) -> (Seq<char>, int)
    decreases ts.len() - q,
{
    if q < 0 || q >= ts.len() || ends_table_line(ts[q].kind) {
        (Seq::empty(), 0)
    } else {
        let r = line_at(ts, q + 1);
        (ts[q].raw@ + r.0, r.1 + 1)
    }
}

/// Past one line break at `q`, if there is one.
pub open spec fn past_break(ts: Seq<Token>, q: int) -> int {
    if kind_in(ts, q) == Some(TokenKind::SoftBreak) || kind_in(ts, q) == Some(TokenKind::HardBreak) {
        q + 1
    } else {
        q
    }
}

/// A row's cells fitted to `n` columns: short rows padded with empty
/// cells, long ones cut (GFM 4.10).
pub open spec fn fit_cells(cells: Seq<Seq<char>>, n: int) -> Seq<Seq<char>> {
    if cells.len() < n {
        cells + Seq::new((n - cells.len()) as nat, |i: int| Seq::<char>::empty())
    } else {
        cells.take(n)
    }
}

/// The body rows from `q` on: each line that is not blank and opens no
/// other block, its cells fitted to `n` columns, with the span of its
/// first token; and where the body ends.
pub open spec fn body_rows(ts: Seq<Token>, q: int, n: int) -> (Seq<(Seq<Seq<char>>, Span)>, int)
    decreases ts.len() - q,
{
    let (l, c) = line_at(ts, q);
    if c <= 0 || q < 0 || q >= ts.len() || trim(l).len() == 0 || block_opener(trim(l)) {
        (Seq::empty(), q)
    } else {
        let next = past_break(ts, q + c);
        if next <= q || next > ts.len() {
            (Seq::empty(), q)
        } else {
            let r = body_rows(ts, next, n);
            (seq![(fit_cells(row_cells(l), n), ts[q].span)] + r.0, r.1)
        }
    }
}

/// A table at `p`: a header line that looks like a row, then a delimiter
/// line whose column count matches the header's; its alignments, header
/// cells, body rows, and where it ends. `None` where there is none.
pub open spec fn table_at(ts: Seq<Token>, p: int) -> Option<
    (Seq<TableAlign>, Seq<Seq<char>>, Seq<(Seq<Seq<char>>, Span)>, int),
> {
    let (l1, c1) = line_at(ts, p);
    if c1 == 0 || !table_row_like(l1) {
        None
    } else {
        let q1 = past_break(ts, p + c1);
        let (l2, c2) = line_at(ts, q1);
        if c2 == 0 {
            None
        } else {
            match alignment_row(l2) {
                None => None,
                Some(aligns) => if row_cells(l1).len() != aligns.len() {
                    None
                } else {
                    let body = body_rows(ts, past_break(ts, q1 + c2), aligns.len() as int);
                    Some((aligns, row_cells(l1), body.0, body.1))
                },
            }
        }
    }
}

proof fn lemma_line_at(ts: Seq<Token>, q: int)
    requires
        0 <= q,
    ensures
        0 <= line_at(ts, q).1,
        q + line_at(ts, q).1 <= ts.len() || line_at(ts, q).1 == 0,
        line_at(ts, q).1 > 0 ==> q < ts.len(),
    decreases ts.len() - q,
{
    if q < ts.len() && !ends_table_line(ts[q].kind) {
        lemma_line_at(ts, q + 1);
    }
}

/// What a table's lines give before its cells are parsed.
pub struct TablePlan {
    pub aligns: Vec<TableAlign>,
    /// Raw text of the header cells.
    pub header: Vec<String>,
    /// Raw text of each body row's cells, with the row's span.
    pub rows: Vec<(Vec<String>, Span)>,
    /// Span of the header line's first token.
    pub span: Span,
}

/// The text view of cell lists.
pub open spec fn cell_texts(v: Seq<String>) -> Seq<Seq<char>> {
    Seq::new(v.len(), |i: int| v[i]@)
}

/// The text view of body rows.
pub open spec fn rows_v(v: Seq<(Vec<String>, Span)>) -> Seq<(Seq<Seq<char>>, Span)> {
    Seq::new(v.len(), |i: int| (cell_texts(v[i].0@), v[i].1))
}

impl Parser {
    /// The text of the logical line at the cursor, and how many tokens it
    /// spans. The cursor stays.
    pub fn collect_line_text(&self) -> (r: (String, usize))
        ensures
            r.0@ == line_at(self.tokens@, self.pos as int).0,
            r.1 as int == line_at(self.tokens@, self.pos as int).1,
    {
        let mut text: Vec<char> = Vec::new();
        let mut i: usize = self.pos;
        let ghost p = self.pos as int;
        while i < self.tokens.len() && !is_line_end(self.tokens[i].kind)
            invariant
                p <= i,
                i == p || i <= self.tokens.len(),
                text@ + line_at(self.tokens@, i as int).0 == line_at(self.tokens@, p).0,
                (i - p) + line_at(self.tokens@, i as int).1 == line_at(self.tokens@, p).1,
                p == self.pos,
            decreases self.tokens.len() - i,
        {
            let ghost before = text@;
            let t = chars_of(self.tokens[i].raw.as_str());
            push_all(&mut text, &t);
            assert(before + line_at(self.tokens@, i as int).0 =~= text@ + line_at(self.tokens@, i + 1).0);
            i += 1;
        }
        assert(text@ =~= text@ + Seq::<char>::empty());
        (string_of(&text), i - self.pos)
    }

    fn step_past_break(&mut self)
        ensures
            final(self).pos == past_break(old(self).tokens@, old(self).pos as int),
            final(self).tokens == old(self).tokens,
            final(self).refs == old(self).refs,
            final(self).options == old(self).options,
            final(self).diagnostics == old(self).diagnostics,
            final(self).source == old(self).source,
            final(self).link_label_depth == old(self).link_label_depth,
            final(self).jsx_open_stack == old(self).jsx_open_stack,
    {
        match self.peek_kind() {
            Some(TokenKind::SoftBreak) | Some(TokenKind::HardBreak) => {
                self.advance();
            },
            _ => {},
        }
    }

    /// Try a GFM table at the cursor (GFM 4.10): its alignments, the raw
    /// text of its header and body cells, the cursor past its last row.
    /// Where the lines do not form a table, `None`, and the cursor is where
    /// it was.
    pub fn try_parse_table(&mut self) -> (r: Option<TablePlan>)
        requires
            old(self).pos <= old(self).tokens.len(),
        ensures
            match table_at(old(self).tokens@, old(self).pos as int) {
                None => r is None && final(self).pos == old(self).pos,
                Some((aligns, header, rows, end)) => r matches Some(t) && t.aligns@ == aligns && cell_texts(
                    t.header@,
                ) == header && rows_v(t.rows@) == rows && final(self).pos == end && (old(self).pos < old(
                    self,
                ).tokens.len() ==> t.span == old(self).tokens@[old(self).pos as int].span),
            },
            final(self).tokens == old(self).tokens,
            final(self).refs == old(self).refs,
            final(self).options == old(self).options,
            final(self).diagnostics == old(self).diagnostics,
            final(self).source == old(self).source,
            final(self).link_label_depth == old(self).link_label_depth,
            final(self).jsx_open_stack == old(self).jsx_open_stack,
    {
        let ghost ts = self.tokens@;
        let saved = self.pos;
        let span = self.current_span();
        let (line1, len1) = self.collect_line_text();
        proof {
            lemma_line_at(ts, saved as int);
        }
        if len1 == 0 || !looks_like_table_row(line1.as_str()) {
            return None;
        }
        self.pos = self.pos + len1;
        self.step_past_break();
        let ghost q1 = self.pos as int;
        let (line2, len2) = self.collect_line_text();
        proof {
            lemma_line_at(ts, q1);
        }
        if len2 == 0 {
            self.pos = saved;
            return None;
        }
        let aligns = match parse_alignment_row(line2.as_str()) {
            Some(a) => a,
            None => {
                self.pos = saved;
                return None;
            },
        };
        let header = split_cells(line1.as_str());
        if header.len() != aligns.len() {
            self.pos = saved;
            return None;
        }
        assert(cell_texts(header@) =~= row_cells(line1@));
        self.pos = self.pos + len2;
        self.step_past_break();
        let col_count = aligns.len();
        let ghost qb = self.pos as int;
        let mut rows: Vec<(Vec<String>, Span)> = Vec::new();
        loop
            invariant_except_break
                rows_v(rows@) + body_rows(ts, self.pos as int, col_count as int).0 == body_rows(ts, qb, col_count as int).0,
                body_rows(ts, self.pos as int, col_count as int).1 == body_rows(ts, qb, col_count as int).1,
            invariant
                qb <= self.pos <= self.tokens.len(),
                self.tokens@ == ts,
                self.tokens == old(self).tokens,
                self.refs == old(self).refs,
                self.options == old(self).options,
                self.diagnostics == old(self).diagnostics,
                self.source == old(self).source,
                self.link_label_depth == old(self).link_label_depth,
                self.jsx_open_stack == old(self).jsx_open_stack,
            ensures
                rows_v(rows@) == body_rows(ts, qb, col_count as int).0,
                self.pos == body_rows(ts, qb, col_count as int).1,
                self.tokens == old(self).tokens,
                self.refs == old(self).refs,
                self.options == old(self).options,
                self.diagnostics == old(self).diagnostics,
                self.source == old(self).source,
                self.link_label_depth == old(self).link_label_depth,
                self.jsx_open_stack == old(self).jsx_open_stack,
            decreases self.tokens.len() - self.pos,
        {
            let ghost q = self.pos as int;
            let (line, len) = self.collect_line_text();
            proof {
                lemma_line_at(ts, q);
            }
            if len == 0 {
                assert(rows_v(rows@) =~= rows_v(rows@) + Seq::<(Seq<Seq<char>>, Span)>::empty());
                break;
            }
            let t = trim_vec(&chars_of(line.as_str()));
            if t.len() == 0 {
                assert(rows_v(rows@) =~= rows_v(rows@) + Seq::<(Seq<Seq<char>>, Span)>::empty());
                break;
            }
            if line_starts_block_construct(string_of(&t).as_str()) {
                assert(rows_v(rows@) =~= rows_v(rows@) + Seq::<(Seq<Seq<char>>, Span)>::empty());
                break;
            }
            let mut cells = split_cells(line.as_str());
            let ghost rc = row_cells(line@);
            assert(cell_texts(cells@) =~= rc);
            if cells.len() < col_count {
                while cells.len() < col_count
                    invariant
                        cell_texts(cells@) == rc + Seq::new((cells@.len() - rc.len()) as nat, |i: int| Seq::<char>::empty()),
                        rc.len() <= cells@.len() <= col_count,
                    decreases col_count - cells.len(),
                {
                    let ghost k = (cells@.len() - rc.len()) as nat;
                    let ghost before_ct = cell_texts(cells@);
                    let e = String::new();
                    assert(e@ == Seq::<char>::empty());
                    cells.push(e);
                    assert(cell_texts(cells@) =~= before_ct.push(Seq::<char>::empty()));
                    assert(rc + Seq::new(k + 1, |i: int| Seq::<char>::empty()) =~= (rc + Seq::new(
                        k,
                        |i: int| Seq::<char>::empty(),
                    )).push(Seq::<char>::empty()));
                }
            } else {
                cells.truncate(col_count);
                assert(cell_texts(cells@) =~= rc.take(col_count as int));
            }
            let row_span = self.current_span();
            let ghost before = rows@;
            rows.push((cells, row_span));
            self.pos = self.pos + len;
            self.step_past_break();
            proof {
                assert(rows_v(rows@) =~= rows_v(before).push((fit_cells(rc, col_count as int), ts[q].span)));
                assert(rows_v(before) + body_rows(ts, q, col_count as int).0 =~= rows_v(rows@) + body_rows(
                    ts,
                    self.pos as int,
                    col_count as int,
                ).0);
            }
        }
        Some(TablePlan { aligns, header, rows, span })
    }
}

proof fn lemma_body_width(ts: Seq<Token>, q: int, n: int)
    requires
        n >= 0,
    ensures
        forall|i: int| 0 <= i < body_rows(ts, q, n).0.len() ==> (#[trigger] body_rows(ts, q, n).0[i]).0.len() == n,
    decreases ts.len() - q,
{
    let (l, c) = line_at(ts, q);
    if !(c <= 0 || q < 0 || q >= ts.len() || trim(l).len() == 0 || block_opener(trim(l))) {
        let next = past_break(ts, q + c);
        if !(next <= q || next > ts.len()) {
            lemma_body_width(ts, next, n);
            let r = body_rows(ts, next, n);
            let row = (fit_cells(row_cells(l), n), ts[q].span);
            assert(row.0.len() == n);
            assert forall|i: int| 0 <= i < body_rows(ts, q, n).0.len() implies (#[trigger] body_rows(ts, q, n).0[i]).0.len() == n by {
                if i > 0 {
                    assert(body_rows(ts, q, n).0[i] == r.0[i - 1]);
                }
            }
        }
    }
}

/// Every row of a table, the header and each body row, has one cell per
/// column of the delimiter row (GFM 4.10: short rows are padded, long ones
/// cut).
pub proof fn law_table_rows_fit_columns(ts: Seq<Token>, p: int)
    ensures
        table_at(ts, p) matches Some((aligns, header, rows, end)) ==> header.len() == aligns.len() && forall|i: int|
            0 <= i < rows.len() ==> (#[trigger] rows[i]).0.len() == aligns.len(),
{
    if let Some((aligns, header, rows, end)) = table_at(ts, p) {
        let (l1, c1) = line_at(ts, p);
        let q1 = past_break(ts, p + c1);
        let (l2, c2) = line_at(ts, q1);
        lemma_body_width(ts, past_break(ts, q1 + c2), aligns.len() as int);
    }
}

fn is_line_end(k: TokenKind) -> (r: bool)
    ensures
        r == ends_table_line(k),
{
    match k {
        TokenKind::SoftBreak | TokenKind::HardBreak | TokenKind::BlankLine | TokenKind::Eof
        | TokenKind::Heading(_) | TokenKind::FrontmatterStart | TokenKind::Import | TokenKind::Export => true,
        _ => false,
    }
}

} // verus!
