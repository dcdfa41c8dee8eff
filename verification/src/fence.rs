//! Fenced code inside block quotes: the quote markers that open each line
//! of the fence's content are not part of the code.

use vstd::prelude::*;
use crate::text::{chars_of, is_blank, push_all, slice_chars, string_of};

verus! {

/// End of the line that starts at `p`: just past its `'\n'`, or the end.
pub open spec fn line_end(s: Seq<char>, p: int) -> int
    decreases s.len() - p,
{
    if p >= s.len() {
        s.len() as int
    } else if s[p] == '\n' {
        p + 1
    } else {
        line_end(s, p + 1)
    }
}

pub proof fn lemma_line_end(s: Seq<char>, p: int)
    requires
        0 <= p < s.len(),
    ensures
        p < line_end(s, p) <= s.len(),
        forall|k: int| p <= k < line_end(s, p) - 1 ==> s[k] != '\n',
        line_end(s, p) < s.len() ==> s[line_end(s, p) - 1] == '\n',
    decreases s.len() - p,
{
    if s[p] != '\n' {
        if p + 1 < s.len() {
            lemma_line_end(s, p + 1);
        } else {
            assert(line_end(s, p + 1) == s.len());
        }
    }
}

/// Leading spaces of a line, at most three.
pub open spec fn lead_spaces(l: Seq<char>, k: int) -> int
    decreases 3 - k,
{
    if k < 3 && k < l.len() && l[k] == ' ' {
        lead_spaces(l, k + 1)
    } else {
        k
    }
}

/// First position from `p` on that holds no space or tab.
pub open spec fn skip_blanks(l: Seq<char>, p: int) -> int
    decreases l.len() - p,
{
    if p < l.len() && is_blank(l[p]) {
        skip_blanks(l, p + 1)
    } else {
        p
    }
}

/// Position after the quote markers `idx..depth` read from `p`: each is a
/// `>`; blanks after an inner marker are skipped, after the innermost one
/// space or tab at most. `None` where a marker is missing.
pub open spec fn quote_markers(l: Seq<char>, p: int, idx: int, depth: int) -> Option<int>
    decreases depth - idx,
{
    if idx >= depth {
        Some(p)
    } else if p < 0 || p >= l.len() || l[p] != '>' {
        None
    } else if idx + 1 < depth {
        quote_markers(l, skip_blanks(l, p + 1), idx + 1, depth)
    } else if p + 1 < l.len() && is_blank(l[p + 1]) {
        Some(p + 2)
    } else {
        Some(p + 1)
    }
}

/// One line with its `depth` quote markers taken off; a line that lacks
/// them stays as it is.
pub open spec fn strip_quote_line(l: Seq<char>, depth: int) -> Seq<char> {
    match quote_markers(l, lead_spaces(l, 0), 0, depth) {
        Some(p) => l.subrange(p, l.len() as int),
        None => l,
    }
}

/// Every line from `p` on (each with its `'\n'`) stripped of its markers.
pub open spec fn strip_quote_lines(s: Seq<char>, p: int, depth: int) -> Seq<char>
    decreases s.len() - p,
{
    if p < 0 || p >= s.len() {
        Seq::empty()
    } else {
        proof {
            lemma_line_end(s, p);
        }
        strip_quote_line(s.subrange(p, line_end(s, p)), depth) + strip_quote_lines(s, line_end(s, p), depth)
    }
}

proof fn lemma_lead_spaces(l: Seq<char>, k: int)
    requires
        0 <= k <= 3,
        k <= l.len(),
    ensures
        k <= lead_spaces(l, k) <= 3,
        lead_spaces(l, k) <= l.len(),
    decreases 3 - k,
{
    if k < 3 && k < l.len() && l[k] == ' ' {
        lemma_lead_spaces(l, k + 1);
    }
}

proof fn lemma_skip_blanks(l: Seq<char>, p: int)
    requires
        0 <= p <= l.len(),
    ensures
        p <= skip_blanks(l, p) <= l.len(),
    decreases l.len() - p,
{
    if p < l.len() && is_blank(l[p]) {
        lemma_skip_blanks(l, p + 1);
    }
}

proof fn lemma_quote_markers(l: Seq<char>, p: int, idx: int, depth: int)
    requires
        0 <= p <= l.len(),
    ensures
        quote_markers(l, p, idx, depth) matches Some(q) ==> p <= q <= l.len(),
    decreases depth - idx,
{
    if idx < depth && p < l.len() && l[p] == '>' && idx + 1 < depth {
        lemma_skip_blanks(l, p + 1);
        lemma_quote_markers(l, skip_blanks(l, p + 1), idx + 1, depth);
    }
}

/// One line without its quote markers.
fn strip_line(line: &Vec<char>, depth: usize) -> (r: Vec<char>)
    ensures
        r@ == strip_quote_line(line@, depth as int),
{
    let l = line.len();
    let mut p: usize = 0;
    while p < l && line[p] == ' ' && p < 3
        invariant
            p <= 3,
            p <= l == line@.len(),
            lead_spaces(line@, 0) == lead_spaces(line@, p as int),
        decreases 3 - p,
    {
        p += 1;
    }
    let mut idx: usize = 0;
    while idx < depth
        invariant
            idx <= depth,
            p <= l == line@.len(),
            quote_markers(line@, lead_spaces(line@, 0), 0, depth as int) == quote_markers(
                line@,
                p as int,
                idx as int,
                depth as int,
            ),
        decreases depth - idx,
    {
        if p >= l || line[p] != '>' {
            return slice_chars(line, 0, l);
        }
        p += 1;
        if idx + 1 < depth {
            let ghost q0 = p as int;
            while p < l && (line[p] == ' ' || line[p] == '\t')
                invariant
                    p <= l == line@.len(),
                    skip_blanks(line@, p as int) == skip_blanks(line@, q0),
                decreases l - p,
            {
                p += 1;
            }
        } else if p < l && (line[p] == ' ' || line[p] == '\t') {
            p += 1;
        }
        idx += 1;
    }
    slice_chars(line, p, l)
}

/// Takes `depth` block-quote markers off the start of every line of `raw`
/// (after up to three spaces); lines that lack them are kept whole.
pub fn strip_blockquote_prefix_from_fence_content(raw: &str, depth: usize) -> (r: String)
    ensures
        r@ == strip_quote_lines(raw@, 0, depth as int),
{
    let s = chars_of(raw);
    let n = s.len();
    let mut out: Vec<char> = Vec::new();
    let mut pos: usize = 0;
    while pos < n
        invariant
            pos <= n == s@.len(),
            s@ == raw@,
            out@ + strip_quote_lines(s@, pos as int, depth as int) == strip_quote_lines(s@, 0, depth as int),
        decreases n - pos,
    {
        let mut e = pos;
        while e < n && s[e] != '\n'
            invariant
                pos <= e <= n == s@.len(),
                line_end(s@, pos as int) == line_end(s@, e as int),
            decreases n - e,
        {
            e += 1;
        }
        if e < n {
            e += 1;
        }
        proof {
            lemma_line_end(s@, pos as int);
        }
        let line = slice_chars(&s, pos, e);
        let stripped = strip_line(&line, depth);
        let ghost before = out@;
        push_all(&mut out, &stripped);
        proof {
            assert(out@ == before + stripped@);
            assert(before + strip_quote_lines(s@, pos as int, depth as int) == before + (stripped@
                + strip_quote_lines(s@, e as int, depth as int)));
            assert(before + (stripped@ + strip_quote_lines(s@, e as int, depth as int)) =~= out@
                + strip_quote_lines(s@, e as int, depth as int));
        }
        pos = e;
    }
    assert(out@ + strip_quote_lines(s@, pos as int, depth as int) =~= out@);
    string_of(&out)
}

/// Number of line feeds in `s`.
pub open spec fn newlines(s: Seq<char>) -> nat
    decreases s.len(),
{
    if s.len() == 0 {
        0
    } else {
        newlines(s.drop_last()) + if s.last() == '\n' {
            1nat
        } else {
            0nat
        }
    }
}

proof fn lemma_newlines_add(a: Seq<char>, b: Seq<char>)
    ensures
        newlines(a + b) == newlines(a) + newlines(b),
    decreases b.len(),
{
    if b.len() > 0 {
        assert((a + b).drop_last() =~= a + b.drop_last());
        lemma_newlines_add(a, b.drop_last());
    } else {
        assert(a + b =~= a);
    }
}

proof fn lemma_newlines_none(s: Seq<char>)
    requires
        forall|k: int| 0 <= k < s.len() ==> s[k] != '\n',
    ensures
        newlines(s) == 0,
    decreases s.len(),
{
    if s.len() > 0 {
        lemma_newlines_none(s.drop_last());
    }
}

proof fn lemma_lead_spaces_no_newline(l: Seq<char>, k: int)
    requires
        0 <= k <= 3,
        k <= l.len(),
        forall|m: int| 0 <= m < k ==> l[m] != '\n',
    ensures
        forall|m: int| 0 <= m < lead_spaces(l, k) ==> l[m] != '\n',
    decreases 3 - k,
{
    if k < 3 && k < l.len() && l[k] == ' ' {
        lemma_lead_spaces_no_newline(l, k + 1);
    }
}

proof fn lemma_skip_blanks_no_newline(l: Seq<char>, p: int)
    requires
        0 <= p <= l.len(),
        forall|m: int| 0 <= m < p ==> l[m] != '\n',
    ensures
        forall|m: int| 0 <= m < skip_blanks(l, p) ==> l[m] != '\n',
    decreases l.len() - p,
{
    if p < l.len() && is_blank(l[p]) {
        lemma_skip_blanks_no_newline(l, p + 1);
    }
}

proof fn lemma_markers_no_newline(l: Seq<char>, p: int, idx: int, depth: int)
    requires
        0 <= p <= l.len(),
        forall|m: int| 0 <= m < p ==> l[m] != '\n',
    ensures
        quote_markers(l, p, idx, depth) matches Some(q) ==> forall|m: int| 0 <= m < q ==> l[m] != '\n',
    decreases depth - idx,
{
    if idx < depth && p < l.len() && l[p] == '>' && idx + 1 < depth {
        lemma_skip_blanks_no_newline(l, p + 1);
        lemma_skip_blanks(l, p + 1);
        lemma_markers_no_newline(l, skip_blanks(l, p + 1), idx + 1, depth);
    }
}

proof fn lemma_strip_line_newlines(l: Seq<char>, depth: int)
    ensures
        newlines(strip_quote_line(l, depth)) == newlines(l),
{
    lemma_lead_spaces(l, 0);
    lemma_lead_spaces_no_newline(l, 0);
    let p0 = lead_spaces(l, 0);
    lemma_quote_markers(l, p0, 0, depth);
    lemma_markers_no_newline(l, p0, 0, depth);
    if let Some(q) = quote_markers(l, p0, 0, depth) {
        let head = l.subrange(0, q);
        lemma_newlines_none(head);
        assert(head + l.subrange(q, l.len() as int) =~= l);
        lemma_newlines_add(head, l.subrange(q, l.len() as int));
    }
}

/// Stripping quote markers keeps the line structure: the content has as
/// many line feeds afterwards as before.
pub proof fn law_lines_kept(s: Seq<char>, p: int, depth: int)
    requires
        0 <= p <= s.len(),
    ensures
        newlines(strip_quote_lines(s, p, depth)) == newlines(s.subrange(p, s.len() as int)),
    decreases s.len() - p,
{
    if p < s.len() {
        lemma_line_end(s, p);
        let e = line_end(s, p);
        law_lines_kept(s, e, depth);
        lemma_strip_line_newlines(s.subrange(p, e), depth);
        lemma_newlines_add(strip_quote_line(s.subrange(p, e), depth), strip_quote_lines(s, e, depth));
        assert(s.subrange(p, e) + s.subrange(e, s.len() as int) =~= s.subrange(p, s.len() as int));
        lemma_newlines_add(s.subrange(p, e), s.subrange(e, s.len() as int));
    } else {
        assert(s.subrange(p, s.len() as int) =~= Seq::<char>::empty());
    }
}

} // verus!
