//! GFM table line classification: header-row detection, the delimiter
//! (alignment) row, cell splitting, and the block openers that end a table.

use vstd::prelude::*;
use crate::ast::{cellsv, cellv, clone_span, lemma_nvs_index, lemma_nvs_len, nvs, rowv, CellV, Node, NodeV, RowV, Span, TableCell, TableRow, Text};
use crate::text::{
    chars_of, is_blank, is_digit, ascii_digit, string_of, trim, trim_bounds, trim_vec,
    is_white_space, vec_starts_with, slice_chars,
};

verus! {

/// Column alignment from the delimiter row.
#[derive(Debug, Clone, Copy, PartialEq, Eq, Structural)]
pub enum TableAlign {
    Unset,
    Left,
    Right,
    Center,
}

/// GFM allows optional leading/trailing `|`; any line with at least one
/// `|` may be a table row. Pure delimiter lines are caught by
/// `parse_alignment_row`.
pub open spec fn table_row_like(s: Seq<char>) -> bool {
    trim(s).len() > 0 && trim(s).contains('|')
}

pub fn looks_like_table_row(s: &str) -> (r: bool)
    ensures
        r == table_row_like(s@),
{
    let v = chars_of(s);
    let t = trim_vec(&v);
    assert(t@ == trim(s@));
    if t.len() == 0 {
        return false;
    }
    let mut i: usize = 0;
    while i < t.len()
        invariant
            i <= t.len(),
            t@ == trim(s@),
            forall|j: int| 0 <= j < i ==> t@[j] != '|',
        decreases t.len() - i,
    {
        if t[i] == '|' {
            assert(t@[i as int] == '|');
            assert(t@.contains('|'));
            return true;
        }
        i += 1;
    }
    false
}

/// Number of occurrences of `c` in `s`.
pub open spec fn count_char(s: Seq<char>, c: char) -> nat
    decreases s.len(),
{
    if s.len() == 0 {
        0
    } else {
        count_char(s.drop_last(), c) + (if s.last() == c {
            1nat
        } else {
            0nat
        })
    }
}

/// Length of the leading run of ASCII digits.
pub open spec fn lead_digits(s: Seq<char>) -> nat
    decreases s.len(),
{
    if s.len() > 0 && is_digit(s[0]) {
        1 + lead_digits(s.drop_first())
    } else {
        0
    }
}

/// A thematic break: 3 or more of the same `-`, `*` or `_`, spaces and
/// tabs allowed between.
pub open spec fn thematic_break_line(t: Seq<char>) -> bool {
    &&& t.len() > 0
    &&& (t[0] == '-' || t[0] == '*' || t[0] == '_')
    &&& forall|i: int| 0 <= i < t.len() ==> (#[trigger] t[i] == t[0] || is_blank(t[i]))
    &&& count_char(t, t[0]) >= 3
}

/// A bullet list marker followed by a space or tab.
pub open spec fn bullet_line(t: Seq<char>) -> bool {
    t.len() >= 2 && (t[0] == '-' || t[0] == '*' || t[0] == '+') && is_blank(t[1])
}

/// An ordered list marker: digits, `.` or `)`, then a space or tab.
pub open spec fn ordered_line(t: Seq<char>) -> bool {
    let d = lead_digits(t) as int;
    &&& d > 0
    &&& d + 1 < t.len()
    &&& (t[d] == '.' || t[d] == ')')
    &&& is_blank(t[d + 1])
}

/// Lines (already trimmed) that end an open table even without `|`: an
/// ATX heading, a block quote, a code fence, a thematic break, or a list
/// item.
pub open spec fn block_opener(t: Seq<char>) -> bool {
    ||| t[0] == '#'
    ||| t[0] == '>'
    ||| (t.len() >= 3 && t[0] == '`' && t[1] == '`' && t[2] == '`')
    ||| (t.len() >= 3 && t[0] == '~' && t[1] == '~' && t[2] == '~')
    ||| thematic_break_line(t)
    ||| bullet_line(t)
    ||| ordered_line(t)
}

fn blank(c: char) -> (r: bool)
    ensures
        r == is_blank(c),
{
    c == ' ' || c == '\t'
}

proof fn lemma_lead_digits(s: Seq<char>)
    ensures
        lead_digits(s) <= s.len(),
        forall|i: int| 0 <= i < lead_digits(s) ==> is_digit(#[trigger] s[i]),
        lead_digits(s) < s.len() ==> !is_digit(s[lead_digits(s) as int]),
    decreases s.len(),
{
    if s.len() > 0 && is_digit(s[0]) {
        lemma_lead_digits(s.drop_first());
        assert forall|i: int| 0 <= i < lead_digits(s) implies is_digit(#[trigger] s[i]) by {
            if i > 0 {
                assert(s[i] == s.drop_first()[i - 1]);
            }
        }
    }
}

proof fn lemma_lead_digits_exact(s: Seq<char>, d: int)
    requires
        0 <= d <= s.len(),
        forall|i: int| 0 <= i < d ==> is_digit(#[trigger] s[i]),
        d == s.len() || !is_digit(s[d]),
    ensures
        lead_digits(s) == d,
    decreases d,
{
    if d > 0 {
        lemma_lead_digits_exact(s.drop_first(), d - 1);
    }
}

/// Whether the (trimmed, non-empty) line opens a block that ends a table.
/// The line must not be empty: the check reads its first character.
pub fn line_starts_block_construct(t: &str) -> (r: bool)
    requires
        t@.len() > 0,
    ensures
        r == block_opener(t@),
{
    let v = chars_of(t);
    let n = v.len();
    if v[0] == '#' || v[0] == '>' {
        return true;
    }
    if n >= 3 && ((v[0] == '`' && v[1] == '`' && v[2] == '`') || (v[0] == '~' && v[1] == '~'
        && v[2] == '~')) {
        return true;
    }
    let marker = v[0];
    if marker == '-' || marker == '*' || marker == '_' {
        let mut count: usize = 0;
        let mut ok = true;
        let mut i: usize = 0;
        while i < n
            invariant
                n == v.len(),
                i <= n,
                marker == v@[0],
                !is_blank(marker),
                count == count_char(v@.take(i as int), marker),
                count <= i,
                ok == (forall|j: int| 0 <= j < i ==> (#[trigger] v@[j] == marker || is_blank(v@[j]))),
            decreases n - i,
        {
            let b = v[i];
            let ghost prev = v@.take(i as int);
            if blank(b) {
            } else if b == marker {
                count += 1;
            } else {
                ok = false;
            }
            i += 1;
            proof {
                assert(v@.take(i as int).drop_last() =~= prev);
                assert(v@.take(i as int).last() == b);
                assert(count_char(v@.take(i as int), marker) == count_char(prev, marker) + (if b == marker { 1nat } else { 0nat }));
            }
        }
        assert(v@.take(n as int) =~= v@);
        if ok && count >= 3 {
            return true;
        }
    }
    if n >= 2 && (marker == '-' || marker == '*' || marker == '+') && blank(v[1]) {
        return true;
    }
    let mut digits: usize = 0;
    while digits < n && ascii_digit(v[digits])
        invariant
            digits <= n,
            n == v.len(),
            forall|j: int| 0 <= j < digits ==> is_digit(#[trigger] v@[j]),
        decreases n - digits,
    {
        digits += 1;
    }
    proof {
        lemma_lead_digits_exact(v@, digits as int);
    }
    if digits > 0 && digits < n && (v[digits] == '.' || v[digits] == ')') && digits + 1 < n
        && blank(v[digits + 1]) {
        return true;
    }
    false
}

// ---------------------------------------------------------------------
// Splitting on `|`
// ---------------------------------------------------------------------

/// `s` split at every `c` (always at least one piece).
pub open spec fn split_on(s: Seq<char>, c: char) -> Seq<Seq<char>>
    decreases s.len(),
{
    if s.len() == 0 {
        seq![Seq::empty()]
    } else {
        let r = split_on(s.drop_last(), c);
        if s.last() == c {
            r.push(Seq::empty())
        } else {
            r.update(r.len() - 1, r.last().push(s.last()))
        }
    }
}

proof fn lemma_split_nonempty(s: Seq<char>, c: char)
    ensures
        split_on(s, c).len() >= 1,
    decreases s.len(),
{
    if s.len() > 0 {
        lemma_split_nonempty(s.drop_last(), c);
    }
}

/// `s` with one leading `|` and then one trailing `|` removed, if present.
pub open spec fn strip_pipes(t: Seq<char>) -> Seq<char> {
    let a = if t.len() > 0 && t[0] == '|' {
        t.drop_first()
    } else {
        t
    };
    if a.len() > 0 && a.last() == '|' {
        a.drop_last()
    } else {
        a
    }
}

/// Leading `:` characters.
pub open spec fn lead_colons(s: Seq<char>) -> nat
    decreases s.len(),
{
    if s.len() > 0 && s[0] == ':' {
        1 + lead_colons(s.drop_first())
    } else {
        0
    }
}

/// Trailing `:` characters.
pub open spec fn trail_colons(s: Seq<char>) -> nat
    decreases s.len(),
{
    if s.len() > 0 && s.last() == ':' {
        1 + trail_colons(s.drop_last())
    } else {
        0
    }
}

/// Alignment of one delimiter cell, or `None` when it is not `:?-+:?`.
pub open spec fn cell_align(raw: Seq<char>) -> Option<TableAlign> {
    let cell = trim(raw);
    if cell.len() == 0 {
        None
    } else {
        let lo = lead_colons(cell);
        let mid0 = cell.skip(lo as int);
        let mid = mid0.take(mid0.len() - trail_colons(mid0));
        if mid.len() == 0 || !(forall|i: int| 0 <= i < mid.len() ==> #[trigger] mid[i] == '-') {
            None
        } else {
            let starts = cell[0] == ':';
            let ends = cell.last() == ':';
            Some(
                if starts && ends {
                    TableAlign::Center
                } else if starts {
                    TableAlign::Left
                } else if ends {
                    TableAlign::Right
                } else {
                    TableAlign::Unset
                },
            )
        }
    }
}

/// The alignments of all cells, or `None` as soon as one cell is invalid.
pub open spec fn aligns_of(cells: Seq<Seq<char>>) -> Option<Seq<TableAlign>>
    decreases cells.len(),
{
    if cells.len() == 0 {
        Some(Seq::empty())
    } else {
        match (aligns_of(cells.drop_last()), cell_align(cells.last())) {
            (Some(a), Some(x)) => Some(a.push(x)),
            _ => None,
        }
    }
}

/// The delimiter row `|:---|---:|:---:|` read as column alignments.
pub open spec fn alignment_row(s: Seq<char>) -> Option<Seq<TableAlign>> {
    aligns_of(split_on(strip_pipes(trim(s)), '|'))
}

/// Bounds of `t` once one leading and one trailing `|` are removed.
fn strip_pipes_bounds(t: &Vec<char>) -> (r: (usize, usize))
    ensures
        r.0 <= r.1 <= t.len(),
        t@.subrange(r.0 as int, r.1 as int) == strip_pipes(t@),
{
    let lo: usize = if t.len() > 0 && t[0] == '|' {
        1
    } else {
        0
    };
    let hi: usize = if t.len() > lo && t[t.len() - 1] == '|' {
        t.len() - 1
    } else {
        t.len()
    };
    proof {
        let a = if t@.len() > 0 && t@[0] == '|' {
            t@.drop_first()
        } else {
            t@
        };
        assert(a =~= t@.subrange(lo as int, t.len() as int));
        if a.len() > 0 && a.last() == '|' {
            assert(a.drop_last() =~= t@.subrange(lo as int, hi as int));
        } else {
            assert(a =~= t@.subrange(lo as int, hi as int));
        }
    }
    (lo, hi)
}

fn colon_bounds(cell: &Vec<char>) -> (r: (usize, usize))
    ensures
        r.0 <= r.1 <= cell.len(),
        r.0 == lead_colons(cell@),
        cell@.subrange(r.0 as int, r.1 as int) == ({
            let mid0 = cell@.skip(r.0 as int);
            mid0.take(mid0.len() - trail_colons(mid0))
        }),
{
    let mut lo: usize = 0;
    assert(cell@.skip(0) =~= cell@);
    while lo < cell.len() && cell[lo] == ':'
        invariant
            lo <= cell.len(),
            lead_colons(cell@) == lo + lead_colons(cell@.skip(lo as int)),
        decreases cell.len() - lo,
    {
        proof {
            assert(cell@.skip(lo as int).drop_first() =~= cell@.skip(lo + 1));
        }
        lo += 1;
    }
    proof {
        if lo < cell.len() {
            assert(cell@.skip(lo as int)[0] == cell@[lo as int]);
        }
    }
    let ghost mid0 = cell@.skip(lo as int);
    let mut hi: usize = cell.len();
    assert(mid0.take(hi - lo) =~= mid0);
    while hi > lo && cell[hi - 1] == ':'
        invariant
            lo <= hi <= cell.len(),
            mid0 == cell@.skip(lo as int),
            trail_colons(mid0) == (cell.len() - hi) + trail_colons(mid0.take(hi - lo)),
        decreases hi - lo,
    {
        proof {
            assert(mid0.take(hi - lo).drop_last() =~= mid0.take(hi - lo - 1));
            assert(mid0.take(hi - lo).last() == cell@[hi - 1]);
        }
        hi -= 1;
    }
    proof {
        if hi > lo {
            assert(mid0.take(hi - lo).last() == cell@[hi - 1]);
        }
        assert(cell@.subrange(lo as int, hi as int) =~= mid0.take(mid0.len() - trail_colons(mid0)));
    }
    (lo, hi)
}

/// Alignment of one delimiter cell.
fn align_of_cell(raw: &Vec<char>) -> (r: Option<TableAlign>)
    ensures
        r == cell_align(raw@),
{
    let cell = trim_vec(raw);
    if cell.len() == 0 {
        return None;
    }
    let (lo, hi) = colon_bounds(&cell);
    if lo >= hi {
        proof {
            let mid0 = cell@.skip(lo as int);
            assert(cell@.subrange(lo as int, hi as int).len() == 0);
            assert(mid0.take(mid0.len() - trail_colons(mid0)).len() == 0);
        }
        return None;
    }
    let mut i = lo;
    while i < hi
        invariant
            lo <= i <= hi <= cell.len(),
            cell@ == trim(raw@),
            lo == lead_colons(cell@),
            cell@.subrange(lo as int, hi as int) == ({
                let mid0 = cell@.skip(lo as int);
                mid0.take(mid0.len() - trail_colons(mid0))
            }),
            forall|j: int| lo <= j < i ==> cell@[j] == '-',
        decreases hi - i,
    {
        if cell[i] != '-' {
            let ghost mid = cell@.subrange(lo as int, hi as int);
            assert(mid[i - lo] != '-');
            return None;
        }
        i += 1;
    }
    let ghost mid = cell@.subrange(lo as int, hi as int);
    assert forall|j: int| 0 <= j < mid.len() implies #[trigger] mid[j] == '-' by {
        assert(mid[j] == cell@[lo + j]);
    }
    let starts = cell[0] == ':';
    let ends = cell[cell.len() - 1] == ':';
    Some(
        if starts && ends {
            TableAlign::Center
        } else if starts {
            TableAlign::Left
        } else if ends {
            TableAlign::Right
        } else {
            TableAlign::Unset
        },
    )
}

/// Parse the delimiter row `|:---|---:|:---:|`. Leading and trailing `|`
/// are optional (GFM 4.10); every cell must be dashes with optional colons.
pub fn parse_alignment_row(s: &str) -> (r: Option<Vec<TableAlign>>)
    ensures
        match alignment_row(s@) {
            Some(a) => r matches Some(v) && v@ == a,
            None => r is None,
        },
{
    let v = chars_of(s);
    let t = trim_vec(&v);
    let (lo, hi) = strip_pipes_bounds(&t);
    let ghost inner = t@.subrange(lo as int, hi as int);
    let mut aligns: Vec<TableAlign> = Vec::new();
    let mut current: Vec<char> = Vec::new();
    let mut i = lo;
    // `aligns` holds the alignments of all finished cells; `current` is the
    // cell being read.
    while i < hi
        invariant
            lo <= i <= hi <= t.len(),
            inner == t@.subrange(lo as int, hi as int),
            inner == strip_pipes(trim(s@)),
            split_on(inner.take(i - lo), '|').len() >= 1,
            current@ == split_on(inner.take(i - lo), '|').last(),
            aligns_of(split_on(inner.take(i - lo), '|').drop_last()) == Some(aligns@),
        decreases hi - i,
    {
        let c = t[i];
        let ghost pre = inner.take(i - lo);
        let ghost next = inner.take(i + 1 - lo);
        proof {
            assert(next.drop_last() =~= pre);
            assert(next.last() == c);
            lemma_split_nonempty(pre, '|');
        }
        if c == '|' {
            let a = align_of_cell(&current);
            match a {
                Some(x) => {
                    aligns.push(x);
                    proof {
                        let sp = split_on(pre, '|');
                        assert(split_on(next, '|') == sp.push(Seq::empty()));
                        assert(split_on(next, '|').drop_last() =~= sp);
                        assert(sp.drop_last().push(sp.last()) =~= sp);
                    }
                },
                None => {
                    proof {
                        let sp = split_on(pre, '|');
                        assert(sp.drop_last().push(sp.last()) =~= sp);
                        assert(cell_align(sp.last()) is None);
                        assert(aligns_of(sp) is None);
                        lemma_aligns_none_extends(sp, split_on(next, '|'));
                        assert(split_on(next, '|').drop_last() =~= sp);
                        lemma_aligns_none_prefix(split_on(next, '|'), inner.skip(i + 1 - lo), i + 1 - lo, inner);
                        assert(inner == strip_pipes(trim(s@)));
                    }
                    return None;
                },
            }
            current = Vec::new();
        } else {
            current.push(c);
            proof {
                let sp = split_on(pre, '|');
                assert(split_on(next, '|') == sp.update(sp.len() - 1, sp.last().push(c)));
                assert(split_on(next, '|').drop_last() =~= sp.drop_last());
            }
        }
        i += 1;
    }
    assert(inner.take(hi - lo) =~= inner);
    let last = align_of_cell(&current);
    proof {
        let sp = split_on(inner, '|');
        lemma_split_nonempty(inner, '|');
        assert(sp.drop_last().push(sp.last()) =~= sp);
    }
    match last {
        Some(x) => {
            aligns.push(x);
            Some(aligns)
        },
        None => None,
    }
}

/// A row with an invalid cell stays invalid when more text is appended.
proof fn lemma_aligns_none_extends(sp: Seq<Seq<char>>, sp2: Seq<Seq<char>>)
    requires
        sp.len() >= 1,
        aligns_of(sp) is None,
        sp2 == sp.push(Seq::<char>::empty()),
    ensures
        aligns_of(sp2) is None,
{
    assert(sp2.drop_last() =~= sp);
}

/// If the cells of a prefix (with its last cell finished) hold an invalid
/// one, so do the cells of the whole text.
proof fn lemma_aligns_none_prefix(sp: Seq<Seq<char>>, rest: Seq<char>, n: int, whole: Seq<char>)
    requires
        0 <= n <= whole.len(),
        sp == split_on(whole.take(n), '|'),
        rest == whole.skip(n),
        sp.len() >= 1,
        aligns_of(sp.drop_last()) is None,
    ensures
        aligns_of(split_on(whole, '|')) is None,
    decreases whole.len() - n,
{
    if n == whole.len() {
        assert(whole.take(n) =~= whole);
        lemma_aligns_none_keep(sp);
    } else {
        let next = whole.take(n + 1);
        assert(next.drop_last() =~= whole.take(n));
        let sp2 = split_on(next, '|');
        if whole[n] == '|' {
            assert(sp2.drop_last() =~= sp);
            lemma_aligns_none_keep(sp);
        } else {
            assert(sp2.drop_last() =~= sp.drop_last());
        }
        lemma_split_nonempty(next, '|');
        lemma_aligns_none_prefix(sp2, whole.skip(n + 1), n + 1, whole);
    }
}

proof fn lemma_aligns_none_keep(sp: Seq<Seq<char>>)
    requires
        sp.len() >= 1,
        aligns_of(sp.drop_last()) is None,
    ensures
        aligns_of(sp) is None,
{
}


// ---------------------------------------------------------------------
// Cells
// ---------------------------------------------------------------------

/// Cell splitting from index `i` on, with the finished cells, the cell
/// being read, and whether a code span is open. `\|` is a literal pipe;
/// pipes inside a code span are content.
pub open spec fn cells_scan(
    s: Seq<char>,
    i: int,
    cells: Seq<Seq<char>>,
    cur: Seq<char>,
    in_code: bool,
) -> Seq<Seq<char>>
    decreases s.len() - i,
{
    if i < 0 || i >= s.len() {
        cells.push(cur)
    } else if s[i] == '\\' {
        if i + 1 < s.len() && s[i + 1] == '|' {
            cells_scan(s, i + 2, cells, cur.push('|'), in_code)
        } else {
            cells_scan(s, i + 1, cells, cur.push('\\'), in_code)
        }
    } else if s[i] == '`' {
        cells_scan(s, i + 1, cells, cur.push('`'), !in_code)
    } else if s[i] == '|' && !in_code {
        cells_scan(s, i + 1, cells.push(cur), Seq::empty(), in_code)
    } else {
        cells_scan(s, i + 1, cells, cur.push(s[i]), in_code)
    }
}

/// The cells of a table row.
pub open spec fn row_cells(s: Seq<char>) -> Seq<Seq<char>> {
    let t = trim(s);
    if t.len() == 0 {
        Seq::empty()
    } else {
        cells_scan(strip_pipes(t), 0, Seq::empty(), Seq::empty(), false)
    }
}

pub open spec fn views_of(v: Seq<Vec<char>>) -> Seq<Seq<char>> {
    v.map_values(|c: Vec<char>| c@)
}

/// Split `|a|b|c|` into cell strings. Pipes inside code spans and `\|`
/// escapes are content, not delimiters.
pub fn split_cells(s: &str) -> (r: Vec<String>)
    ensures
        r@.len() == row_cells(s@).len(),
        forall|k: int| 0 <= k < r@.len() ==> #[trigger] r@[k]@ == row_cells(s@)[k],
{
    let v = chars_of(s);
    let t = trim_vec(&v);
    if t.len() == 0 {
        return Vec::new();
    }
    let (lo, hi) = strip_pipes_bounds(&t);
    let inner = slice_chars(&t, lo, hi);
    let ghost g = inner@;
    let mut cells: Vec<Vec<char>> = Vec::new();
    let mut current: Vec<char> = Vec::new();
    let mut in_code = false;
    let mut i: usize = 0;
    assert(views_of(cells@) =~= Seq::<Seq<char>>::empty());
    while i < inner.len()
        invariant
            i <= inner.len(),
            g == inner@,
            cells_scan(g, 0, Seq::empty(), Seq::empty(), false) == cells_scan(
                g,
                i as int,
                views_of(cells@),
                current@,
                in_code,
            ),
        decreases inner.len() - i,
    {
        let c = inner[i];
        if c == '\\' {
            if i + 1 < inner.len() && inner[i + 1] == '|' {
                current.push('|');
                i += 2;
            } else {
                current.push('\\');
                i += 1;
            }
        } else if c == '`' {
            in_code = !in_code;
            current.push('`');
            i += 1;
        } else if c == '|' && !in_code {
            let ghost old_cells = cells@;
            let mut done: Vec<char> = Vec::new();
            std::mem::swap(&mut done, &mut current);
            cells.push(done);
            proof {
                assert(views_of(cells@) =~= views_of(old_cells).push(done@));
                assert(current@ =~= Seq::<char>::empty());
            }
            i += 1;
        } else {
            current.push(c);
            i += 1;
        }
    }
    let ghost old_cells = cells@;
    cells.push(current);
    proof {
        assert(views_of(cells@) =~= views_of(old_cells).push(cells@.last()@));
    }
    let mut out: Vec<String> = Vec::new();
    let mut k: usize = 0;
    while k < cells.len()
        invariant
            k <= cells.len(),
            out@.len() == k,
            forall|j: int| 0 <= j < k ==> #[trigger] out@[j]@ == cells@[j]@,
        decreases cells.len() - k,
    {
        out.push(string_of(&cells[k]));
        k += 1;
    }
    proof {
        assert(t@ == trim(s@));
        assert(inner@ == strip_pipes(trim(s@)));
        assert forall|j: int| 0 <= j < out@.len() implies #[trigger] out@[j]@ == row_cells(s@)[j] by {
            assert(views_of(cells@)[j] == cells@[j]@);
        }
    }
    out
}

// ---------------------------------------------------------------------
// Rows
// ---------------------------------------------------------------------

/// Children of one cell: none for a blank cell, else the inline parse of
/// its trimmed text, or that text as one `Text` node when the parse gave
/// nothing.
pub open spec fn cell_children(cell: Seq<char>, parsed: Seq<NodeV>, span: Span) -> Seq<NodeV> {
    let t = trim(cell);
    if t.len() == 0 {
        Seq::empty()
    } else if parsed.len() == 0 {
        seq![NodeV::Text(t, span)]
    } else {
        parsed
    }
}

/// A table row from its raw cells; `parsed[k]` is the inline parse of the
/// trimmed text of cell `k`. Every cell and the row carry `span`.
pub fn make_row(cells: &[String], parsed: Vec<Vec<Node>>, span: &Span) -> (r: TableRow)
    requires
        parsed.len() == cells.len(),
    ensures
        rowv(r) == (RowV {
            cells: Seq::new(
                cells@.len(),
                |k: int| CellV { children: cell_children(cells@[k]@, nvs(parsed@[k]@), *span), span: *span },
            ),
            span: *span,
        }),
{
    let ghost ps = parsed@;
    let mut out: Vec<TableCell> = Vec::new();
    let mut k: usize = 0;
    for nodes in it: parsed.into_iter()
        invariant
            it.seq() == ps,
            ps.len() == cells@.len(),
            k == it.index(),
            out@.len() == k,
            forall|j: int| 0 <= j < k ==> #[trigger] cellv(out@[j]) == (CellV {
                children: cell_children(cells@[j]@, nvs(ps[j]@), *span),
                span: *span,
            }),
    {
        let v = chars_of(&cells[k]);
        let t = trim_vec(&v);
        let children: Vec<Node> = if t.len() == 0 {
            Vec::new()
        } else if nodes.len() == 0 {
            let mut one: Vec<Node> = Vec::new();
            one.push(Node::Text(Text { value: string_of(&t), span: clone_span(span) }));
            proof {
                broadcast use lemma_nvs_len, lemma_nvs_index;

                assert(nvs(one@) =~= seq![NodeV::Text(t@, *span)]);
            }
            one
        } else {
            nodes
        };
        proof {
            assert(nvs(children@) == cell_children(cells@[k as int]@, nvs(ps[k as int]@), *span));
        }
        out.push(TableCell { children, span: clone_span(span) });
        k += 1;
    }
    let ghost cs = out@;
    proof {
        lemma_cellsv(cs);
        assert(cellsv(cs) =~= Seq::new(
            cells@.len(),
            |j: int| CellV { children: cell_children(cells@[j]@, nvs(ps[j]@), *span), span: *span },
        ));
    }
    TableRow { cells: out, span: clone_span(span) }
}

proof fn lemma_cellsv(s: Seq<TableCell>)
    ensures
        cellsv(s).len() == s.len(),
        forall|j: int| 0 <= j < s.len() ==> #[trigger] cellsv(s)[j] == cellv(s[j]),
    decreases s.len(),
{
    if s.len() > 0 {
        lemma_cellsv(s.drop_last());
    }
}

} // verus!
