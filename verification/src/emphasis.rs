//! Emphasis resolution: pairing `*` / `_` delimiter runs into `Italic` and
//! `Bold` nodes with the CommonMark delimiter-stack algorithm.
//!
//! While inline content is collected, every delimiter run leaves a `Text`
//! placeholder in the output list and a `DelimRecord` that remembers where
//! that placeholder sits. Resolution walks the records left to right; each
//! closer pairs with the nearest usable opener before it, the nodes between
//! the two placeholders become the children of the new node, and the
//! placeholders shrink by the number of markers used.

use vstd::prelude::*;
use crate::ast::{clone_span, lemma_nvs_add, lemma_nvs_index, lemma_nvs_len, nv, nvs, Inline, Node, NodeV, Span, Text};
use crate::parser::ParseOptions;
use crate::text::string_of;
use crate::tree::{legacy_norm, normalize_legacy_gfm_emphasis};

verus! {

broadcast use lemma_nvs_len, lemma_nvs_index;

/// The marker character of a delimiter run.
#[derive(Debug, Clone, Copy, PartialEq, Eq, Structural)]
pub enum EmphasisChar {
    Asterisk,
    Underscore,
}

/// One delimiter run met while collecting inline content.
#[derive(Debug)]
pub struct DelimRecord {
    pub c: EmphasisChar,
    /// Markers of the run not used yet; `0` once the run is spent.
    pub run: u8,
    pub can_open: bool,
    pub can_close: bool,
    /// Position of the run's placeholder in the output list.
    pub out_idx: usize,
    pub span: Span,
}

pub open spec fn mark_char(c: EmphasisChar) -> char {
    match c {
        EmphasisChar::Asterisk => '*',
        EmphasisChar::Underscore => '_',
    }
}

/// `n` copies of the marker character.
pub open spec fn marks(c: EmphasisChar, n: nat) -> Seq<char> {
    Seq::new(n, |_k: int| mark_char(c))
}

/// What resolution needs of its input: every placeholder position lies in
/// the output list, the placeholders of unspent runs come in the order of
/// their records, and the runs that the opener search adds up (an earlier
/// record that can open, a later one of the same character that can close)
/// sum within a byte.
pub open spec fn delims_fit(len: nat, ds: Seq<DelimRecord>) -> bool {
    &&& forall|m: int| 0 <= m < ds.len() ==> (#[trigger] ds[m]).out_idx < len
    &&& forall|a: int, b: int|
        #![trigger ds[a], ds[b]]
        0 <= a < b < ds.len() && ds[a].run > 0 && ds[b].run > 0 ==> ds[a].out_idx < ds[b].out_idx
    &&& forall|a: int, b: int|
        #![trigger ds[a], ds[b]]
        0 <= a < b < ds.len() && ds[a].c == ds[b].c && ds[a].can_open && ds[b].can_close ==> ds[a].run
            + ds[b].run <= 255
}

/// `d` may open the emphasis that `c` closes: an unspent opener of the same
/// character, unless one of the two can both open and close and their
/// lengths add up to a multiple of three while the opener's alone does not.
pub open spec fn opens_for(d: DelimRecord, c: DelimRecord) -> bool {
    &&& d.run != 0
    &&& d.can_open
    &&& d.c == c.c
    &&& !(((d.can_open && d.can_close) || (c.can_open && c.can_close)) && (d.run + c.run) % 3 == 0
        && d.run % 3 != 0)
}

/// The nearest record below `k` that may open for record `i`.
pub open spec fn opener_before(ds: Seq<DelimRecord>, i: int, k: int) -> Option<int>
    decreases k,
{
    if k <= 0 {
        None
    } else if opens_for(ds[k - 1], ds[i]) {
        Some(k - 1)
    } else {
        opener_before(ds, i, k - 1)
    }
}

/// Markers one pairing uses: two (strong) when both runs have two, else one.
pub open spec fn used(o: DelimRecord, c: DelimRecord) -> int {
    if o.run >= 2 && c.run >= 2 {
        2
    } else {
        1
    }
}

/// Output slots that pairing `o` with `c` removes, net of the one it may add.
pub open spec fn slots_removed(o: DelimRecord, c: DelimRecord) -> int {
    let n = used(o, c);
    (c.out_idx - (o.out_idx + 1)) + (if c.run == n { 1int } else { 0 }) - (if o.run == n { 0int } else { 1 })
}

/// A `Text` node with its value replaced; any other node unchanged.
pub open spec fn retext(n: NodeV, v: Seq<char>) -> NodeV {
    match n {
        NodeV::Text(_, sp) => NodeV::Text(v, sp),
        other => other,
    }
}

/// The output after pairing opener `o` with closer `c`: the nodes between
/// their placeholders become the children of one `Italic` (one marker used)
/// or `Bold` (two used) node carrying the opener's span, the opener's
/// placeholder keeps its unused markers before it, and the closer's after.
pub open spec fn paired_out(out: Seq<NodeV>, o: DelimRecord, c: DelimRecord) -> Seq<NodeV> {
    let n = used(o, c);
    let lo = o.out_idx + 1;
    let hi = c.out_idx as int;
    let inner = out.subrange(lo, hi);
    let node = if n == 1 {
        NodeV::Italic(inner, o.span)
    } else {
        NodeV::Bold(inner, o.span)
    };
    let open_rest = (o.run - n) as nat;
    let close_rest = (c.run - n) as nat;
    out.subrange(0, o.out_idx as int) + (if open_rest == 0 {
        Seq::empty()
    } else {
        seq![NodeV::Text(marks(o.c, open_rest), o.span)]
    }) + seq![node] + (if close_rest == 0 {
        Seq::empty()
    } else {
        seq![retext(out[hi], marks(c.c, close_rest))]
    }) + out.subrange(hi + 1, out.len() as int)
}

/// A placeholder position after pairing `o` with `c`: positions past the
/// opener move by the slots removed, never below zero.
pub open spec fn shifted(idx: usize, o: DelimRecord, c: DelimRecord) -> usize {
    if idx > o.out_idx {
        let v = idx - slots_removed(o, c);
        if v < 0 {
            0
        } else {
            v as usize
        }
    } else {
        idx
    }
}

/// Record `m` after pairing records `oi` and `ci`: the records between them
/// are spent, the two runs lose the markers used (a spent opener can no
/// longer open), and every position is shifted.
pub open spec fn paired_delim(ds: Seq<DelimRecord>, oi: int, ci: int, m: int) -> DelimRecord {
    let o = ds[oi];
    let c = ds[ci];
    let d = ds[m];
    let n = used(o, c);
    let idx = shifted(d.out_idx, o, c);
    if oi < m < ci {
        DelimRecord { run: 0, can_open: false, can_close: false, out_idx: idx, ..d }
    } else if m == oi {
        DelimRecord {
            run: (d.run - n) as u8,
            can_open: if d.run == n { false } else { d.can_open },
            out_idx: idx,
            ..d
        }
    } else if m == ci {
        DelimRecord { run: (d.run - n) as u8, out_idx: idx, ..d }
    } else {
        DelimRecord { out_idx: idx, ..d }
    }
}

pub open spec fn paired_ds(ds: Seq<DelimRecord>, oi: int, ci: int) -> Seq<DelimRecord> {
    Seq::new(ds.len(), |m: int| paired_delim(ds, oi, ci, m))
}

/// One step of resolution at record `i`: a record that cannot close, or
/// finds no opener, is passed over; otherwise it pairs with its opener and
/// is tried again while markers remain.
pub open spec fn emph_step(out: Seq<NodeV>, ds: Seq<DelimRecord>, i: int) -> (Seq<NodeV>, Seq<DelimRecord>, int) {
    let c = ds[i];
    if !c.can_close || c.run == 0 {
        (out, ds, i + 1)
    } else {
        match opener_before(ds, i, i) {
            None => (out, ds, i + 1),
            Some(o) => {
                let ds2 = paired_ds(ds, o, i);
                (paired_out(out, ds[o], c), ds2, if ds2[i].run == 0 { i + 1 } else { i })
            },
        }
    }
}

/// Resolution from record `i` on, as output list and records.
pub open spec fn emph_resolve(out: Seq<NodeV>, ds: Seq<DelimRecord>, i: int) -> (Seq<NodeV>, Seq<DelimRecord>)
    decreases ds.len() - i, ds[i].run,
{
    if i < 0 || i >= ds.len() {
        (out, ds)
    } else {
        let (o2, d2, i2) = emph_step(out, ds, i);
        emph_resolve(o2, d2, i2)
    }
}

proof fn lemma_opener_before(ds: Seq<DelimRecord>, i: int, k: int)
    ensures
        opener_before(ds, i, k) matches Some(o) ==> 0 <= o < k && opens_for(ds[o], ds[i]),
    decreases k,
{
    if k > 0 {
        lemma_opener_before(ds, i, k - 1);
    }
}

fn opens_for_exec(d: &DelimRecord, c: &DelimRecord) -> (r: bool)
    requires
        c.can_close,
        d.c == c.c && d.can_open ==> d.run + c.run <= 255,
    ensures
        r == opens_for(*d, *c),
{
    if d.run == 0 || !d.can_open || d.c != c.c {
        return false;
    }
    let combined: usize = (d.run + c.run) as usize;
    let both_open_close = (d.can_open && d.can_close) || (c.can_open && c.can_close);
    !(both_open_close && combined % 3 == 0 && (d.run as usize) % 3 != 0)
}

/// The nearest record before `i` that may open for it.
fn find_opener(delims: &Vec<DelimRecord>, i: usize) -> (r: Option<usize>)
    requires
        i < delims.len(),
        delims@[i as int].can_close,
        forall|m: int|
            0 <= m < i && (#[trigger] delims@[m]).c == delims@[i as int].c && delims@[m].can_open
                ==> delims@[m].run + delims@[i as int].run <= 255,
    ensures
        match r {
            Some(o) => opener_before(delims@, i as int, i as int) == Some(o as int),
            None => opener_before(delims@, i as int, i as int) is None,
        },
{
    let mut k = i;
    while k > 0
        invariant
            k <= i < delims.len(),
            delims@[i as int].can_close,
            forall|m: int|
                0 <= m < i && (#[trigger] delims@[m]).c == delims@[i as int].c && delims@[m].can_open
                    ==> delims@[m].run + delims@[i as int].run <= 255,
            opener_before(delims@, i as int, i as int) == opener_before(delims@, i as int, k as int),
        decreases k,
    {
        if opens_for_exec(&delims[k - 1], &delims[i]) {
            return Some(k - 1);
        }
        k -= 1;
    }
    None
}

/// `n` marker characters as a string.
fn marks_string(c: EmphasisChar, n: u8) -> (s: String)
    ensures
        s@ == marks(c, n as nat),
{
    let ch = match c {
        EmphasisChar::Asterisk => '*',
        EmphasisChar::Underscore => '_',
    };
    let mut v: Vec<char> = Vec::new();
    let mut k: u8 = 0;
    while k < n
        invariant
            k <= n,
            ch == mark_char(c),
            v@ == marks(c, k as nat),
        decreases n - k,
    {
        v.push(ch);
        k += 1;
        assert(v@ =~= marks(c, k as nat));
    }
    string_of(&v)
}

proof fn lemma_nvs_subrange(s: Seq<Node>, a: int, b: int)
    requires
        0 <= a <= b <= s.len(),
    ensures
        nvs(s.subrange(a, b)) == nvs(s).subrange(a, b),
{
    assert(nvs(s.subrange(a, b)) =~= nvs(s).subrange(a, b));
}

/// Replaces the placeholders of `o` and `c` and the nodes between them by
/// the emphasis node, keeping the unused markers of either run.
fn pair_nodes(out: &mut Vec<Node>, o: &DelimRecord, c: &DelimRecord)
    requires
        o.out_idx < c.out_idx < old(out).len(),
        1 <= o.run,
        1 <= c.run,
    ensures
        nvs(final(out)@) == paired_out(nvs(old(out)@), *o, *c),
{
    let ghost src = out@;
    let n: u8 = if o.run >= 2 && c.run >= 2 { 2 } else { 1 };
    let lo = o.out_idx + 1;
    let hi = c.out_idx;
    let mut tail = out.split_off(hi);
    let inner = out.split_off(lo);
    let _ = out.pop();
    let ghost prefix = out@;
    let ghost inner_s = inner@;
    let ghost tail_s = tail@;
    let node = if n == 1 {
        Node::Italic(Inline { children: inner, span: clone_span(&o.span) })
    } else {
        Node::Bold(Inline { children: inner, span: clone_span(&o.span) })
    };
    let ghost node_v = nv(node);
    if o.run != n {
        out.push(Node::Text(Text { value: marks_string(o.c, o.run - n), span: clone_span(&o.span) }));
    }
    let ghost opened = out@;
    out.push(node);
    let ghost with_node = out@;
    let closer = tail.remove(0);
    let ghost rest = tail@;
    if c.run != n {
        let kept = match closer {
            Node::Text(t) => Node::Text(Text { value: marks_string(c.c, c.run - n), span: t.span }),
            other => other,
        };
        out.push(kept);
    }
    let ghost closed = out@;
    out.append(&mut tail);
    proof {
        let sv = nvs(src);
        assert(prefix =~= src.subrange(0, o.out_idx as int));
        assert(inner_s =~= src.subrange(lo as int, hi as int));
        assert(rest =~= src.subrange(hi + 1, src.len() as int));
        lemma_nvs_subrange(src, 0, o.out_idx as int);
        lemma_nvs_subrange(src, lo as int, hi as int);
        lemma_nvs_subrange(src, hi + 1, src.len() as int);
        assert(tail_s[0] == src[hi as int]);
        assert(nvs(opened) =~= nvs(prefix) + (if o.run == n { Seq::empty() } else {
            seq![NodeV::Text(marks(o.c, (o.run - n) as nat), o.span)]
        }));
        assert(nvs(with_node) =~= nvs(opened) + seq![node_v]);
        assert(nvs(closed) =~= nvs(with_node) + (if c.run == n { Seq::empty() } else {
            seq![retext(sv[hi as int], marks(c.c, (c.run - n) as nat))]
        }));
        lemma_nvs_add(closed, rest);
        assert(nvs(out@) =~= paired_out(sv, *o, *c));
    }
}

/// Spends the records between `oi` and `ci`, takes the markers used from
/// both runs, and shifts every placeholder position.
fn pair_delims(delims: &mut Vec<DelimRecord>, oi: usize, ci: usize, len: usize)
    requires
        oi < ci < old(delims).len(),
        forall|m: int| 0 <= m < old(delims).len() ==> (#[trigger] old(delims)@[m]).out_idx < len,
        1 <= old(delims)@[oi as int].run,
        1 <= old(delims)@[ci as int].run,
        old(delims)@[oi as int].out_idx < old(delims)@[ci as int].out_idx,
    ensures
        final(delims)@ == paired_ds(old(delims)@, oi as int, ci as int),
{
    let o_run = delims[oi].run;
    let c_run = delims[ci].run;
    let o_idx = delims[oi].out_idx;
    let c_idx = delims[ci].out_idx;
    let n: u8 = if o_run >= 2 && c_run >= 2 { 2 } else { 1 };
    let down: usize = (c_idx - (o_idx + 1)) + if c_run == n { 1 } else { 0 };
    let up: usize = if o_run == n { 0 } else { 1 };
    let mut taken: Vec<DelimRecord> = Vec::new();
    std::mem::swap(&mut taken, delims);
    let ghost src = taken@;
    let total = taken.len();
    proof {
        assert(n == used(src[oi as int], src[ci as int]));
        assert(down - up == slots_removed(src[oi as int], src[ci as int]));
    }
    let mut m: usize = 0;
    for d in it: taken.into_iter()
        invariant
            it.seq() == src,
            m == it.index(),
            src.len() == total,
            oi < ci < src.len(),
            forall|j: int| 0 <= j < src.len() ==> (#[trigger] src[j]).out_idx < len,
            o_run == src[oi as int].run,
            c_run == src[ci as int].run,
            o_idx == src[oi as int].out_idx,
            n == used(src[oi as int], src[ci as int]),
            1 <= o_run,
            1 <= c_run,
            down - up == slots_removed(src[oi as int], src[ci as int]),
            up <= 1,
            delims@.len() == m,
            forall|j: int| 0 <= j < m ==> #[trigger] delims@[j] == paired_delim(src, oi as int, ci as int, j),
    {
        let ghost dm = d;
        assert(d == src[m as int]);
        assert(m < total);
        let idx: usize = if d.out_idx > o_idx {
            if d.out_idx + up >= down {
                d.out_idx + up - down
            } else {
                0
            }
        } else {
            d.out_idx
        };
        assert(idx == shifted(dm.out_idx, src[oi as int], src[ci as int]));
        let nd = if oi < m && m < ci {
            DelimRecord { c: d.c, run: 0, can_open: false, can_close: false, out_idx: idx, span: d.span }
        } else if m == oi {
            DelimRecord {
                c: d.c,
                run: d.run - n,
                can_open: if d.run == n { false } else { d.can_open },
                can_close: d.can_close,
                out_idx: idx,
                span: d.span,
            }
        } else if m == ci {
            DelimRecord {
                c: d.c,
                run: d.run - n,
                can_open: d.can_open,
                can_close: d.can_close,
                out_idx: idx,
                span: d.span,
            }
        } else {
            DelimRecord {
                c: d.c,
                run: d.run,
                can_open: d.can_open,
                can_close: d.can_close,
                out_idx: idx,
                span: d.span,
            }
        };
        assert(nd == paired_delim(src, oi as int, ci as int, m as int));
        delims.push(nd);
        m += 1;
    }
    assert(delims@ =~= paired_ds(src, oi as int, ci as int));
}

proof fn lemma_paired_len(out: Seq<NodeV>, o: DelimRecord, c: DelimRecord)
    requires
        o.out_idx < c.out_idx < out.len(),
        1 <= o.run,
        1 <= c.run,
    ensures
        paired_out(out, o, c).len() == out.len() - slots_removed(o, c),
        paired_out(out, o, c).len() > o.out_idx,
{
}

/// Pairing keeps what resolution needs of its input.
proof fn lemma_pair_fit(out: Seq<NodeV>, ds: Seq<DelimRecord>, oi: int, ci: int)
    requires
        delims_fit(out.len(), ds),
        out.len() <= usize::MAX,
        0 <= oi < ci < ds.len(),
        ds[oi].run > 0,
        ds[ci].run > 0,
    ensures
        delims_fit(paired_out(out, ds[oi], ds[ci]).len(), paired_ds(ds, oi, ci)),
{
    let o = ds[oi];
    let c = ds[ci];
    let nds = paired_ds(ds, oi, ci);
    lemma_paired_len(out, o, c);
    let nlen = paired_out(out, o, c).len();
    assert forall|m: int| 0 <= m < nds.len() implies (#[trigger] nds[m]).out_idx < nlen by {
        assert(ds[m].out_idx < out.len());
    }
    assert forall|a: int, b: int|
        #![trigger nds[a], nds[b]]
        0 <= a < b < nds.len() && nds[a].c == nds[b].c && nds[a].can_open && nds[b].can_close implies nds[a].run
            + nds[b].run <= 255 by {
        assert(nds[a].run <= ds[a].run && nds[b].run <= ds[b].run);
        assert(ds[a].can_open && ds[b].can_close && ds[a].c == ds[b].c);
    }
    let n = used(o, c);
    let ins: int = if o.run == n { 0 } else { 1 };
    let rc: int = if c.run == n { 1 } else { 0 };
    assert(slots_removed(o, c) == (c.out_idx - o.out_idx - 1) + rc - ins);
    assert(o.out_idx < c.out_idx);
    assert(nds[oi].out_idx == o.out_idx);
    assert(c.out_idx < out.len());
    assert(shifted(c.out_idx, o, c) == o.out_idx + 1 - rc + ins);
    assert(nds[ci] == paired_delim(ds, oi, ci, ci));
    assert(nds[ci].out_idx == o.out_idx + 1 - rc + ins);
    assert(nds[oi].run > 0 ==> ins == 1);
    assert(nds[ci].run > 0 ==> rc == 0);
    assert forall|m: int| ci < m < ds.len() && ds[m].run > 0 implies
        #[trigger] nds[m].out_idx == ds[m].out_idx - slots_removed(o, c)
        && nds[m].out_idx >= o.out_idx + 2 - rc + ins by {
        assert(ds[m].out_idx > c.out_idx);
    }
    assert forall|m: int| 0 <= m < oi && ds[m].run > 0 implies
        #[trigger] nds[m].out_idx == ds[m].out_idx && ds[m].out_idx < o.out_idx by {
    }
    assert forall|a: int, b: int|
        #![trigger nds[a], nds[b]]
        0 <= a < b < nds.len() && nds[a].run > 0 && nds[b].run > 0 implies nds[a].out_idx < nds[b].out_idx by {
        assert(ds[a].run > 0 && ds[b].run > 0);
        assert(!(oi < a < ci) && !(oi < b < ci));
        if a > ci {
            assert(ds[a].out_idx < ds[b].out_idx);
        }
    }
}

/// Resolves the emphasis delimiter runs recorded in `delims` against the
/// placeholders in `out`: every closer, left to right, pairs with the nearest
/// usable opener before it, and the nodes between their placeholders become
/// an `Italic` or `Bold` node.
pub fn resolve_emphasis_delims(out: &mut Vec<Node>, delims: &mut Vec<DelimRecord>)
    requires
        delims_fit(old(out)@.len(), old(delims)@),
    ensures
        (nvs(final(out)@), final(delims)@) == emph_resolve(nvs(old(out)@), old(delims)@, 0),
        delims_fit(final(out)@.len(), final(delims)@),
        final(delims)@.len() == old(delims)@.len(),
        forall|m: int| 0 <= m < old(delims)@.len() ==> #[trigger] final(delims)@[m].run <= old(delims)@[m].run,
{
    proof {
        law_resolution_only_spends(nvs(out@), delims@, 0);
    }
    let ghost out0 = nvs(out@);
    let ghost ds0 = delims@;
    let mut i: usize = 0;
    while i < delims.len()
        invariant
            i <= delims.len(),
            delims_fit(out@.len(), delims@),
            emph_resolve(nvs(out@), delims@, i as int) == emph_resolve(out0, ds0, 0),
        decreases delims.len() - i, delims@[i as int].run,
    {
        let ghost before_out = nvs(out@);
        let ghost before_ds = delims@;
        assert(emph_resolve(before_out, before_ds, i as int) == {
            let (o2, d2, i2) = emph_step(before_out, before_ds, i as int);
            emph_resolve(o2, d2, i2)
        });
        if !delims[i].can_close || delims[i].run == 0 {
            i += 1;
        } else {
            match find_opener(delims, i) {
                None => {
                    i += 1;
                },
                Some(o) => {
                    let len = out.len();
                    proof {
                        assert(before_out.len() == len);
                        lemma_opener_before(before_ds, i as int, i as int);
                        lemma_pair_fit(before_out, before_ds, o as int, i as int);
                        lemma_paired_len(before_out, before_ds[o as int], before_ds[i as int]);
                    }
                    pair_nodes(out, &delims[o], &delims[i]);
                    pair_delims(delims, o, i, len);
                    if delims[i].run == 0 {
                        i += 1;
                    }
                },
            }
        }
    }
}

/// Resolution keeps the records and only ever spends markers: no run grows.
pub proof fn law_resolution_only_spends(out: Seq<NodeV>, ds: Seq<DelimRecord>, i: int)
    ensures
        emph_resolve(out, ds, i).1.len() == ds.len(),
        forall|m: int| 0 <= m < ds.len() ==> #[trigger] emph_resolve(out, ds, i).1[m].run <= ds[m].run,
    decreases ds.len() - i, ds[i].run,
{
    if 0 <= i < ds.len() {
        let (o2, d2, i2) = emph_step(out, ds, i);
        law_resolution_only_spends(o2, d2, i2);
        assert(d2.len() == ds.len());
        assert forall|m: int| 0 <= m < ds.len() implies #[trigger] d2[m].run <= ds[m].run by {
            if let Some(o) = opener_before(ds, i, i) {
                lemma_opener_before(ds, i, i);
            }
        }
    }
}

/// Where no record can close, resolution changes nothing.
pub proof fn law_no_closer_no_change(out: Seq<NodeV>, ds: Seq<DelimRecord>, i: int)
    requires
        forall|m: int| 0 <= m < ds.len() ==> !(#[trigger] ds[m]).can_close,
    ensures
        emph_resolve(out, ds, i) == (out, ds),
    decreases ds.len() - i,
{
    if 0 <= i < ds.len() {
        assert(!ds[i].can_close);
        law_no_closer_no_change(out, ds, i + 1);
    }
}

/// What the inline content of a block becomes once collected: the emphasis
/// delimiters resolved, then, under the legacy GFM option, redundant nested
/// strong emphasis flattened. Without delimiters nothing changes.
pub fn finish_emphasis(out: &mut Vec<Node>, delims: &mut Vec<DelimRecord>, options: ParseOptions)
    requires
        delims_fit(old(out)@.len(), old(delims)@),
    ensures
        old(delims)@.len() == 0 ==> final(out)@ == old(out)@ && final(delims)@ == old(delims)@,
        old(delims)@.len() > 0 ==> {
            let (resolved, spent) = emph_resolve(nvs(old(out)@), old(delims)@, 0);
            &&& final(delims)@ == spent
            &&& nvs(final(out)@) == if options.legacy_gfm_emphasis {
                legacy_norm(resolved)
            } else {
                resolved
            }
        },
{
    if delims.len() > 0 {
        resolve_emphasis_delims(out, delims);
        if options.legacy_gfm_emphasis {
            normalize_legacy_gfm_emphasis(out);
        }
    }
}

} // verus!
